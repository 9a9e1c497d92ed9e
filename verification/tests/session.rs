use terminal_client::computer::{Computer, ComputerBuilder, ComputerId, User};
use terminal_client::date::NodeDateTime;
use terminal_client::fs::{File, FsError, Node};
use terminal_client::game::programs::{
    cat, cd, clear, cmd, help, logout, ls, ssh, which, SubprocessFn,
};
use terminal_client::game::{Game, Output, Request};
use terminal_client::ipc::{Message, SwitchComputerMessage};
use terminal_client::path::Path;
use terminal_client::subprocess::Builtin;

fn date() -> NodeDateTime {
    NodeDateTime { secs: 1705062600, nanos: 0 }
}

fn path(items: &[&str]) -> Path {
    Path::new(items.iter().map(|s| s.to_string()).collect())
}

fn args(items: &[&str]) -> Vec<String> {
    items.iter().map(|s| s.to_string()).collect()
}

fn text(t: &str) -> Vec<Output> {
    vec![Output::Text(t.to_string())]
}

fn machine(name: &str, address: &str, id: ComputerId) -> Computer {
    ComputerBuilder::with_root_date(date())
        .name(name)
        .address(address)
        .id(id)
        .users(vec![User::new("root", "123456")])
        .with_path("bin".to_string())
        .add_dir(&path(&[]), "bin", date())
        .add_dir(&path(&[]), "home", date())
        .add_file(&path(&[]), "readme", date(), File::new("hello"))
        .add_exes_same_date(&path(&["bin"]), date(), &terminal_client::subprocess::sys::defaults())
        .add_exes_same_date(&path(&["bin"]), date(), &terminal_client::subprocess::fs::defaults())
        .build()
}

fn two_computers() -> Game {
    Game::with_computers(vec![
        machine("one", "A1", ComputerId::First),
        machine("two", "A2", ComputerId::Second),
    ])
    .expect("two valid computers")
}

fn prompt_of(g: &mut Game) -> String {
    match g.pending() {
        Request::ReadLine { prompt, hidden: false, commands: true } => prompt,
        other => panic!("the shell should wait for a line, not {other:?}"),
    }
}

#[test]
fn start_exe_from_path_runs_what_path_finds() {
    let c = ComputerBuilder::with_root_date(date())
        .users(vec![User::new("root", "x")])
        .with_path("bin".to_string())
        .add_dir(&path(&[]), "bin", date())
        .add_exe(&path(&["bin"]), "hello", date(), Builtin::Clear)
        .build();
    let mut g = Game::with_computers(vec![c]).unwrap();
    assert!(g.current_computer().cwd.0.is_empty());
    assert_eq!(g.start_exe_from_path("hello", vec![]), Ok(vec![Output::Clear]));
    assert_eq!(g.start_exe_from_path("missing", vec![]), Err(FsError::NotExecutable));
    assert_eq!(g.start_exe_from_path("bin", vec![]), Err(FsError::NotExecutable));
}

#[test]
fn start_exe_refuses_what_is_no_executable() {
    let mut g = two_computers();
    let file = Node::file("f", date(), File::new("x"));
    assert_eq!(g.start_exe(&file, vec![]), Err(FsError::NotExecutable));
    let exe = Node::exe("anything", date(), Builtin::Cat);
    assert_eq!(g.start_exe(&exe, args(&["readme"])), Ok(text("hello\n")));
}

#[test]
fn start_process_goes_by_registered_name() {
    let mut g = two_computers();
    assert_eq!(g.start_process("cat", args(&["readme"])), Some(text("hello\n")));
    assert_eq!(g.start_process("nothing", vec![]), None);
}

#[test]
fn with_computers_wants_valid_computers() {
    assert!(Game::with_computers(vec![]).is_none());
    let no_user = ComputerBuilder::with_root_date(date()).build();
    assert!(Game::with_computers(vec![no_user]).is_none());
    let bad_index = ComputerBuilder::with_root_date(date())
        .users(vec![User::new("a", "b")])
        .current_user_index(1)
        .build();
    assert!(Game::with_computers(vec![machine("x", "y", ComputerId::First), bad_index]).is_none());
}

#[test]
fn cd_scenarios_through_the_session() {
    let mut g = two_computers();
    assert_eq!(cd(&mut g, args(&["home"])), vec![]);
    assert_eq!(g.current_computer().cwd.0, vec!["home"]);
    assert_eq!(cd(&mut g, args(&["nothing"])), text("No such directory \"/home/nothing\".\n"));
    assert_eq!(g.current_computer().cwd.0, vec!["home"]);
    assert_eq!(cd(&mut g, args(&["/readme"])), text("Path is not a directory \"/readme\".\n"));
    assert_eq!(g.current_computer().cwd.0, vec!["home"]);
    assert!(g.computers()[1].cwd.0.is_empty());
}

#[test]
fn change_computers_by_address_switches_or_leaves() {
    let mut g = two_computers();
    assert_eq!(g.current_computer_index(), 0);
    assert!(g.change_computers_by_address("A2"));
    assert_eq!(g.current_computer_index(), 1);
    assert_eq!(g.current_computer().name, "two");
    assert!(!g.change_computers_by_address("ZZ"));
    assert_eq!(g.current_computer_index(), 1);
    assert!(g.change_computers_by_address("A1"));
    assert_eq!(g.current_computer_index(), 0);
}

#[test]
fn find_computer_by_address_looks_up_without_change() {
    let g = two_computers();
    assert_eq!(g.find_computer_by_address("A2").unwrap().name, "two");
    assert_eq!(g.find_computer_by_address("A1").unwrap().id, ComputerId::First);
    assert!(g.find_computer_by_address("a1").is_none());
    assert_eq!(g.current_computer_index(), 0);
}

#[test]
fn same_address_twice_finds_the_later_computer() {
    let g = Game::with_computers(vec![
        machine("one", "same", ComputerId::First),
        machine("two", "same", ComputerId::Second),
    ])
    .unwrap();
    assert_eq!(g.find_computer_by_address("same").unwrap().name, "two");
}

#[test]
fn queue_is_first_in_first_out() {
    let mut g = two_computers();
    assert_eq!(g.get_queued_process(), None);
    g.queue_process("clear", vec![]);
    g.queue_process("cat", args(&["a", "b"]));
    g.queue_process("cmd", vec![]);
    assert_eq!(g.get_queued_process(), Some(("clear".to_string(), vec![])));
    assert_eq!(g.get_queued_process(), Some(("cat".to_string(), args(&["a", "b"]))));
    assert_eq!(g.get_queued_process(), Some(("cmd".to_string(), vec![])));
    assert_eq!(g.get_queued_process(), None);
}

#[test]
fn shell_runs_commands_and_reports_unknown_ones() {
    let mut g = two_computers();
    assert_eq!(g.pending(), Request::Idle);
    assert_eq!(cmd(&mut g, vec![]), vec![]);
    assert_eq!(prompt_of(&mut g), "root@one /$ ");
    assert_eq!(g.feed_line("cat readme"), text("hello\n"));
    assert_eq!(g.feed_line(""), vec![]);
    assert_eq!(g.feed_line("   "), vec![]);
    assert_eq!(
        g.feed_line("nothing here"),
        text("Could not find process \"nothing\"\nType \"help\" to list all processes.\n")
    );
    assert_eq!(g.feed_line("cd home"), vec![]);
    assert_eq!(prompt_of(&mut g), "root@one /home$ ");
    assert_eq!(g.feed_line("clear"), vec![Output::Clear]);
    assert_eq!(g.feed_line("which \"cat\""), text("/bin/cat\n"));
}

#[test]
fn shell_ends_at_exit_and_at_logout() {
    let mut g = two_computers();
    g.start_exe_from_path("cmd", vec![]).unwrap();
    assert_eq!(g.feed_line("exit"), vec![]);
    assert_eq!(g.pending(), Request::Idle);
    assert!(!g.current_computer().should_quit);

    g.start_exe_from_path("cmd", vec![]).unwrap();
    assert_eq!(g.feed_line("exit "), text(
        "Could not find process \"exit\"\nType \"help\" to list all processes.\n"
    ));
    assert_eq!(g.feed_line("logout"), vec![]);
    assert!(g.current_computer().should_quit);
    assert_eq!(g.pending(), Request::Idle);
    g.start_exe_from_path("cmd", vec![]).unwrap();
    assert_eq!(g.pending(), Request::Idle);
}

#[test]
fn nested_shells_end_together_at_logout_and_one_by_one_at_exit() {
    let mut g = two_computers();
    g.start_exe_from_path("cmd", vec![]).unwrap();
    g.feed_line("cmd");
    g.feed_line("cmd");
    assert_eq!(g.feed_line("exit"), vec![]);
    assert_eq!(prompt_of(&mut g), "root@one /$ ");
    assert_eq!(g.feed_line("exit"), vec![]);
    assert_eq!(prompt_of(&mut g), "root@one /$ ");
    g.feed_line("cmd");
    assert_eq!(g.feed_line("logout"), vec![]);
    assert_eq!(g.pending(), Request::Idle);
}

#[test]
fn a_line_that_nothing_waits_for_is_dropped() {
    let mut g = two_computers();
    assert_eq!(g.feed_line("cat readme"), vec![]);
    assert_eq!(g.feed_sent(true), vec![]);
    assert_eq!(g.pending(), Request::Idle);
    assert_eq!(g.current_computer_index(), 0);
    assert_eq!(g.get_queued_process(), None);
    cmd(&mut g, vec![]);
    assert_eq!(g.feed_sent(true), vec![]);
    assert_eq!(prompt_of(&mut g), "root@one /$ ");
    assert!(!g.current_computer().should_quit);
}

#[test]
fn ls_with_two_arguments_asks_help() {
    let mut g = two_computers();
    assert_eq!(
        ls(&mut g, args(&["a", "b"])),
        text("ls\nThis executable has no help documentation.\n")
    );
    assert_eq!(
        ssh(&mut g, vec![]),
        text("Secure Shell -- creates a remote shell to another computer.\nssh host\n\n")
    );
    assert_eq!(
        ssh(&mut g, args(&["A1", "A2"])),
        text("Secure Shell -- creates a remote shell to another computer.\nssh host\n\n")
    );
    assert_eq!(g.pending(), Request::Idle);
}

#[test]
fn usage_help_is_silent_where_help_is_not_found() {
    let c = ComputerBuilder::with_root_date(date()).users(vec![User::new("r", "p")]).build();
    let mut g = Game::with_computers(vec![c]).unwrap();
    assert_eq!(ls(&mut g, args(&["a", "b"])), vec![]);
    assert_eq!(ssh(&mut g, vec![]), vec![]);
}

#[test]
fn free_functions_run_the_programs() {
    let mut g = two_computers();
    assert_eq!(cat(&mut g, args(&["readme"])), text("hello\n"));
    assert_eq!(cat(&mut g, args(&[])), vec![]);
    assert!(matches!(&ls(&mut g, vec![])[..], [Output::Text(t)] if t.lines().count() == 3));
    assert_eq!(logout(&mut g, args(&["ignored"])), vec![]);
    assert!(g.current_computer().should_quit);
    assert!(!g.computers()[1].should_quit);
}

#[test]
fn ssh_to_an_unknown_host() {
    let mut g = two_computers();
    assert_eq!(ssh(&mut g, args(&["nowhere"])), text("Host does not exist.\n"));
    assert_eq!(g.pending(), Request::Idle);
}

#[test]
fn ssh_with_right_credentials_switches_computers() {
    let mut g = two_computers();
    g.start_exe_from_path("cmd", vec![]).unwrap();
    let mut sends = 0;
    assert_eq!(g.feed_line("ssh A2"), vec![]);
    assert_eq!(
        g.pending(),
        Request::ReadLine { prompt: "Username: ".to_string(), hidden: false, commands: false }
    );
    assert_eq!(g.feed_line("root"), vec![]);
    assert_eq!(
        g.pending(),
        Request::ReadLine { prompt: "Password: ".to_string(), hidden: true, commands: false }
    );
    assert_eq!(g.feed_line("123456"), vec![]);
    let asked = g.pending();
    assert_eq!(
        asked,
        Request::Send(Message::SwitchComputer(SwitchComputerMessage { new_id: ComputerId::Second }))
    );
    sends += 1;
    assert!(!g.current_computer().should_quit);
    assert_eq!(g.current_computer_index(), 0);
    assert_eq!(g.feed_sent(true), text("Successfully connected\n"));
    assert_eq!(sends, 1);
    assert!(g.computers()[0].should_quit);
    assert!(!g.computers()[1].should_quit);
    assert_eq!(g.current_computer_index(), 1);
    assert_eq!(prompt_of(&mut g), "root@two /$ ");
    assert_eq!(g.get_queued_process(), Some(("cmd".to_string(), vec![])));
    assert_eq!(g.get_queued_process(), None);
    assert_eq!(g.feed_line("logout"), vec![]);
    assert_eq!(g.pending(), Request::Idle);
}

#[test]
fn ssh_with_wrong_password_changes_nothing() {
    let mut g = two_computers();
    g.start_exe_from_path("cmd", vec![]).unwrap();
    g.feed_line("ssh A2");
    g.feed_line("root");
    assert_eq!(g.feed_line("wrong"), text("Incorrect password.\n"));
    assert_eq!(prompt_of(&mut g), "root@one /$ ");
    assert!(!g.computers()[0].should_quit);
    assert!(!g.computers()[1].should_quit);
    assert_eq!(g.current_computer_index(), 0);
    assert_eq!(g.get_queued_process(), None);
}

#[test]
fn ssh_with_unknown_user_changes_nothing() {
    let mut g = two_computers();
    assert_eq!(ssh(&mut g, args(&["A2"])), vec![]);
    assert_eq!(g.feed_line("nobody"), vec![]);
    assert_eq!(g.feed_line("123456"), text("Incorrect username or password\n"));
    assert_eq!(g.pending(), Request::Idle);
    assert_eq!(g.current_computer_index(), 0);
    assert!(!g.current_computer().should_quit);
    assert_eq!(g.get_queued_process(), None);
}

#[test]
fn ssh_that_cannot_send_changes_nothing() {
    let mut g = two_computers();
    ssh(&mut g, args(&["A2"]));
    g.feed_line("root");
    g.feed_line("123456");
    assert!(matches!(g.pending(), Request::Send(_)));
    assert_eq!(g.feed_line("typed too early"), vec![]);
    assert!(matches!(g.pending(), Request::Send(_)));
    assert_eq!(g.feed_sent(false), vec![]);
    assert_eq!(g.pending(), Request::Idle);
    assert_eq!(g.current_computer_index(), 0);
    assert!(!g.current_computer().should_quit);
    assert_eq!(g.get_queued_process(), None);
}

#[test]
fn ssh_to_the_same_computer_ends_its_shell() {
    let mut g = two_computers();
    cmd(&mut g, vec![]);
    g.feed_line("ssh A1");
    g.feed_line("root");
    g.feed_line("123456");
    assert_eq!(
        g.pending(),
        Request::Send(Message::SwitchComputer(SwitchComputerMessage { new_id: ComputerId::First }))
    );
    assert_eq!(g.feed_sent(true), text("Successfully connected\n"));
    assert_eq!(g.current_computer_index(), 0);
    assert!(g.current_computer().should_quit);
    assert_eq!(g.pending(), Request::Idle);
    assert_eq!(g.get_queued_process(), Some(("cmd".to_string(), vec![])));
}

#[test]
fn the_game_starts_with_its_two_computers() {
    let mut g = Game::with_dates(date(), NodeDateTime { secs: 1673740800, nanos: 0 });
    assert_eq!(g.computers().len(), 2);
    assert_eq!(g.current_computer_index(), 0);
    let first = &g.computers()[0];
    assert_eq!(first.name, "Plasma_XQ9");
    assert_eq!(first.address, "64.26.62.54");
    assert_eq!(first.path(), "bin");
    assert_eq!(first.users, vec![User::new("root", "123456")]);
    assert_eq!(first.root.node.date, NodeDateTime { secs: 1673740800, nanos: 0 });
    let second = &g.computers()[1];
    assert_eq!(second.name, "Computer1");
    assert_eq!(second.address, "214.7.222.240");
    assert_eq!(second.id, ComputerId::First);
    assert!(second.root.get_node(&path(&["hello2"])).unwrap().is_file());
    assert!(second.root.get_node(&path(&["hello1"])).is_none());
    let bin: Vec<String> = first
        .root
        .get_dir(&path(&["bin"]))
        .unwrap()
        .children()
        .iter()
        .map(|n| n.name.clone())
        .collect();
    assert_eq!(bin, vec!["cat", "cd", "clear", "cmd", "help", "logout", "ls", "ssh", "which"]);
    for name in ["cat", "cd", "clear", "cmd", "help", "logout", "ls", "ssh", "which"] {
        assert_eq!(first.which_node(name).unwrap().as_exe(), Builtin::from_name(name));
    }
    assert_eq!(g.start_exe_from_path("cat", args(&["hello1"])), Ok(text("there\n")));
    assert_eq!(g.pending(), Request::Idle);
    g.queue_process("clear", vec![]);
    g.queue_process("cmd", vec![]);
    let (name, a) = g.get_queued_process().unwrap();
    assert_eq!(g.start_exe_from_path(&name, a), Ok(vec![Output::Clear]));
    let (name, a) = g.get_queued_process().unwrap();
    assert_eq!(g.start_exe_from_path(&name, a), Ok(vec![]));
    assert_eq!(prompt_of(&mut g), "root@Plasma_XQ9 /$ ");
    g.feed_line("ssh 214.7.222.240");
    g.feed_line("root");
    g.feed_line("123456");
    g.feed_sent(true);
    assert_eq!(prompt_of(&mut g), "root@Computer1 /$ ");
}

#[test]
fn game_new_reads_the_dates_of_the_roster() {
    let g = Game::new().expect("the dates are read");
    assert_eq!(g.computers().len(), 2);
    assert_eq!(g.current_computer().name, "Plasma_XQ9");
    assert_eq!(g.current_computer().exes().len(), 9);
}

#[test]
fn help_which_and_clear_run_against_the_session() {
    let mut g = two_computers();
    assert_eq!(which(&mut g, args(&["ls"])), text("/bin/ls\n"));
    assert_eq!(clear(&mut g, vec![]), vec![Output::Clear]);
    assert_eq!(help(&mut g, args(&["cd"])), text("cd\nThis executable has no help documentation.\n"));
    assert_eq!(g.pending(), Request::Idle);
}

#[test]
fn programs_run_through_their_trait() {
    let mut g = two_computers();
    assert_eq!(SubprocessFn::run(&Builtin::Cat, &mut g, args(&["readme"])), text("hello\n"));
    assert_eq!(SubprocessFn::info(&Builtin::Ssh).name.as_deref(), Some("Secure Shell"));
}

#[test]
fn the_game_with_optional_dates_wants_both_dates() {
    let root_date = NodeDateTime { secs: 1673740800, nanos: 0 };
    let g = Game::with_optional_dates(Some(date()), Some(root_date)).expect("both dates");
    assert_eq!(g.computers().len(), 2);
    assert_eq!(g.computers()[1].name, "Computer1");
    assert_eq!(g.computers()[0].root.node.date, root_date);
    assert_eq!(g.computers()[0].root.get_node(&path(&["bin"])).unwrap().date, date());
    assert!(Game::with_optional_dates(None, Some(root_date)).is_none());
    assert!(Game::with_optional_dates(Some(date()), None).is_none());
    assert!(Game::with_optional_dates(None, None).is_none());
}

#[test]
fn start_next_takes_the_head_of_the_queue() {
    let mut g = two_computers();
    assert_eq!(g.start_next(), None);
    g.queue_process("cat", args(&["readme"]));
    g.queue_process("missing", vec![]);
    g.queue_process("clear", vec![]);
    assert_eq!(g.start_next(), Some(Ok(text("hello\n"))));
    assert_eq!(g.start_next(), Some(Err(FsError::NotExecutable)));
    assert_eq!(g.start_next(), Some(Ok(vec![Output::Clear])));
    assert_eq!(g.start_next(), None);
    assert_eq!(g.get_queued_process(), None);
}

#[test]
fn begin_selects_the_computer_and_queues_clear_and_the_shell() {
    let mut g = two_computers();
    g.begin(ComputerId::Second);
    assert_eq!(g.current_computer_index(), 1);
    assert_eq!(g.start_next(), Some(Ok(vec![Output::Clear])));
    assert_eq!(g.start_next(), Some(Ok(vec![])));
    assert_eq!(prompt_of(&mut g), "root@two /$ ");
    let mut roster = Game::with_dates(date(), date());
    roster.begin(ComputerId::Second);
    assert_eq!(roster.current_computer_index(), 0);
    assert_eq!(roster.get_queued_process(), Some(("clear".to_string(), vec![])));
    assert_eq!(roster.get_queued_process(), Some(("cmd".to_string(), vec![])));
    assert_eq!(roster.get_queued_process(), None);
}
