use terminal_client::computer::{Computer, ComputerBuilder, ComputerId, User};
use terminal_client::date::NodeDateTime;
use terminal_client::fs::{Dir, File, Node};
use terminal_client::path::Path;
use terminal_client::subprocess::{Builtin, SubprocessInfo};

fn date() -> NodeDateTime {
    NodeDateTime { secs: 1705062600, nanos: 0 }
}

fn path(items: &[&str]) -> Path {
    Path::new(items.iter().map(|s| s.to_string()).collect())
}

fn names(nodes: &[&Node]) -> Vec<String> {
    nodes.iter().map(|n| n.name.clone()).collect()
}

fn two_dirs() -> Computer {
    ComputerBuilder::with_root_date(date())
        .name("box")
        .users(vec![User::new("root", "123456"), User::new("guest", "")])
        .with_path("a".to_string())
        .with_path("b".to_string())
        .add_dir(&path(&[]), "a", date())
        .add_dir(&path(&[]), "b", date())
        .add_exe(&path(&["a"]), "x", date(), Builtin::Ls)
        .add_exe(&path(&["b"]), "x", date(), Builtin::Cat)
        .add_exe(&path(&["b"]), "only_b", date(), Builtin::Help)
        .add_file(&path(&["a"]), "data", date(), File::new("not a program"))
        .add_file(&path(&["a"]), "only_b", date(), File::new("a file of that name"))
        .build()
}

#[test]
fn fresh_builder_has_defaults() {
    let c = ComputerBuilder::with_root_date(date()).build();
    assert!(!c.should_quit);
    assert_eq!(c.name, "");
    assert!(c.users.is_empty());
    assert_eq!(c.current_user_index, 0);
    assert_eq!(c.id, ComputerId::First);
    assert_eq!(c.address, "");
    assert!(c.cwd.0.is_empty());
    assert_eq!(c.root.node.name, "");
    assert_eq!(c.root.node.date, date());
    assert_eq!(c.root.node.as_dir().unwrap().len(), 0);
    assert_eq!(c.env.get("PS1"), Some(&"\\u@\\H \\w$ ".to_string()));
    assert_eq!(c.env.len(), 1);
    assert_eq!(c.path(), "");
    assert!(!c.has_user());
}

#[test]
fn builder_new_reads_the_root_date() {
    let c = ComputerBuilder::new().expect("the date is read").build();
    assert_eq!(c.root.node.name, "");
    assert_eq!(c.env.len(), 1);
}

#[test]
fn builder_sets_fields() {
    let c = ComputerBuilder::with_root_date(date())
        .name("Plasma")
        .address("10.0.0.1")
        .id(ComputerId::Second)
        .cwd(path(&["home"]))
        .add_user(User::new("a", "1"))
        .add_user(User::new("b", "2"))
        .current_user_index(1)
        .current_user_name("a".to_string())
        .ps1("> ".to_string())
        .build();
    assert_eq!(c.name, "Plasma");
    assert_eq!(c.address, "10.0.0.1");
    assert_eq!(c.id, ComputerId::Second);
    assert_eq!(c.cwd.0, vec!["home"]);
    assert_eq!(c.users, vec![User::new("a", "1"), User::new("b", "2")]);
    assert_eq!(c.current_user_index, 1);
    assert_eq!(c.current_user().name, "b");
    assert_eq!(c.env.get("PS1"), Some(&"> ".to_string()));
}

#[test]
fn with_path_appends_with_semicolon() {
    let c = ComputerBuilder::with_root_date(date())
        .with_path("bin".to_string())
        .with_path("usr/bin".to_string())
        .with_path("bin".to_string())
        .build();
    assert_eq!(c.path(), "bin;usr/bin;bin");
    assert_eq!(c.parsed_path(), vec!["bin", "usr/bin", "bin"]);
}

#[test]
fn parsed_path_of_no_path_is_one_empty_entry() {
    let c = ComputerBuilder::with_root_date(date()).build();
    assert_eq!(c.parsed_path(), vec![""]);
}

#[test]
fn which_takes_the_first_match_in_path_order() {
    let c = two_dirs();
    assert_eq!(c.path(), "a;b");
    let (p, node) = c.which("x").expect("x is found");
    assert_eq!(p.0, vec!["a", "x"]);
    assert_eq!(node.as_exe(), Some(Builtin::Ls));
    assert_eq!(c.which_path("x").unwrap().to_string(), "/a/x");
    assert_eq!(c.which_node("x").unwrap().as_exe(), Some(Builtin::Ls));
}

#[test]
fn which_skips_entries_that_are_not_executables() {
    let c = two_dirs();
    let (p, node) = c.which("only_b").expect("found in b");
    assert_eq!(p.0, vec!["b", "only_b"]);
    assert_eq!(node.as_exe(), Some(Builtin::Help));
    assert!(c.which("data").is_none());
    assert!(c.which("missing").is_none());
    assert!(c.which_node("missing").is_none());
    assert!(c.which_path("a").is_none());
}

#[test]
fn which_order_follows_the_path_not_the_names() {
    let c = ComputerBuilder::with_root_date(date())
        .with_path("b".to_string())
        .with_path("a".to_string())
        .add_dir(&path(&[]), "a", date())
        .add_dir(&path(&[]), "b", date())
        .add_exe(&path(&["a"]), "x", date(), Builtin::Ls)
        .add_exe(&path(&["b"]), "x", date(), Builtin::Cat)
        .build();
    assert_eq!(c.which_path("x").unwrap().0, vec!["b", "x"]);
    assert_eq!(c.which_node("x").unwrap().as_exe(), Some(Builtin::Cat));
}

#[test]
fn which_with_empty_path_entry_searches_the_root() {
    let c = ComputerBuilder::with_root_date(date())
        .add_exe(&path(&[]), "top", date(), Builtin::Clear)
        .build();
    assert_eq!(c.which_path("top").unwrap().0, vec!["top"]);
}

#[test]
fn find_user_is_exact_and_takes_the_first() {
    let c = ComputerBuilder::with_root_date(date())
        .users(vec![User::new("root", "a"), User::new("Root", "b"), User::new("root", "c")])
        .build();
    assert_eq!(c.find_user("root").unwrap().password, "a");
    assert_eq!(c.find_user("Root").unwrap().password, "b");
    assert!(c.find_user("ROOT").is_none());
    assert!(c.find_user("roo").is_none());
    assert!(c.has_user());
    assert_eq!(c.current_user().name, "root");
}

#[test]
fn exes_follow_path_order_and_skip_missing_directories() {
    let c = ComputerBuilder::with_root_date(date())
        .with_path("b".to_string())
        .with_path("nowhere".to_string())
        .with_path("file".to_string())
        .with_path("a".to_string())
        .with_path("b".to_string())
        .add_dir(&path(&[]), "a", date())
        .add_dir(&path(&[]), "b", date())
        .add_file(&path(&[]), "file", date(), File::new(""))
        .add_exe(&path(&["a"]), "z", date(), Builtin::Ls)
        .add_exe(&path(&["a"]), "c", date(), Builtin::Ls)
        .add_file(&path(&["a"]), "d", date(), File::new(""))
        .add_exe(&path(&["b"]), "y", date(), Builtin::Cat)
        .add_dir(&path(&["b"]), "sub", date())
        .build();
    assert_eq!(names(&c.exes()), vec!["y", "c", "z", "y"]);
}

#[test]
fn add_exes_adds_each_of_the_list() {
    let list = vec![
        ("two".to_string(), NodeDateTime { secs: 2, nanos: 0 }, Builtin::Cd),
        ("one".to_string(), NodeDateTime { secs: 1, nanos: 0 }, Builtin::Ls),
    ];
    let c = ComputerBuilder::with_root_date(date())
        .with_path("bin".to_string())
        .add_dir(&path(&[]), "bin", date())
        .add_exes(&path(&["bin"]), &list)
        .add_exes_same_date(&path(&["bin"]), date(), &vec![("three".to_string(), Builtin::Cat)])
        .build();
    let found = c.exes();
    assert_eq!(names(&found), vec!["one", "three", "two"]);
    assert_eq!(found[0].date, NodeDateTime { secs: 1, nanos: 0 });
    assert_eq!(found[1].date, date());
    assert_eq!(found[2].as_exe(), Some(Builtin::Cd));
}

#[test]
fn add_fs_node_adds_below_a_path() {
    let c = ComputerBuilder::with_root_date(date())
        .add_fs_node(&path(&[]), Node::dir("d", date(), Dir::empty()))
        .add_fs_node(&path(&["d"]), Node::file("f", date(), File::new("x")))
        .build();
    assert_eq!(c.root.get_node(&path(&["d", "f"])).unwrap().as_file().unwrap().content, "x");
}

#[test]
fn programs_describe_themselves() {
    let help = Builtin::Help.info();
    assert_eq!(help.name.as_deref(), Some("Help"));
    assert_eq!(help.description.as_deref(), Some("Shows helpful information about executables."));
    assert_eq!(
        help.help_text.as_deref(),
        Some("help [exe_name]\n\tShows useful information about an executable.\n\tIf exe_name is not specified, shows all executables.")
    );
    let ssh = Builtin::Ssh.info();
    assert_eq!(ssh.name.as_deref(), Some("Secure Shell"));
    assert_eq!(ssh.description.as_deref(), Some("creates a remote shell to another computer."));
    assert_eq!(ssh.help_text.as_deref(), Some("ssh host\n"));
    for quiet in [
        Builtin::Cmd,
        Builtin::Logout,
        Builtin::Which,
        Builtin::Clear,
        Builtin::Ls,
        Builtin::Cd,
        Builtin::Cat,
    ] {
        assert_eq!(quiet.info(), SubprocessInfo::default());
    }
    assert_eq!(help.clone(), help);
}

#[test]
fn programs_are_registered_under_their_names() {
    let table = [
        ("cmd", Builtin::Cmd),
        ("logout", Builtin::Logout),
        ("ssh", Builtin::Ssh),
        ("help", Builtin::Help),
        ("which", Builtin::Which),
        ("clear", Builtin::Clear),
        ("ls", Builtin::Ls),
        ("cd", Builtin::Cd),
        ("cat", Builtin::Cat),
    ];
    for (name, exe) in table {
        assert_eq!(Builtin::from_name(name), Some(exe));
    }
    assert_eq!(Builtin::from_name("LS"), None);
    assert_eq!(Builtin::from_name(""), None);
    let sys: Vec<(String, Builtin)> = terminal_client::subprocess::sys::defaults();
    assert_eq!(
        sys.iter().map(|p| p.0.as_str()).collect::<Vec<_>>(),
        vec!["cmd", "logout", "ssh", "help", "which", "clear"]
    );
    let fs: Vec<(String, Builtin)> = terminal_client::subprocess::fs::defaults();
    assert_eq!(fs.iter().map(|p| p.0.as_str()).collect::<Vec<_>>(), vec!["ls", "cd", "cat"]);
    for (name, exe) in sys.iter().chain(fs.iter()) {
        assert_eq!(Builtin::from_name(name), Some(*exe));
    }
}

#[test]
fn builder_with_optional_root_date_wants_a_date() {
    let b = ComputerBuilder::with_optional_root_date(Some(date())).expect("a date");
    let c = b.build();
    assert_eq!(c.root.node.date, date());
    assert_eq!(c.root.node.as_dir().unwrap().len(), 0);
    assert_eq!(c.env.len(), 1);
    assert!(ComputerBuilder::with_optional_root_date(None).is_none());
}

#[test]
fn parsed_path_reads_the_entry_named_path_in_capitals() {
    let mut c = ComputerBuilder::with_root_date(date()).build();
    c.env.insert("PATH".to_string(), "a;b;a".to_string());
    c.env.insert("path".to_string(), "ignored".to_string());
    assert_eq!(c.path(), "a;b;a");
    assert_eq!(c.parsed_path(), vec!["a", "b", "a"]);
    assert_eq!(c.parsed_path().join(";"), c.path());
    assert_eq!(c.env.len(), 3);
    let built = ComputerBuilder::with_root_date(date()).with_path("bin".to_string()).build();
    assert_eq!(built.env.get("PATH"), Some(&"bin".to_string()));
    assert_eq!(built.env.get("path"), None);
    for text in ["", ";", "a;;b;", ";;;", "usr/bin;bin"] {
        let mut d = ComputerBuilder::with_root_date(date()).build();
        d.env.insert("PATH".to_string(), text.to_string());
        let pieces = d.parsed_path();
        assert_eq!(pieces.len(), 1 + text.matches(';').count());
        assert_eq!(pieces.join(";"), text);
    }
}
