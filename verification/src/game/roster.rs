//! The computers with which the game starts.

use crate::computer::{
    add_all_result, exe_models, lemma_add_all_into_child, user_models, Computer, ComputerBuilder,
    ComputerModel, User, PATH_KEY,
};
use crate::date::NodeDateTime;
use crate::fs::{
    child, has_child, inserted, lemma_inserted_children, lemma_inserted_sorted, File, NodeModel,
    ROOT_DATE,
};
use crate::game::{computer_models, Game, GameModel};
use crate::path::Path;
use crate::subprocess::{exe_list, Builtin};
use vstd::prelude::*;
use vstd::string::*;

verus! {

/// The date of every entry of the computers of the game.
pub const ROSTER_DATE: &'static str = "12 Jan 2024 12:30";

/// The programs that every computer of the game has: those of the system,
/// then those for the filesystem.
pub open spec fn all_defaults() -> Seq<(Seq<char>, Builtin)> {
    crate::subprocess::sys::default_list() + crate::subprocess::fs::default_list()
}

/// The executable entries of a computer of the game.
pub open spec fn roster_exes(date: NodeDateTime) -> Seq<NodeModel> {
    Seq::new(
        all_defaults().len(),
        |i: int| NodeModel::new_exe(all_defaults()[i].0, date, all_defaults()[i].1),
    )
}

/// The filesystem of a computer of the game: a directory `bin` with the
/// programs, and beside it one file that holds the word "there".
pub open spec fn roster_root(
    file_name: Seq<char>,
    date: NodeDateTime,
    root_date: NodeDateTime,
) -> NodeModel {
    let top = Seq::<Seq<char>>::empty();
    let r0 = NodeModel::new_dir(Seq::empty(), root_date, Seq::empty());
    let r1 = r0.add_node_result(top, NodeModel::new_dir("bin"@, date, Seq::empty()))->Ok_0;
    let r2 = r1.add_node_result(top, NodeModel::new_file(file_name, date, "there"@))->Ok_0;
    add_all_result(r2, seq!["bin"@], roster_exes(date))->Ok_0
}

/// A computer of the game: one user `root`, who is logged in, the search
/// path `bin`, and the filesystem of the roster.
pub open spec fn roster_computer(
    name: Seq<char>,
    address: Seq<char>,
    file_name: Seq<char>,
    date: NodeDateTime,
    root_date: NodeDateTime,
) -> ComputerModel {
    let c = ComputerModel::fresh(root_date);
    ComputerModel {
        name,
        address,
        users: seq![("root"@, "123456"@)],
        env: c.env.insert(PATH_KEY@, "bin"@),
        root: roster_root(file_name, date, root_date),
        ..c
    }
}

/// The session at the start of the game: two computers, the first of them
/// active, nothing running and nothing waiting.
pub open spec fn roster(date: NodeDateTime, root_date: NodeDateTime) -> GameModel {
    GameModel {
        computers: seq![
            roster_computer("Plasma_XQ9"@, "64.26.62.54"@, "hello1"@, date, root_date),
            roster_computer("Computer1"@, "214.7.222.240"@, "hello2"@, date, root_date),
        ],
        current: 0,
        queue: Seq::empty(),
        frames: Seq::empty(),
    }
}

/// No two programs of a computer of the game have the same name.
pub proof fn lemma_default_names_distinct()
    ensures
        all_defaults().len() == 9,
        forall|i: int, j: int|
            0 <= i < j < 9 ==> (#[trigger] all_defaults()[i]).0 != (#[trigger] all_defaults()[j]).0,
{
    reveal_strlit("cmd");
    reveal_strlit("logout");
    reveal_strlit("ssh");
    reveal_strlit("help");
    reveal_strlit("which");
    reveal_strlit("clear");
    reveal_strlit("ls");
    reveal_strlit("cd");
    reveal_strlit("cat");
    let d = all_defaults();
    assert(d.len() == 9);
    assert(d[0].0 == "cmd"@ && d[1].0 == "logout"@ && d[2].0 == "ssh"@ && d[3].0 == "help"@
        && d[4].0 == "which"@ && d[5].0 == "clear"@ && d[6].0 == "ls"@ && d[7].0 == "cd"@ && d[8].0
        == "cat"@);
    assert("cmd"@[0] == 'c' && "cmd"@[1] == 'm');
    assert("ssh"@[0] == 's');
    assert("cat"@[0] == 'c' && "cat"@[1] == 'a');
    assert("which"@[0] == 'w');
    assert("clear"@[0] == 'c');
    assert("ls"@[0] == 'l');
    assert("cd"@[0] == 'c');
}

/// One computer of the game.
fn roster_machine(
    name: &str,
    address: &str,
    file_name: &str,
    date: NodeDateTime,
    root_date: NodeDateTime,
) -> (r: Computer)
    requires
        file_name@ != "bin"@,
    ensures
        r@ == roster_computer(name@, address@, file_name@, date, root_date),
        r@.has_current_user(),
{
    let mut users: Vec<User> = Vec::new();
    users.push(User::new("root", "123456"));
    let ghost um = user_models(users@);
    proof {
        assert(um =~= seq![("root"@, "123456"@)]);
        reveal_strlit("PATH");
        reveal_strlit("PS1");
    }
    let top = Path::default();
    let b0 = ComputerBuilder::with_root_date(root_date).name(name).users(users).address(
        address,
    ).with_path(String::from_str("bin"));
    let ghost r0 = b0.0@.root;
    let ghost bin = NodeModel::new_dir("bin"@, date, Seq::empty());
    let ghost file = NodeModel::new_file(file_name@, date, "there"@);
    proof {
        assert(r0 == NodeModel::new_dir(Seq::empty(), root_date, Seq::empty()));
        assert(!has_child(r0.children(), bin.name));
        lemma_inserted_sorted(r0.children(), bin);
        lemma_inserted_children(r0.children(), bin);
    }
    let b1 = b0.add_dir(&top, "bin", date);
    let ghost r1 = b1.0@.root;
    proof {
        assert(r1.children() == inserted(r0.children(), bin));
        assert(!has_child(r1.children(), file.name));
        lemma_inserted_sorted(r1.children(), file);
        lemma_inserted_children(r1.children(), file);
    }
    let b2 = b1.add_file(&top, file_name, date, File::new("there"));
    let ghost r2 = b2.0@.root;
    let mut exes = crate::subprocess::sys::defaults();
    let mut more = crate::subprocess::fs::defaults();
    exes.append(&mut more);
    let mut segs: Vec<String> = Vec::new();
    segs.push(String::from_str("bin"));
    let bin_path = Path::new(segs);
    proof {
        assert(bin_path@ =~= seq!["bin"@]);
        assert(exe_list(exes@) =~= all_defaults());
        let nodes = exe_models(exes@, date);
        assert forall|i: int| 0 <= i < nodes.len() implies (#[trigger] nodes[i])
            == roster_exes(date)[i] by {
            assert(exe_list(exes@)[i] == all_defaults()[i]);
        }
        assert(nodes =~= roster_exes(date));
        lemma_default_names_distinct();
        assert(r2.children() == inserted(r1.children(), file));
        assert(child(r2.children(), "bin"@) == Some(bin));
        assert(bin.children() =~= Seq::<NodeModel>::empty());
        assert forall|i: int, j: int| #![trigger nodes[i], nodes[j]] 0 <= i < j
            < nodes.len() implies nodes[i].name != nodes[j].name by {
            assert(nodes[i].name == all_defaults()[i].0);
            assert(nodes[j].name == all_defaults()[j].0);
        }
        lemma_add_all_into_child(r2, "bin"@, nodes);
    }
    let b3 = b2.add_exes_same_date(&bin_path, date, &exes);
    let r = b3.build();
    proof {
        let want = roster_computer(name@, address@, file_name@, date, root_date);
        let fresh = ComputerModel::fresh(root_date);
        assert(!fresh.env.contains_key(PATH_KEY@)) by {
            assert("PATH"@.len() == 4 && "PS1"@.len() == 3);
        }
        assert(r@.env =~= want.env);
        assert(r@.users == want.users);
        assert(r@.root == want.root);
        assert(r@.name == want.name);
        assert(r@.address == want.address);
        assert(r@.cwd == want.cwd);
    }
    r
}

impl Game {
    /// The session at the start of the game, with entries of the given
    /// date below roots of the given date.
    pub fn with_dates(date: NodeDateTime, root_date: NodeDateTime) -> (r: Game)
        ensures
            r.wf(),
            r@ == roster(date, root_date),
    {
        proof {
            reveal_strlit("bin");
            reveal_strlit("hello1");
            reveal_strlit("hello2");
            assert("bin"@.len() == 3 && "hello1"@.len() == 6 && "hello2"@.len() == 6);
        }
        let first = roster_machine("Plasma_XQ9", "64.26.62.54", "hello1", date, root_date);
        let second = roster_machine("Computer1", "214.7.222.240", "hello2", date, root_date);
        let mut computers: Vec<Computer> = Vec::new();
        computers.push(first);
        computers.push(second);
        proof {
            assert(computer_models(computers@) =~= roster(date, root_date).computers);
            assert forall|i: int| 0 <= i < computers@.len() implies (#[trigger] computers@[
                i
            ]).has_current_user() by {}
        }
        Game::assemble(computers)
    }

    /// The session at the start of the game. There is none where the dates
    /// of the roster are not understood.
    pub fn new() -> (r: Option<Game>)
        ensures
            match r {
                Some(g) => g.wf() && exists|date: NodeDateTime, root_date: NodeDateTime|
                    g@ == roster(date, root_date),
                None => true,
            },
    {
        let date = NodeDateTime::parse(ROSTER_DATE);
        let root_date = NodeDateTime::parse(ROOT_DATE);
        let r = Game::with_optional_dates(date, root_date);
        proof {
            if r is Some {
                assert(r->0@ == roster(date->0, root_date->0));
            }
        }
        r
    }

    /// The session at the start of the game, with the dates that were
    /// read, if both were read; there is none where one of them was not.
    pub fn with_optional_dates(date: Option<NodeDateTime>, root_date: Option<NodeDateTime>) -> (r:
        Option<Game>)
        ensures
            match r {
                Some(g) => date is Some && root_date is Some && g.wf() && g@ == roster(
                    date->0,
                    root_date->0,
                ),
                None => date is None || root_date is None,
            },
    {
        match date {
            Some(d) => match root_date {
                Some(rd) => Some(Game::with_dates(d, rd)),
                None => None,
            },
            None => None,
        }
    }
}

} // verus!
