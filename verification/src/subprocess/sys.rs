//! The programs of the system itself, as far as they work on one computer:
//! `which`, `help` and `logout`, the prompt of the shell, and the check of a
//! login.

use crate::computer::{
    find_user_from, Computer, ComputerModel, DEFAULT_PS1, PS1_KEY,
};
use crate::fs::{node_models, ContentModel, Node, NodeModel};
use crate::path::render;
use crate::subprocess::{info_of, Builtin};
use crate::text::{lex_lt, replace_all, replaced, str_lt, views};
use vstd::prelude::*;
use vstd::string::*;

verus! {

/// The programs of the system with the names under which a computer has
/// them.
pub open spec fn default_list() -> Seq<(Seq<char>, Builtin)> {
    seq![
        ("cmd"@, Builtin::Cmd),
        ("logout"@, Builtin::Logout),
        ("ssh"@, Builtin::Ssh),
        ("help"@, Builtin::Help),
        ("which"@, Builtin::Which),
        ("clear"@, Builtin::Clear),
    ]
}

/// The programs of the system with the names under which a computer has
/// them.
pub fn defaults() -> (r: Vec<(String, Builtin)>)
    ensures
        crate::subprocess::exe_list(r@) == default_list(),
{
    let mut out: Vec<(String, Builtin)> = Vec::new();
    out.push((String::from_str("cmd"), Builtin::Cmd));
    out.push((String::from_str("logout"), Builtin::Logout));
    out.push((String::from_str("ssh"), Builtin::Ssh));
    out.push((String::from_str("help"), Builtin::Help));
    out.push((String::from_str("which"), Builtin::Which));
    out.push((String::from_str("clear"), Builtin::Clear));
    assert(crate::subprocess::exe_list(out@) =~= default_list());
    out
}

/// What `which` prints: for one argument the path at which the program is
/// found, or a message that it is not found; for any other number of
/// arguments nothing.
pub open spec fn which_text(c: ComputerModel, args: Seq<Seq<char>>) -> Seq<char> {
    if args.len() != 1 {
        Seq::empty()
    } else {
        match c.which_path(args[0]) {
            Some(p) => render(p) + seq!['\n'],
            None => "Could not find executable: \""@ + args[0] + "\"\n"@,
        }
    }
}

/// The text that `which` prints for these arguments.
pub fn which(c: &Computer, args: &Vec<String>) -> (r: String)
    ensures
        r@ == which_text(c@, views(args@)),
{
    if args.len() != 1 {
        return String::new();
    }
    let mut out = String::new();
    match c.which_path(args[0].as_str()) {
        Some(p) => {
            out.append(p.to_string().as_str());
            out.push('\n');
        },
        None => {
            out.append("Could not find executable: \"");
            out.append(args[0].as_str());
            out.append("\"\n");
        },
    }
    out
}

/// The line that names a program: its name, and its description behind two
/// dashes where it has one.
pub open spec fn title_line(name: Seq<char>, description: Option<Seq<char>>) -> Seq<char> {
    match description {
        Some(d) => name + " -- "@ + d + seq!['\n'],
        None => name + seq!['\n'],
    }
}

/// What `help` prints about one executable: the name that the program
/// gives itself, or else the name of the entry, with the description; then
/// the help text, or a line that says that there is none.
pub open spec fn describe(n: NodeModel) -> Seq<char> {
    match n.content {
        ContentModel::Executable(exe) => {
            let info = info_of(exe);
            let name = match info.0 {
                Some(given) => given,
                None => n.name,
            };
            title_line(name, info.2) + match info.1 {
                Some(h) => h + seq!['\n'],
                None => "This executable has no help documentation.\n"@,
            }
        },
        _ => Seq::empty(),
    }
}

/// The entries with `x` put behind the last entry whose name is not greater
/// than its own.
pub open spec fn insert_by_name(s: Seq<NodeModel>, x: NodeModel) -> Seq<NodeModel>
    decreases s.len(),
{
    if s.len() == 0 {
        seq![x]
    } else if lex_lt(x.name, s.last().name) {
        insert_by_name(s.drop_last(), x).push(s.last())
    } else {
        s.push(x)
    }
}

/// The entries in ascending order of name; entries of one name keep their
/// order.
pub open spec fn sorted_by_name(s: Seq<NodeModel>) -> Seq<NodeModel>
    decreases s.len(),
{
    if s.len() == 0 {
        Seq::empty()
    } else {
        insert_by_name(sorted_by_name(s.drop_last()), s.last())
    }
}

/// No entry is followed by one of a smaller name.
pub open spec fn ascending(s: Seq<NodeModel>) -> bool {
    forall|i: int, j: int| #![trigger s[i], s[j]] 0 <= i < j < s.len() ==> !lex_lt(s[j].name, s[i].name)
}

/// Where an entry goes: behind `pos` entries, the entries from `pos` on
/// having greater names and the one before not.
pub proof fn lemma_insert_by_name_at(s: Seq<NodeModel>, x: NodeModel, pos: int)
    requires
        0 <= pos <= s.len(),
        forall|k: int| pos <= k < s.len() ==> lex_lt(x.name, (#[trigger] s[k]).name),
        pos == 0 || !lex_lt(x.name, s[pos - 1].name),
    ensures
        insert_by_name(s, x) == s.insert(pos, x),
    decreases s.len(),
{
    if s.len() == 0 {
        assert(s.insert(pos, x) =~= seq![x]);
    } else if pos == s.len() {
        assert(s.insert(pos, x) =~= s.push(x));
    } else {
        assert(lex_lt(x.name, s[s.len() - 1].name));
        let front = s.drop_last();
        assert forall|k: int| pos <= k < front.len() implies lex_lt(
            x.name,
            (#[trigger] front[k]).name,
        ) by {
            assert(front[k] == s[k]);
        }
        if pos > 0 {
            assert(front[pos - 1] == s[pos - 1]);
        }
        lemma_insert_by_name_at(front, x, pos);
        assert(front.insert(pos, x).push(s.last()) =~= s.insert(pos, x));
    }
}

/// Putting an entry in by name keeps ascending entries ascending.
pub proof fn lemma_insert_by_name_ascending(s: Seq<NodeModel>, x: NodeModel)
    requires
        ascending(s),
    ensures
        ascending(insert_by_name(s, x)),
        insert_by_name(s, x).len() == s.len() + 1,
    decreases s.len(),
{
    if s.len() > 0 && lex_lt(x.name, s.last().name) {
        let front = s.drop_last();
        assert forall|i: int, j: int| #![trigger front[i], front[j]] 0 <= i < j
            < front.len() implies !lex_lt(front[j].name, front[i].name) by {
            assert(front[i] == s[i] && front[j] == s[j]);
        }
        lemma_insert_by_name_ascending(front, x);
        lemma_insert_by_name_members(front, x);
        let t = insert_by_name(front, x);
        let r = t.push(s.last());
        assert forall|i: int, j: int| #![trigger r[i], r[j]] 0 <= i < j < r.len() implies !lex_lt(
            r[j].name,
            r[i].name,
        ) by {
            if j == r.len() - 1 {
                assert(r[i] == t[i]);
                if t[i] == x {
                    crate::text::lemma_lex_lt_irreflexive(s.last().name);
                    if lex_lt(s.last().name, x.name) {
                        crate::text::lemma_lex_lt_transitive(s.last().name, x.name, s.last().name);
                    }
                } else {
                    let k = choose|k: int| 0 <= k < front.len() && front[k] == t[i];
                    assert(s[k] == front[k]);
                    assert(!lex_lt(s[s.len() - 1].name, s[k].name));
                }
            } else {
                assert(r[i] == t[i] && r[j] == t[j]);
            }
        }
    } else if s.len() > 0 {
        let r = s.push(x);
        let last = s.len() - 1;
        assert forall|i: int, j: int| #![trigger r[i], r[j]] 0 <= i < j < r.len() implies !lex_lt(
            r[j].name,
            r[i].name,
        ) by {
            if j == r.len() - 1 {
                assert(r[j] == x);
                assert(r[i] == s[i]);
                assert(!lex_lt(x.name, s[last].name));
                if i < last {
                    assert(!lex_lt(s[last].name, s[i].name));
                    crate::text::lemma_lex_lt_total(s[i].name, s[last].name);
                    if lex_lt(x.name, s[i].name) && lex_lt(s[i].name, s[last].name) {
                        crate::text::lemma_lex_lt_transitive(x.name, s[i].name, s[last].name);
                    }
                }
            } else {
                assert(r[i] == s[i] && r[j] == s[j]);
            }
        }
    } else {
        assert(insert_by_name(s, x) =~= seq![x]);
    }
}

/// Putting an entry in by name adds that entry and keeps the others.
pub proof fn lemma_insert_by_name_members(s: Seq<NodeModel>, x: NodeModel)
    ensures
        insert_by_name(s, x).len() == s.len() + 1,
        forall|i: int|
            0 <= i < insert_by_name(s, x).len() ==> (#[trigger] insert_by_name(s, x)[i]) == x || (
            exists|k: int| 0 <= k < s.len() && s[k] == insert_by_name(s, x)[i]),
    decreases s.len(),
{
    if s.len() > 0 && lex_lt(x.name, s.last().name) {
        let front = s.drop_last();
        lemma_insert_by_name_members(front, x);
        let t = insert_by_name(front, x);
        let r = t.push(s.last());
        assert forall|i: int| 0 <= i < r.len() implies (#[trigger] r[i]) == x || (exists|k: int|
            0 <= k < s.len() && s[k] == r[i]) by {
            if i == r.len() - 1 {
                assert(s[s.len() - 1] == r[i]);
            } else {
                assert(r[i] == t[i]);
                if t[i] != x {
                    let k = choose|k: int| 0 <= k < front.len() && front[k] == t[i];
                    assert(s[k] == r[i]);
                }
            }
        }
    } else {
        let r = insert_by_name(s, x);
        assert forall|i: int| 0 <= i < r.len() implies (#[trigger] r[i]) == x || (exists|k: int|
            0 <= k < s.len() && s[k] == r[i]) by {
            if i < s.len() {
                assert(s[i] == r[i]);
            }
        }
    }
}

/// Sorting by name gives entries in ascending order of name, as many as
/// there were.
pub proof fn lemma_sorted_by_name_ascending(s: Seq<NodeModel>)
    ensures
        ascending(sorted_by_name(s)),
        sorted_by_name(s).len() == s.len(),
    decreases s.len(),
{
    if s.len() > 0 {
        lemma_sorted_by_name_ascending(s.drop_last());
        lemma_insert_by_name_ascending(sorted_by_name(s.drop_last()), s.last());
    }
}

/// The lines that `help` prints for a list of executables: for each the
/// name of the entry and the description of the program.
pub open spec fn title_lines(s: Seq<NodeModel>) -> Seq<char>
    decreases s.len(),
{
    if s.len() == 0 {
        Seq::empty()
    } else {
        title_lines(s.drop_last()) + title_line(
            s.last().name,
            match s.last().content {
                ContentModel::Executable(exe) => info_of(exe).2,
                _ => None,
            },
        )
    }
}

/// What `help` prints. With one argument: what is known about the program
/// of that name, or that it is not found. With any other number: the help
/// text of `help` itself, and then a line for every executable in the
/// directories of the search path, in ascending order of name.
pub open spec fn help_text(c: ComputerModel, args: Seq<Seq<char>>) -> Seq<char> {
    if args.len() == 1 {
        match c.which_node(args[0]) {
            Some(n) => if n.content is Executable {
                describe(n)
            } else {
                "Could not find executable \""@ + args[0] + "\"\n"@
            },
            None => "Could not find executable \""@ + args[0] + "\"\n"@,
        }
    } else {
        info_of(Builtin::Help).1->0 + seq!['\n'] + title_lines(sorted_by_name(c.exes()))
    }
}

/// The line that names a program.
fn push_title_line(out: &mut String, name: &str, description: &Option<String>)
    ensures
        final(out)@ == old(out)@ + title_line(name@, crate::text::opt_view(*description)),
{
    out.append(name);
    match description {
        Some(d) => {
            out.append(" -- ");
            out.append(d.as_str());
        },
        None => {},
    }
    out.push('\n');
    assert(out@ =~= old(out)@ + title_line(name@, crate::text::opt_view(*description)));
}

/// What `help` prints about one executable.
pub fn describe_node(node: &Node) -> (r: String)
    ensures
        r@ == describe(node@),
{
    let mut out = String::new();
    match node.as_exe() {
        Some(exe) => {
            let info = exe.info();
            match &info.name {
                Some(given) => push_title_line(&mut out, given.as_str(), &info.description),
                None => push_title_line(&mut out, node.name.as_str(), &info.description),
            }
            match &info.help_text {
                Some(h) => {
                    out.append(h.as_str());
                    out.push('\n');
                },
                None => {
                    out.append("This executable has no help documentation.\n");
                },
            }
            assert(out@ =~= describe(node@));
        },
        None => {},
    }
    out
}

/// The entries in ascending order of name.
pub fn sort_by_name<'a>(nodes: &Vec<&'a Node>) -> (r: Vec<&'a Node>)
    ensures
        node_models(r@) == sorted_by_name(node_models(nodes@)),
{
    let ghost ms = node_models(nodes@);
    let mut out: Vec<&'a Node> = Vec::new();
    let mut i: usize = 0;
    proof {
        assert(ms.take(0) =~= Seq::<NodeModel>::empty());
    }
    while i < nodes.len()
        invariant
            i <= nodes.len(),
            ms == node_models(nodes@),
            out@.len() == i,
            sorted_by_name(ms.take(i as int)).len() == i,
            forall|k: int| 0 <= k < i ==> (#[trigger] out@[k])@ == sorted_by_name(ms.take(i as int))[k],
        decreases nodes.len() - i,
    {
        proof {
            assert(ms.take(i + 1).drop_last() =~= ms.take(i as int));
            assert(ms.take(i + 1).last() == nodes@[i as int]@);
            lemma_sorted_by_name_ascending(ms.take(i + 1));
        }
        let x = nodes[i];
        let ghost sorted = sorted_by_name(ms.take(i as int));
        let mut pos: usize = out.len();
        while pos > 0 && str_lt(x.name.as_str(), out[pos - 1].name.as_str())
            invariant
                pos <= out@.len(),
                out@.len() == sorted.len(),
                forall|k: int| 0 <= k < out@.len() ==> (#[trigger] out@[k])@ == sorted[k],
                forall|k: int| pos <= k < sorted.len() ==> lex_lt(x@.name, (#[trigger] sorted[k]).name),
            decreases pos,
        {
            pos = pos - 1;
        }
        proof {
            lemma_insert_by_name_at(sorted, x@, pos as int);
        }
        out.insert(pos, x);
        i = i + 1;
    }
    proof {
        assert(ms.take(nodes@.len() as int) =~= ms);
        assert(node_models(out@) =~= sorted_by_name(ms));
    }
    out
}

/// The text that `help` prints for these arguments.
pub fn help(c: &Computer, args: &Vec<String>) -> (r: String)
    ensures
        r@ == help_text(c@, views(args@)),
{
    let mut out = String::new();
    if args.len() == 1 {
        let name = args[0].as_str();
        match c.which_node(name) {
            Some(node) => {
                return describe_node(node);
            },
            None => {
                out.append("Could not find executable \"");
                out.append(name);
                out.append("\"\n");
            },
        }
    } else {
        match Builtin::Help.info().help_text {
            Some(h) => {
                out.append(h.as_str());
            },
            None => {},
        }
        out.push('\n');
        let found = c.exes();
        let sorted = sort_by_name(&found);
        let ghost ms = sorted_by_name(c@.exes());
        let ghost head = out@;
        let mut i: usize = 0;
        proof {
            assert(node_models(found@) =~= c@.exes());
            lemma_sorted_by_name_ascending(c@.exes());
            assert(ms.take(0) =~= Seq::<NodeModel>::empty());
            assert forall|k: int| 0 <= k < sorted@.len() implies (#[trigger] sorted@[k])@
                == ms[k] by {
                assert(node_models(sorted@)[k] == sorted@[k]@);
            }
        }
        while i < sorted.len()
            invariant
                i <= sorted.len(),
                sorted@.len() == ms.len(),
                forall|k: int| 0 <= k < sorted@.len() ==> (#[trigger] sorted@[k])@ == ms[k],
                out@ == head + title_lines(ms.take(i as int)),
            decreases sorted.len() - i,
        {
            proof {
                assert(ms.take(i + 1).drop_last() =~= ms.take(i as int));
                assert(ms.take(i + 1).last() == sorted@[i as int]@);
            }
            let node = sorted[i];
            let ghost before = out@;
            match node.as_exe() {
                Some(exe) => {
                    let info = exe.info();
                    push_title_line(&mut out, node.name.as_str(), &info.description);
                },
                None => {
                    push_title_line(&mut out, node.name.as_str(), &None);
                },
            }
            assert(out@ =~= head + title_lines(ms.take(i + 1)));
            i = i + 1;
        }
        proof {
            assert(ms.take(sorted@.len() as int) =~= ms);
        }
    }
    out
}

/// The computer with its session marked to end.
pub open spec fn logout_spec(c: ComputerModel) -> ComputerModel {
    ComputerModel { should_quit: true, ..c }
}

/// Marks the session of the computer to end.
pub fn end_session(c: &mut Computer)
    ensures
        final(c)@ == logout_spec(old(c)@),
{
    c.should_quit = true;
}

/// What stands for the name of the user in a prompt.
pub const USER_MARK: &'static str = "\\u";

/// What stands for the name of the computer in a prompt.
pub const HOST_MARK: &'static str = "\\H";

/// What stands for the working directory in a prompt.
pub const CWD_MARK: &'static str = "\\w";

/// The prompt of the shell: the prompt of the environment, or the default
/// where there is none, with the name of the user, then the name of the
/// computer, then the working directory put in for their marks.
pub open spec fn prompt_text(c: ComputerModel) -> Seq<char> {
    let ps1 = if c.env.contains_key(PS1_KEY@) {
        c.env[PS1_KEY@]
    } else {
        DEFAULT_PS1@
    };
    let user = c.users[c.current_user_index as int].0;
    replaced(replaced(replaced(ps1, USER_MARK@, user), HOST_MARK@, c.name), CWD_MARK@, render(c.cwd))
}

/// The prompt of the shell of this computer.
pub fn prompt(c: &Computer) -> (r: String)
    requires
        c.has_current_user(),
    ensures
        r@ == prompt_text(c@),
{
    let ps1 = match c.env.get(PS1_KEY) {
        Some(p) => p.clone(),
        None => String::from_str(DEFAULT_PS1),
    };
    let user = c.current_user();
    let a = replace_all(ps1.as_str(), USER_MARK, user.name.as_str());
    let b = replace_all(a.as_str(), HOST_MARK, c.name.as_str());
    replace_all(b.as_str(), CWD_MARK, c.cwd.to_string().as_str())
}

/// How an attempt to log in ends.
#[derive(Debug, Clone, Copy, PartialEq, Eq, Structural)]
pub enum Login {
    /// Nobody of that name is known.
    UnknownUser,
    /// The password is not the user's.
    WrongPassword,
    /// Name and password are right.
    Granted,
}

/// How an attempt to log in ends: the first user of that name decides.
pub open spec fn login_spec(c: ComputerModel, username: Seq<char>, password: Seq<char>) -> Login {
    match find_user_from(c.users, username, 0) {
        None => Login::UnknownUser,
        Some(k) => if c.users[k as int].1 == password {
            Login::Granted
        } else {
            Login::WrongPassword
        },
    }
}

/// Checks a name and a password against the users of the computer.
pub fn check_login(c: &Computer, username: &str, password: &str) -> (r: Login)
    ensures
        r == login_spec(c@, username@, password@),
{
    proof {
        let k = find_user_from(c@.users, username@, 0);
        if k is Some {
            crate::computer::lemma_find_user_in_range(c@.users, username@, 0);
            let i = k->0 as int;
            assert(c@.users[i] == (c.users@[i].name@, c.users@[i].password@));
        }
    }
    match c.find_user(username) {
        None => Login::UnknownUser,
        Some(user) => if user.password.as_str().eq(password) {
            Login::Granted
        } else {
            Login::WrongPassword
        },
    }
}

} // verus!
