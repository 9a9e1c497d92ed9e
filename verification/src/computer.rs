//! One simulated machine: its identity, its users, its environment, its
//! filesystem and the state of its shell session.

use crate::date::NodeDateTime;
use crate::fs::{
    child, has_child, lemma_add_into_child, lemma_inserted_sorted, names_sorted, Dir, File,
    FsError, Node, NodeModel, Root,
};
use crate::path::{parse_spec, Path};
use crate::subprocess::Executable;
use crate::text::{split, split_on, views};
use vstd::hash_map::StringHashMap;
use vstd::prelude::*;
use vstd::string::*;

verus! {

/// Which of the machines of the game a computer is.
#[derive(Debug, Clone, Copy, PartialEq, Eq, PartialOrd, Structural)]
pub enum ComputerId {
    First,
    Second,
}

impl ComputerId {
    /// The number that stands for the computer on the wire.
    pub open spec fn ordinal(self) -> u32 {
        match self {
            ComputerId::First => 0,
            ComputerId::Second => 1,
        }
    }

    /// The number that stands for the computer on the wire.
    pub fn to_u32(self) -> (r: u32)
        ensures
            r == self.ordinal(),
    {
        match self {
            ComputerId::First => 0,
            ComputerId::Second => 1,
        }
    }

    /// The computer that a number on the wire stands for.
    pub fn from_u32(value: u32) -> (r: Option<ComputerId>)
        ensures
            match r {
                Some(id) => id.ordinal() == value,
                None => value > 1,
            },
    {
        if value == 0 {
            Some(ComputerId::First)
        } else if value == 1 {
            Some(ComputerId::Second)
        } else {
            None
        }
    }
}

/// Somebody who may log in: a name and the password, kept in clear.
#[derive(Debug, PartialEq, Eq)]
pub struct User {
    pub name: String,
    pub password: String,
}

impl User {
    /// A user with this name and password.
    pub fn new(name: &str, password: &str) -> (r: Self)
        ensures
            r.name@ == name@,
            r.password@ == password@,
    {
        User { name: String::from_str(name), password: String::from_str(password) }
    }
}

impl Clone for User {
    fn clone(&self) -> (r: Self)
        ensures
            r.name@ == self.name@,
            r.password@ == self.password@,
    {
        User { name: self.name.clone(), password: self.password.clone() }
    }
}

/// The name of the environment entry that lists where programs are sought.
pub const PATH_KEY: &'static str = "PATH";

/// The name of the environment entry that holds the prompt.
pub const PS1_KEY: &'static str = "PS1";

/// The prompt of a computer that was given none: user, host and directory.
pub const DEFAULT_PS1: &'static str = "\\u@\\H \\w$ ";

/// The character between the directories of the search path.
pub const PATH_SEPARATOR: char = ';';

/// The path at which a program called `exe` is sought in the directory that
/// the entry `entry` of the search path names: the entry is read from the
/// root, and the name is one more segment, taken as it stands.
pub open spec fn exe_path(entry: Seq<char>, exe: Seq<char>) -> Seq<Seq<char>> {
    parse_spec(Seq::empty(), entry).push(exe)
}

/// Whether the directory of this entry of the search path holds an
/// executable called `exe`.
pub open spec fn finds_exe(root: NodeModel, entry: Seq<char>, exe: Seq<char>) -> bool {
    match root.lookup(exe_path(entry, exe)) {
        Some(n) => n.content is Executable,
        None => false,
    }
}

/// The first entry of the search path, from place `from` on, whose directory
/// holds an executable called `exe`.
pub open spec fn which_from(
    root: NodeModel,
    entries: Seq<Seq<char>>,
    exe: Seq<char>,
    from: nat,
) -> Option<nat>
    decreases entries.len() - from,
{
    if from >= entries.len() {
        None
    } else if finds_exe(root, entries[from as int], exe) {
        Some(from)
    } else {
        which_from(root, entries, exe, from + 1)
    }
}

/// The path at which a program is found, if it is found.
pub open spec fn which_path_spec(root: NodeModel, entries: Seq<Seq<char>>, exe: Seq<char>) -> Option<
    Seq<Seq<char>>,
> {
    match which_from(root, entries, exe, 0) {
        Some(k) => Some(exe_path(entries[k as int], exe)),
        None => None,
    }
}

/// The executable that is found for a program's name, if one is found.
pub open spec fn which_node_spec(root: NodeModel, entries: Seq<Seq<char>>, exe: Seq<char>) -> Option<
    NodeModel,
> {
    match which_path_spec(root, entries, exe) {
        Some(p) => root.lookup(p),
        None => None,
    }
}

/// The search path is scanned in the order in which it is written: the
/// first entry whose directory holds the executable decides, whatever the
/// later entries hold.
pub proof fn lemma_which_picks_first(
    root: NodeModel,
    entries: Seq<Seq<char>>,
    exe: Seq<char>,
    k: nat,
)
    requires
        k < entries.len(),
        finds_exe(root, entries[k as int], exe),
        forall|j: int| 0 <= j < k ==> !finds_exe(root, #[trigger] entries[j], exe),
    ensures
        which_from(root, entries, exe, 0) == Some(k),
        which_path_spec(root, entries, exe) == Some(exe_path(entries[k as int], exe)),
        which_node_spec(root, entries, exe) == root.lookup(exe_path(entries[k as int], exe)),
{
    lemma_which_skips(root, entries, exe, k, 0);
}

/// Entries that do not hold the executable are passed over.
proof fn lemma_which_skips(
    root: NodeModel,
    entries: Seq<Seq<char>>,
    exe: Seq<char>,
    k: nat,
    from: nat,
)
    requires
        from <= k < entries.len(),
        finds_exe(root, entries[k as int], exe),
        forall|j: int| 0 <= j < k ==> !finds_exe(root, #[trigger] entries[j], exe),
    ensures
        which_from(root, entries, exe, from) == Some(k),
    decreases k - from,
{
    if from < k {
        assert(!finds_exe(root, entries[from as int], exe));
        lemma_which_skips(root, entries, exe, k, from + 1);
    }
}

/// Where nothing is found, no entry of the search path holds the executable.
pub proof fn lemma_which_none(root: NodeModel, entries: Seq<Seq<char>>, exe: Seq<char>, from: nat)
    requires
        which_from(root, entries, exe, from) is None,
    ensures
        forall|j: int| from <= j < entries.len() ==> !finds_exe(root, #[trigger] entries[j], exe),
    decreases entries.len() - from,
{
    if from < entries.len() {
        lemma_which_none(root, entries, exe, from + 1);
    }
}

/// The place of the first user called `name`, from place `from` on.
pub open spec fn find_user_from(users: Seq<(Seq<char>, Seq<char>)>, name: Seq<char>, from: nat) -> Option<
    nat,
>
    decreases users.len() - from,
{
    if from >= users.len() {
        None
    } else if users[from as int].0 == name {
        Some(from)
    } else {
        find_user_from(users, name, from + 1)
    }
}

/// A user that is found has the name that was sought.
pub proof fn lemma_find_user_in_range(users: Seq<(Seq<char>, Seq<char>)>, name: Seq<char>, from: nat)
    ensures
        match find_user_from(users, name, from) {
            Some(k) => from <= k < users.len() && users[k as int].0 == name,
            None => forall|j: int| from <= j < users.len() ==> (#[trigger] users[j]).0 != name,
        },
    decreases users.len() - from,
{
    if from < users.len() && users[from as int].0 != name {
        lemma_find_user_in_range(users, name, from + 1);
    }
}

/// The executables among the entries, in the same order.
pub open spec fn executables(s: Seq<NodeModel>) -> Seq<NodeModel>
    decreases s.len(),
{
    if s.len() == 0 {
        Seq::empty()
    } else if s.last().content is Executable {
        executables(s.drop_last()).push(s.last())
    } else {
        executables(s.drop_last())
    }
}

/// The executables in the directory that one entry of the search path
/// names; none where the entry names no directory.
pub open spec fn exes_in(root: NodeModel, entry: Seq<char>) -> Seq<NodeModel> {
    match root.lookup(parse_spec(Seq::empty(), entry)) {
        Some(n) => executables(n.children()),
        None => Seq::empty(),
    }
}

/// The executables in the directories of the search path, directory after
/// directory in the order of the path.
pub open spec fn exes_of(root: NodeModel, entries: Seq<Seq<char>>) -> Seq<NodeModel>
    decreases entries.len(),
{
    if entries.len() == 0 {
        Seq::empty()
    } else {
        exes_of(root, entries.drop_last()) + exes_in(root, entries.last())
    }
}

/// The names and passwords of the users, in the same order.
pub open spec fn user_models(users: Seq<User>) -> Seq<(Seq<char>, Seq<char>)> {
    Seq::new(users.len(), |i: int| (users[i].name@, users[i].password@))
}

/// The environment as texts.
pub open spec fn env_model(env: Map<Seq<char>, String>) -> Map<Seq<char>, Seq<char>> {
    env.map_values(|s: String| s@)
}

/// A computer as a mathematical value.
pub struct ComputerModel {
    pub should_quit: bool,
    pub name: Seq<char>,
    /// Name and password of each user.
    pub users: Seq<(Seq<char>, Seq<char>)>,
    pub current_user_index: nat,
    pub id: ComputerId,
    pub address: Seq<char>,
    pub cwd: Seq<Seq<char>>,
    pub root: NodeModel,
    pub env: Map<Seq<char>, Seq<char>>,
}

impl ComputerModel {
    /// The search path as the environment holds it; empty where it holds
    /// none.
    pub open spec fn path_text(self) -> Seq<char> {
        if self.env.contains_key(PATH_KEY@) {
            self.env[PATH_KEY@]
        } else {
            Seq::empty()
        }
    }

    /// The entries of the search path, in order.
    pub open spec fn path_entries(self) -> Seq<Seq<char>> {
        split(self.path_text(), PATH_SEPARATOR)
    }

    /// Whether a user is logged in: the index of the current user lies
    /// within the list of users.
    pub open spec fn has_current_user(self) -> bool {
        self.current_user_index < self.users.len()
    }

    /// The path at which a program is found.
    pub open spec fn which_path(self, exe: Seq<char>) -> Option<Seq<Seq<char>>> {
        which_path_spec(self.root, self.path_entries(), exe)
    }

    /// The executable that is found for a program's name.
    pub open spec fn which_node(self, exe: Seq<char>) -> Option<NodeModel> {
        which_node_spec(self.root, self.path_entries(), exe)
    }

    /// The executables in the directories of the search path.
    pub open spec fn exes(self) -> Seq<NodeModel> {
        exes_of(self.root, self.path_entries())
    }

    /// A computer as it is before anything is set: no name, no address, no
    /// users, the first identity, an empty root directory of the given date,
    /// the root as working directory, and the default prompt as the only
    /// entry of the environment.
    pub open spec fn fresh(root_date: NodeDateTime) -> ComputerModel {
        ComputerModel {
            should_quit: false,
            name: Seq::empty(),
            users: Seq::empty(),
            current_user_index: 0,
            id: ComputerId::First,
            address: Seq::empty(),
            cwd: Seq::empty(),
            root: NodeModel::new_dir(Seq::empty(), root_date, Seq::empty()),
            env: Map::empty().insert(PS1_KEY@, DEFAULT_PS1@),
        }
    }

    /// The entry that `text` names, read in the working directory.
    pub open spec fn resolve(self, text: Seq<char>) -> Option<NodeModel> {
        self.root.lookup(parse_spec(self.cwd, text))
    }
}

/// One simulated machine.
pub struct Computer {
    /// Set when the shell session of this computer is to end.
    pub should_quit: bool,
    pub name: String,
    pub users: Vec<User>,
    /// The place in `users` of the user who is logged in.
    pub current_user_index: usize,
    pub id: ComputerId,
    pub address: String,
    /// The current working directory.
    pub cwd: Path,
    pub root: Root,
    pub env: StringHashMap<String>,
}

impl View for Computer {
    type V = ComputerModel;

    open spec fn view(&self) -> ComputerModel {
        ComputerModel {
            should_quit: self.should_quit,
            name: self.name@,
            users: user_models(self.users@),
            current_user_index: self.current_user_index as nat,
            id: self.id,
            address: self.address@,
            cwd: self.cwd@,
            root: self.root@,
            env: env_model(self.env@),
        }
    }
}

impl Computer {
    /// The search path as the environment holds it; empty where it holds
    /// none.
    pub open spec fn path_text(self) -> Seq<char> {
        self@.path_text()
    }

    /// The entries of the search path, in order.
    pub open spec fn path_entries(self) -> Seq<Seq<char>> {
        self@.path_entries()
    }

    /// Whether a user is logged in: the index of the current user lies
    /// within the list of users.
    pub open spec fn has_current_user(self) -> bool {
        self@.has_current_user()
    }

    /// A computer as it is before anything is set: no name, no address, no
    /// users, the first identity, an empty root directory of the given date,
    /// the root as working directory, and the default prompt as the only
    /// entry of the environment.
    pub fn new(root_date: NodeDateTime) -> (r: Self)
        ensures
            r@ == ComputerModel::fresh(root_date),
    {
        let mut env: StringHashMap<String> = StringHashMap::new();
        env.insert(String::from_str(PS1_KEY), String::from_str(DEFAULT_PS1));
        let dir = Dir::empty();
        proof {
            reveal_strlit("");
            assert(""@ =~= Seq::<char>::empty());
        }
        proof {
            assert(env_model(env@) =~= Map::<Seq<char>, Seq<char>>::empty().insert(
                PS1_KEY@,
                DEFAULT_PS1@,
            ));
            assert(user_models(Seq::<User>::empty()) =~= Seq::<(Seq<char>, Seq<char>)>::empty());
        }
        Computer {
            should_quit: false,
            name: String::new(),
            users: Vec::new(),
            current_user_index: 0,
            id: ComputerId::First,
            address: String::new(),
            cwd: Path::default(),
            root: Root { node: Node::dir("", root_date, dir) },
            env,
        }
    }

    /// The search path as the environment holds it.
    pub fn path(&self) -> (r: String)
        ensures
            r@ == self.path_text(),
    {
        match self.env.get(PATH_KEY) {
            Some(p) => p.clone(),
            None => String::new(),
        }
    }

    /// The entries of the search path, in the order in which they are
    /// searched.
    pub fn parsed_path(&self) -> (r: Vec<String>)
        ensures
            views(r@) == self.path_entries(),
    {
        let p = self.path();
        split_on(p.as_str(), PATH_SEPARATOR)
    }

    /// Seeks an executable called `exe` in the directories of the search
    /// path, one after the other, and gives the first that is found with
    /// its path.
    pub fn which(&self, exe: &str) -> (r: Option<(Path, &Node)>)
        ensures
            match r {
                Some((p, n)) => which_path_spec(self.root@, self.path_entries(), exe@) == Some(p@)
                    && which_node_spec(self.root@, self.path_entries(), exe@) == Some(n@)
                    && n@.content is Executable,
                None => which_path_spec(self.root@, self.path_entries(), exe@) is None
                    && which_node_spec(self.root@, self.path_entries(), exe@) is None,
            },
    {
        let entries = self.parsed_path();
        let ghost es = self.path_entries();
        let mut i: usize = 0;
        while i < entries.len()
            invariant
                i <= entries.len(),
                views(entries@) == es,
                es == self.path_entries(),
                which_from(self.root@, es, exe@, 0) == which_from(self.root@, es, exe@, i as nat),
            decreases entries.len() - i,
        {
            assert(es[i as int] == entries@[i as int]@);
            let base = Path::parse(&Path::default(), entries[i].as_str());
            let mut name: Vec<String> = Vec::new();
            name.push(String::from_str(exe));
            let exe_at = base.join(&Path::new(name));
            assert(exe_at@ =~= exe_path(es[i as int], exe@));
            match self.root.get_node(&exe_at) {
                Some(node) => {
                    if node.is_exe() {
                        assert(which_from(self.root@, es, exe@, i as nat) == Some(i as nat));
                        assert(which_path_spec(self.root@, es, exe@) == Some(exe_at@));
                        assert(which_node_spec(self.root@, es, exe@) == Some(node@));
                        return Some((exe_at, node));
                    }
                },
                None => {},
            }
            assert(!finds_exe(self.root@, es[i as int], exe@));
            i = i + 1;
        }
        None
    }

    /// The executable that `which` finds.
    pub fn which_node(&self, exe: &str) -> (r: Option<&Node>)
        ensures
            match r {
                Some(n) => which_node_spec(self.root@, self.path_entries(), exe@) == Some(n@)
                    && n@.content is Executable,
                None => which_node_spec(self.root@, self.path_entries(), exe@) is None,
            },
    {
        match self.which(exe) {
            Some((_, n)) => Some(n),
            None => None,
        }
    }

    /// The path at which `which` finds the executable.
    pub fn which_path(&self, exe: &str) -> (r: Option<Path>)
        ensures
            match r {
                Some(p) => which_path_spec(self.root@, self.path_entries(), exe@) == Some(p@),
                None => which_path_spec(self.root@, self.path_entries(), exe@) is None,
            },
    {
        match self.which(exe) {
            Some((p, _)) => Some(p),
            None => None,
        }
    }

    /// The first user whose name is exactly `name`.
    pub fn find_user(&self, name: &str) -> (r: Option<&User>)
        ensures
            match r {
                Some(u) => find_user_from(self@.users, name@, 0) is Some && *u
                    == self.users@[find_user_from(self@.users, name@, 0)->0 as int],
                None => find_user_from(self@.users, name@, 0) is None,
            },
    {
        let mut i: usize = 0;
        while i < self.users.len()
            invariant
                i <= self.users.len(),
                find_user_from(self@.users, name@, 0) == find_user_from(
                    self@.users,
                    name@,
                    i as nat,
                ),
            decreases self.users.len() - i,
        {
            if self.users[i].name.as_str().eq(name) {
                return Some(&self.users[i]);
            }
            i = i + 1;
        }
        None
    }

    /// Whether a user is logged in.
    pub fn has_user(&self) -> (r: bool)
        ensures
            r == self.has_current_user(),
    {
        self.current_user_index < self.users.len()
    }

    /// The user who is logged in.
    pub fn current_user(&self) -> (r: &User)
        requires
            self.has_current_user(),
        ensures
            *r == self.users@[self.current_user_index as int],
    {
        &self.users[self.current_user_index]
    }

    /// The executables in the directories of the search path, directory
    /// after directory in the order of the path. Entries of the path that
    /// name no directory are passed over.
    pub fn exes(&self) -> (r: Vec<&Node>)
        ensures
            r@.len() == exes_of(self.root@, self.path_entries()).len(),
            forall|i: int|
                0 <= i < r@.len() ==> (#[trigger] r@[i])@ == exes_of(
                    self.root@,
                    self.path_entries(),
                )[i],
    {
        let entries = self.parsed_path();
        let ghost es = self.path_entries();
        let mut out: Vec<&Node> = Vec::new();
        let mut i: usize = 0;
        while i < entries.len()
            invariant
                i <= entries.len(),
                views(entries@) == es,
                es == self.path_entries(),
                out@.len() == exes_of(self.root@, es.take(i as int)).len(),
                forall|k: int|
                    0 <= k < out@.len() ==> (#[trigger] out@[k])@ == exes_of(
                        self.root@,
                        es.take(i as int),
                    )[k],
            decreases entries.len() - i,
        {
            let ghost prev = exes_of(self.root@, es.take(i as int));
            let ghost found = exes_in(self.root@, es[i as int]);
            proof {
                assert(es.take(i + 1).drop_last() =~= es.take(i as int));
                assert(es.take(i + 1).last() == entries@[i as int]@);
                assert(exes_of(self.root@, es.take(i + 1)) == prev + found);
            }
            let at = Path::parse(&Path::default(), entries[i].as_str());
            match self.root.get_node(&at) {
                Some(node) => match node.as_dir() {
                    Some(dir) => {
                        let kids = dir.children();
                        let ghost ks = dir@;
                        let ghost before = out@;
                        let mut j: usize = 0;
                        while j < kids.len()
                            invariant
                                j <= kids.len(),
                                kids@.len() == ks.len(),
                                forall|k: int| 0 <= k < kids@.len() ==> (#[trigger] kids@[k])@ == ks[k],
                                before.len() == prev.len(),
                                forall|k: int|
                                    0 <= k < before.len() ==> (#[trigger] before[k])@ == prev[k],
                                out@.len() == before.len() + executables(ks.take(j as int)).len(),
                                forall|k: int| 0 <= k < before.len() ==> out@[k] == before[k],
                                forall|k: int|
                                    before.len() <= k < out@.len() ==> (#[trigger] out@[k])@
                                        == executables(ks.take(j as int))[k - before.len()],
                            decreases kids.len() - j,
                        {
                            proof {
                                assert(ks.take(j + 1).drop_last() =~= ks.take(j as int));
                                assert(ks.take(j + 1).last() == kids@[j as int]@);
                            }
                            if kids[j].is_exe() {
                                out.push(&kids[j]);
                            }
                            j = j + 1;
                        }
                        proof {
                            assert(ks.take(kids@.len() as int) =~= ks);
                            assert(found == executables(ks));
                            assert forall|k: int| 0 <= k < out@.len() implies (#[trigger] out@[k])@
                                == (prev + found)[k] by {
                                if k < before.len() {
                                    assert(out@[k] == before[k]);
                                }
                            }
                        }
                    },
                    None => {
                        proof {
                            let n = self.root@.lookup(at@)->0;
                            assert(n.children() =~= Seq::<NodeModel>::empty());
                            assert(found =~= Seq::<NodeModel>::empty());
                            assert(prev + found =~= prev);
                        }
                    },
                },
                None => {
                    assert(found =~= Seq::<NodeModel>::empty());
                    assert(prev + found =~= prev);
                },
            }
            assert(out@.len() == (prev + found).len());
            assert forall|k: int| 0 <= k < out@.len() implies (#[trigger] out@[k])@ == (prev
                + found)[k] by {}
            i = i + 1;
        }
        proof {
            assert(es.take(entries@.len() as int) =~= es);
        }
        out
    }
}

/// What `which` finds is an executable at the path that it gives.
pub proof fn lemma_which_found_is_exe(
    root: NodeModel,
    entries: Seq<Seq<char>>,
    exe: Seq<char>,
    from: nat,
)
    ensures
        match which_from(root, entries, exe, from) {
            Some(k) => from <= k < entries.len() && finds_exe(root, entries[k as int], exe),
            None => true,
        },
    decreases entries.len() - from,
{
    if from < entries.len() && !finds_exe(root, entries[from as int], exe) {
        lemma_which_found_is_exe(root, entries, exe, from + 1);
    }
}

/// What adding entries one after the other to the directory at `path` gives:
/// the tree with all of them, or the first refusal.
pub open spec fn add_all_result(tree: NodeModel, path: Seq<Seq<char>>, nodes: Seq<NodeModel>) -> Result<
    NodeModel,
    FsError,
>
    decreases nodes.len(),
{
    if nodes.len() == 0 {
        Ok(tree)
    } else {
        match add_all_result(tree, path, nodes.drop_last()) {
            Ok(t) => t.add_node_result(path, nodes.last()),
            Err(e) => Err(e),
        }
    }
}

/// The executable entries that a list of names and programs stands for, all
/// of one date.
pub open spec fn exe_models(exes: Seq<(String, Executable)>, date: NodeDateTime) -> Seq<NodeModel> {
    Seq::new(exes.len(), |i: int| NodeModel::new_exe(exes[i].0@, date, exes[i].1))
}

/// The executable entries that a list of names, dates and programs stands
/// for.
pub open spec fn dated_exe_models(exes: Seq<(String, NodeDateTime, Executable)>) -> Seq<NodeModel> {
    Seq::new(exes.len(), |i: int| NodeModel::new_exe(exes[i].0@, exes[i].1, exes[i].2))
}

/// Where all entries can be added, the first of them can.
pub proof fn lemma_add_all_prefix(
    tree: NodeModel,
    path: Seq<Seq<char>>,
    nodes: Seq<NodeModel>,
    k: int,
)
    requires
        0 <= k <= nodes.len(),
        add_all_result(tree, path, nodes) is Ok,
    ensures
        add_all_result(tree, path, nodes.take(k)) is Ok,
    decreases nodes.len() - k,
{
    if k < nodes.len() {
        lemma_add_all_prefix(tree, path, nodes, k + 1);
        assert(nodes.take(k + 1).drop_last() =~= nodes.take(k));
    } else {
        assert(nodes.take(k) =~= nodes);
    }
}

/// What holds of a tree after entries were added to a directory that is a
/// child of its root: the root keeps its children but for that directory,
/// which is still sorted and has the names that it had and those of the
/// new entries.
pub open spec fn all_added_into_child(
    before: NodeModel,
    after: NodeModel,
    name: Seq<char>,
    nodes: Seq<NodeModel>,
) -> bool {
    let dir = child(before.children(), name)->0;
    let grown = child(after.children(), name)->0;
    &&& after.content is Dir
    &&& after.name == before.name
    &&& after.date == before.date
    &&& after.owner_security == before.owner_security
    &&& after.other_security == before.other_security
    &&& names_sorted(after.children())
    &&& after.children().len() == before.children().len()
    &&& forall|n: Seq<char>| n != name ==> child(after.children(), n) == child(before.children(), n)
    &&& child(after.children(), name) is Some
    &&& grown.content is Dir
    &&& names_sorted(grown.children())
    &&& grown.children().len() == dir.children().len() + nodes.len()
    &&& forall|n: Seq<char>|
        has_child(grown.children(), n) <==> (has_child(dir.children(), n) || exists|i: int|
            0 <= i < nodes.len() && (#[trigger] nodes[i]).name == n)
}

/// Entries of different names can all be added to a directory that is a
/// child of the root and has none of their names.
pub proof fn lemma_add_all_into_child(root: NodeModel, name: Seq<char>, nodes: Seq<NodeModel>)
    requires
        root.content is Dir,
        names_sorted(root.children()),
        child(root.children(), name) is Some,
        child(root.children(), name)->0.content is Dir,
        names_sorted(child(root.children(), name)->0.children()),
        forall|i: int|
            0 <= i < nodes.len() ==> !has_child(
                child(root.children(), name)->0.children(),
                (#[trigger] nodes[i]).name,
            ),
        forall|i: int, j: int|
            #![trigger nodes[i], nodes[j]]
            0 <= i < j < nodes.len() ==> nodes[i].name != nodes[j].name,
    ensures
        add_all_result(root, seq![name], nodes) is Ok,
        all_added_into_child(root, add_all_result(root, seq![name], nodes)->Ok_0, name, nodes),
    decreases nodes.len(),
{
    let dir = child(root.children(), name)->0;
    if nodes.len() > 0 {
        let front = nodes.drop_last();
        let last = nodes.last();
        assert forall|i: int| 0 <= i < front.len() implies !has_child(
            dir.children(),
            (#[trigger] front[i]).name,
        ) by {
            assert(front[i] == nodes[i]);
        }
        assert forall|i: int, j: int| #![trigger front[i], front[j]] 0 <= i < j
            < front.len() implies front[i].name != front[j].name by {
            assert(front[i] == nodes[i] && front[j] == nodes[j]);
        }
        lemma_add_all_into_child(root, name, front);
        let mid = add_all_result(root, seq![name], front)->Ok_0;
        let mid_dir = child(mid.children(), name)->0;
        assert(!has_child(mid_dir.children(), last.name)) by {
            assert(nodes[nodes.len() - 1] == last);
            if has_child(mid_dir.children(), last.name) {
                let i = choose|i: int| 0 <= i < front.len() && (#[trigger] front[i]).name == last.name;
                assert(front[i] == nodes[i]);
            }
        }
        lemma_add_into_child(mid, name, last);
        lemma_inserted_sorted(mid_dir.children(), last);
        let after = add_all_result(root, seq![name], nodes)->Ok_0;
        let grown = child(after.children(), name)->0;
        assert forall|n: Seq<char>|
            has_child(grown.children(), n) <==> (has_child(dir.children(), n) || exists|i: int|
                0 <= i < nodes.len() && (#[trigger] nodes[i]).name == n) by {
            if n == last.name {
                assert(nodes[nodes.len() - 1].name == n);
            }
            if has_child(mid_dir.children(), n) && !has_child(dir.children(), n) {
                let i = choose|i: int| 0 <= i < front.len() && (#[trigger] front[i]).name == n;
                assert(nodes[i] == front[i]);
            }
            if exists|i: int| 0 <= i < nodes.len() && (#[trigger] nodes[i]).name == n {
                let i = choose|i: int| 0 <= i < nodes.len() && (#[trigger] nodes[i]).name == n;
                if i < front.len() {
                    assert(front[i] == nodes[i]);
                }
            }
        }
    }
}

/// Sets up a computer step by step.
pub struct ComputerBuilder(pub Computer);

impl ComputerBuilder {
    /// Starts from a computer with nothing set, whose root directory has
    /// the given date.
    pub fn with_root_date(date: NodeDateTime) -> (r: Self)
        ensures
            r.0@ == ComputerModel::fresh(date),
    {
        ComputerBuilder(Computer::new(date))
    }

    /// Starts from a computer with nothing set, whose root directory is
    /// dated as `ROOT_DATE` says; there is none where that date is not
    /// understood.
    pub fn new() -> (r: Option<Self>)
        ensures
            match r {
                Some(b) => b.0@ == ComputerModel::fresh(b.0@.root.date),
                None => true,
            },
    {
        ComputerBuilder::with_optional_root_date(NodeDateTime::parse(crate::fs::ROOT_DATE))
    }

    /// Sets the display name.
    pub fn name(self, name: &str) -> (r: Self)
        ensures
            r.0@ == (ComputerModel { name: name@, ..self.0@ }),
    {
        let mut c = self.0;
        c.name = String::from_str(name);
        ComputerBuilder(c)
    }

    /// Replaces the list of users.
    pub fn users(self, users: Vec<User>) -> (r: Self)
        ensures
            r.0@ == (ComputerModel { users: user_models(users@), ..self.0@ }),
    {
        let mut c = self.0;
        c.users = users;
        ComputerBuilder(c)
    }

    /// Adds a user at the end of the list. Who is logged in does not change.
    pub fn add_user(self, user: User) -> (r: Self)
        ensures
            r.0@ == (ComputerModel {
                users: self.0@.users.push((user.name@, user.password@)),
                ..self.0@
            }),
    {
        let mut c = self.0;
        c.users.push(user);
        assert(user_models(c.users@) =~= self.0@.users.push((user.name@, user.password@)));
        ComputerBuilder(c)
    }

    /// Sets the place in the list of users of the one who is logged in.
    pub fn current_user_index(self, current_user: usize) -> (r: Self)
        ensures
            r.0@ == (ComputerModel { current_user_index: current_user as nat, ..self.0@ }),
    {
        let mut c = self.0;
        c.current_user_index = current_user;
        ComputerBuilder(c)
    }

    /// Looks the user up and leaves the builder as it is: who is logged in
    /// is set by index only.
    pub fn current_user_name(self, current_user_name: String) -> (r: Self)
        ensures
            r.0@ == self.0@,
    {
        let _ = self.0.find_user(current_user_name.as_str());
        self
    }

    /// Sets the identity.
    pub fn id(self, id: ComputerId) -> (r: Self)
        ensures
            r.0@ == (ComputerModel { id, ..self.0@ }),
    {
        let mut c = self.0;
        c.id = id;
        ComputerBuilder(c)
    }

    /// Sets the network address.
    pub fn address(self, address: &str) -> (r: Self)
        ensures
            r.0@ == (ComputerModel { address: address@, ..self.0@ }),
    {
        let mut c = self.0;
        c.address = String::from_str(address);
        ComputerBuilder(c)
    }

    /// Sets the working directory.
    pub fn cwd(self, cwd: Path) -> (r: Self)
        ensures
            r.0@ == (ComputerModel { cwd: cwd@, ..self.0@ }),
    {
        let mut c = self.0;
        c.cwd = cwd;
        ComputerBuilder(c)
    }

    /// Adds an entry to the directory at `root`. The directory must exist
    /// and have no child of that name.
    pub fn add_fs_node(self, root: &Path, node: Node) -> (r: Self)
        requires
            self.0.root@.add_node_result(root@, node@) is Ok,
        ensures
            self.0.root@.add_node_result(root@, node@) == Ok::<NodeModel, FsError>(r.0.root@),
            r.0@ == (ComputerModel { root: r.0@.root, ..self.0@ }),
    {
        let mut c = self.0;
        let _ = c.root.node.add_node(root, node);
        ComputerBuilder(c)
    }

    /// Adds a file to the directory at `root`.
    pub fn add_file(self, root: &Path, name: &str, date: NodeDateTime, file: File) -> (r: Self)
        requires
            self.0.root@.add_node_result(root@, NodeModel::new_file(name@, date, file@)) is Ok,
        ensures
            self.0.root@.add_node_result(root@, NodeModel::new_file(name@, date, file@)) == Ok::<
                NodeModel,
                FsError,
            >(r.0.root@),
            r.0@ == (ComputerModel { root: r.0@.root, ..self.0@ }),
    {
        self.add_fs_node(root, Node::file(name, date, file))
    }

    /// Adds an empty directory to the directory at `root`.
    pub fn add_dir(self, root: &Path, name: &str, date: NodeDateTime) -> (r: Self)
        requires
            self.0.root@.add_node_result(root@, NodeModel::new_dir(name@, date, Seq::empty()))
                is Ok,
        ensures
            self.0.root@.add_node_result(root@, NodeModel::new_dir(name@, date, Seq::empty()))
                == Ok::<NodeModel, FsError>(r.0.root@),
            r.0@ == (ComputerModel { root: r.0@.root, ..self.0@ }),
    {
        self.add_fs_node(root, Node::dir(name, date, Dir::empty()))
    }

    /// Adds an executable to the directory at `root`.
    pub fn add_exe(self, root: &Path, name: &str, date: NodeDateTime, subprocess: Executable) -> (r:
        Self)
        requires
            self.0.root@.add_node_result(root@, NodeModel::new_exe(name@, date, subprocess)) is Ok,
        ensures
            self.0.root@.add_node_result(root@, NodeModel::new_exe(name@, date, subprocess))
                == Ok::<NodeModel, FsError>(r.0.root@),
            r.0@ == (ComputerModel { root: r.0@.root, ..self.0@ }),
    {
        self.add_fs_node(root, Node::exe(name, date, subprocess))
    }

    /// Adds executables, each with its own date, to the directory at `root`,
    /// in the order of the list.
    pub fn add_exes(self, root: &Path, exes: &Vec<(String, NodeDateTime, Executable)>) -> (r: Self)
        requires
            add_all_result(self.0.root@, root@, dated_exe_models(exes@)) is Ok,
        ensures
            add_all_result(self.0.root@, root@, dated_exe_models(exes@)) == Ok::<
                NodeModel,
                FsError,
            >(r.0.root@),
            r.0@ == (ComputerModel { root: r.0@.root, ..self.0@ }),
    {
        let ghost start = self.0;
        let ghost nodes = dated_exe_models(exes@);
        let mut b = self;
        let mut i: usize = 0;
        proof {
            assert(nodes.take(0) =~= Seq::<NodeModel>::empty());
        }
        while i < exes.len()
            invariant
                i <= exes.len(),
                nodes == dated_exe_models(exes@),
                add_all_result(start.root@, root@, nodes) is Ok,
                add_all_result(start.root@, root@, nodes.take(i as int)) == Ok::<
                    NodeModel,
                    FsError,
                >(b.0.root@),
                b.0@ == (ComputerModel { root: b.0@.root, ..start@ }),
            decreases exes.len() - i,
        {
            proof {
                lemma_add_all_prefix(start.root@, root@, nodes, i + 1);
                assert(nodes.take(i + 1).drop_last() =~= nodes.take(i as int));
            }
            b = b.add_exe(root, exes[i].0.as_str(), exes[i].1, exes[i].2);
            i = i + 1;
        }
        proof {
            assert(nodes.take(exes@.len() as int) =~= nodes);
        }
        b
    }

    /// Adds executables, all of one date, to the directory at `root`, in the
    /// order of the list.
    pub fn add_exes_same_date(
        self,
        root: &Path,
        date: NodeDateTime,
        exes: &Vec<(String, Executable)>,
    ) -> (r: Self)
        requires
            add_all_result(self.0.root@, root@, exe_models(exes@, date)) is Ok,
        ensures
            add_all_result(self.0.root@, root@, exe_models(exes@, date)) == Ok::<
                NodeModel,
                FsError,
            >(r.0.root@),
            r.0@ == (ComputerModel { root: r.0@.root, ..self.0@ }),
    {
        let ghost start = self.0;
        let ghost nodes = exe_models(exes@, date);
        let mut b = self;
        let mut i: usize = 0;
        proof {
            assert(nodes.take(0) =~= Seq::<NodeModel>::empty());
        }
        while i < exes.len()
            invariant
                i <= exes.len(),
                nodes == exe_models(exes@, date),
                add_all_result(start.root@, root@, nodes) is Ok,
                add_all_result(start.root@, root@, nodes.take(i as int)) == Ok::<
                    NodeModel,
                    FsError,
                >(b.0.root@),
                b.0@ == (ComputerModel { root: b.0@.root, ..start@ }),
            decreases exes.len() - i,
        {
            proof {
                lemma_add_all_prefix(start.root@, root@, nodes, i + 1);
                assert(nodes.take(i + 1).drop_last() =~= nodes.take(i as int));
            }
            b = b.add_exe(root, exes[i].0.as_str(), date, exes[i].1);
            i = i + 1;
        }
        proof {
            assert(nodes.take(exes@.len() as int) =~= nodes);
        }
        b
    }

    /// Adds a directory to the end of the search path.
    pub fn with_path(self, path: String) -> (r: Self)
        ensures
            r.0@ == (ComputerModel {
                env: self.0@.env.insert(
                    PATH_KEY@,
                    if self.0@.env.contains_key(PATH_KEY@) {
                        self.0@.env[PATH_KEY@].push(PATH_SEPARATOR) + path@
                    } else {
                        path@
                    },
                ),
                ..self.0@
            }),
    {
        let mut c = self.0;
        let value = match c.env.get(PATH_KEY) {
            Some(p) => {
                let mut v = p.clone();
                v.push(PATH_SEPARATOR);
                v.append(path.as_str());
                v
            },
            None => path,
        };
        let ghost text = value@;
        c.env.insert(String::from_str(PATH_KEY), value);
        assert(env_model(c.env@) =~= self.0@.env.insert(PATH_KEY@, text));
        ComputerBuilder(c)
    }

    /// Sets the prompt.
    pub fn ps1(self, ps1: String) -> (r: Self)
        ensures
            r.0@ == (ComputerModel { env: self.0@.env.insert(PS1_KEY@, ps1@), ..self.0@ }),
    {
        let mut c = self.0;
        let ghost text = ps1@;
        c.env.insert(String::from_str(PS1_KEY), ps1);
        assert(env_model(c.env@) =~= self.0@.env.insert(PS1_KEY@, text));
        ComputerBuilder(c)
    }

    /// Starts from a computer with nothing set, whose root directory has
    /// the date that was read, if one was read; there is none where no date
    /// was read.
    pub fn with_optional_root_date(date: Option<NodeDateTime>) -> (r: Option<Self>)
        ensures
            match r {
                Some(b) => date is Some && b.0@ == ComputerModel::fresh(date->0),
                None => date is None,
            },
    {
        match date {
            Some(d) => Some(ComputerBuilder::with_root_date(d)),
            None => None,
        }
    }

    /// The computer as set up.
    pub fn build(self) -> (r: Computer)
        ensures
            r@ == self.0@,
    {
        self.0
    }
}


} // verus!
