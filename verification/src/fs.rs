//! The filesystem tree: named entries that are files, directories or
//! executables. A directory keeps its children in strict order of name, so
//! that no two share one.

use crate::date::NodeDateTime;
use crate::path::Path;
use crate::security::{Security, SecurityMode};
use crate::subprocess::Executable;
use crate::text::{
    lemma_lex_lt_irreflexive, lemma_lex_lt_total, lemma_lex_lt_transitive, lex_lt, str_lt, views,
};
use vstd::prelude::*;
use vstd::string::*;

verus! {

/// Why an operation on the tree was refused.
#[derive(Debug, Clone, Copy, PartialEq, Eq, Structural)]
pub enum FsError {
    /// The directory already has a child of that name.
    AlreadyExists,
    /// No entry is found at the path.
    DoesNotExist,
    /// The entry is not a directory.
    NotDirectory,
    /// The entry is not an executable, or there is none.
    NotExecutable,
}

/// What an operation on the tree returns.
pub type FsResult<R> = Result<R, FsError>;

/// The text of a file.
#[derive(Debug)]
pub struct File {
    pub content: String,
}

impl View for File {
    type V = Seq<char>;

    open spec fn view(&self) -> Seq<char> {
        self.content@
    }
}

impl File {
    /// A file that holds `content`.
    pub fn new(content: &str) -> (r: Self)
        ensures
            r@ == content@,
    {
        File { content: String::from_str(content) }
    }
}

impl Clone for File {
    fn clone(&self) -> (r: Self)
        ensures
            r@ == self@,
    {
        File { content: self.content.clone() }
    }
}

/// What an entry is, as a mathematical value.
pub struct NodeModel {
    pub name: Seq<char>,
    pub date: NodeDateTime,
    pub content: ContentModel,
    pub owner_security: Security,
    pub other_security: Security,
}

/// What an entry holds, as a mathematical value.
pub enum ContentModel {
    File(Seq<char>),
    Dir(Seq<NodeModel>),
    Executable(Executable),
}

/// The names grow strictly from each child to the next.
pub open spec fn names_sorted(s: Seq<NodeModel>) -> bool {
    forall|i: int, j: int|
        #![trigger s[i], s[j]]
        0 <= i < j < s.len() ==> lex_lt(s[i].name, s[j].name)
}

/// Whether one of the children has this name.
pub open spec fn has_child(s: Seq<NodeModel>, name: Seq<char>) -> bool {
    exists|i: int| 0 <= i < s.len() && (#[trigger] s[i]).name == name
}

/// The place of a child with this name.
pub open spec fn index_of(s: Seq<NodeModel>, name: Seq<char>) -> int {
    choose|i: int| 0 <= i < s.len() && (#[trigger] s[i]).name == name
}

/// The child with this name, if there is one.
pub open spec fn child(s: Seq<NodeModel>, name: Seq<char>) -> Option<NodeModel> {
    if has_child(s, name) {
        Some(s[index_of(s, name)])
    } else {
        None
    }
}

/// Whether `i` is where an entry called `name` belongs: every child before
/// `i` has a smaller name and every child from `i` on a greater one.
pub open spec fn is_insertion_point(s: Seq<NodeModel>, name: Seq<char>, i: int) -> bool {
    &&& 0 <= i <= s.len()
    &&& forall|j: int| 0 <= j < i ==> lex_lt((#[trigger] s[j]).name, name)
    &&& forall|j: int| i <= j < s.len() ==> lex_lt(name, (#[trigger] s[j]).name)
}

/// Where an entry called `name` belongs among the children.
pub open spec fn insertion_point(s: Seq<NodeModel>, name: Seq<char>) -> int {
    choose|i: int| is_insertion_point(s, name, i)
}

/// The children with `node` put where its name belongs.
pub open spec fn inserted(s: Seq<NodeModel>, node: NodeModel) -> Seq<NodeModel> {
    s.insert(insertion_point(s, node.name), node)
}

/// Every entry is a well-formed tree.
pub open spec fn all_wf(s: Seq<NodeModel>) -> bool {
    forall|i: int| 0 <= i < s.len() ==> (#[trigger] s[i]).wf()
}

/// In sorted children at most one place holds a given name.
pub proof fn lemma_sorted_names_unique(s: Seq<NodeModel>, i: int, j: int)
    requires
        names_sorted(s),
        0 <= i < s.len(),
        0 <= j < s.len(),
        s[i].name == s[j].name,
    ensures
        i == j,
{
    lemma_lex_lt_irreflexive(s[i].name);
    if i < j {
        assert(lex_lt(s[i].name, s[j].name));
    } else if j < i {
        assert(lex_lt(s[j].name, s[i].name));
    }
}

/// In sorted children, a child found under a name is the child of that name.
pub proof fn lemma_child_at(s: Seq<NodeModel>, i: int)
    requires
        names_sorted(s),
        0 <= i < s.len(),
    ensures
        has_child(s, s[i].name),
        index_of(s, s[i].name) == i,
        child(s, s[i].name) == Some(s[i]),
{
    lemma_sorted_names_unique(s, i, index_of(s, s[i].name));
}

/// Where a name has a place to be inserted, no child has that name, and the
/// place is the only one.
pub proof fn lemma_insertion_point_unique(s: Seq<NodeModel>, name: Seq<char>, i: int)
    requires
        is_insertion_point(s, name, i),
    ensures
        !has_child(s, name),
        insertion_point(s, name) == i,
{
    lemma_lex_lt_irreflexive(name);
    let k = insertion_point(s, name);
    assert(is_insertion_point(s, name, k));
    if k < i {
        assert(lex_lt(s[k].name, name));
        assert(lex_lt(name, s[k].name));
        lemma_lex_lt_transitive(name, s[k].name, name);
    } else if i < k {
        assert(lex_lt(s[i].name, name));
        assert(lex_lt(name, s[i].name));
        lemma_lex_lt_transitive(name, s[i].name, name);
    }
}

/// Putting an entry where its name belongs keeps sorted children sorted and
/// adds exactly that name.
pub proof fn lemma_inserted_sorted(s: Seq<NodeModel>, node: NodeModel)
    requires
        names_sorted(s),
        !has_child(s, node.name),
    ensures
        is_insertion_point(s, node.name, insertion_point(s, node.name)),
        names_sorted(inserted(s, node)),
        inserted(s, node).len() == s.len() + 1,
        forall|name: Seq<char>|
            has_child(inserted(s, node), name) <==> (name == node.name || has_child(s, name)),
{
    lemma_insertion_point_exists(s, node.name);
    let i = insertion_point(s, node.name);
    let t = inserted(s, node);
    assert forall|a: int, b: int| #![trigger t[a], t[b]] 0 <= a < b < t.len() implies lex_lt(
        t[a].name,
        t[b].name,
    ) by {
        if a < i && b > i {
            assert(t[a] == s[a] && t[b] == s[b - 1]);
        } else if a < i && b < i {
            assert(t[a] == s[a] && t[b] == s[b]);
        } else if a > i {
            assert(t[a] == s[a - 1] && t[b] == s[b - 1]);
        } else if a == i {
            assert(t[b] == s[b - 1]);
        } else {
            assert(t[a] == s[a]);
        }
    }
    assert forall|name: Seq<char>| has_child(t, name) <==> (name == node.name || has_child(
        s,
        name,
    )) by {
        if has_child(t, name) {
            let k = index_of(t, name);
            if k < i {
                assert(t[k] == s[k]);
            } else if k > i {
                assert(t[k] == s[k - 1]);
            }
        }
        if name == node.name {
            assert(t[i].name == name);
        }
        if has_child(s, name) {
            let k = index_of(s, name);
            if k < i {
                assert(t[k] == s[k]);
            } else {
                assert(t[k + 1] == s[k]);
            }
        }
    }
}

/// Among sorted children a name that none of them has belongs somewhere.
pub proof fn lemma_insertion_point_exists(s: Seq<NodeModel>, name: Seq<char>)
    requires
        names_sorted(s),
        !has_child(s, name),
    ensures
        is_insertion_point(s, name, insertion_point(s, name)),
    decreases s.len(),
{
    if s.len() == 0 {
        assert(is_insertion_point(s, name, 0));
    } else {
        let last = s.len() - 1;
        let front = s.drop_last();
        assert forall|i: int, j: int| #![trigger front[i], front[j]] 0 <= i < j
            < front.len() implies lex_lt(front[i].name, front[j].name) by {
            assert(front[i] == s[i] && front[j] == s[j]);
        }
        if has_child(front, name) {
            let k = index_of(front, name);
            assert(s[k] == front[k]);
        }
        lemma_insertion_point_exists(front, name);
        let k = insertion_point(front, name);
        assert(s[last].name != name);
        lemma_lex_lt_total(s[last].name, name);
        if lex_lt(s[last].name, name) {
            assert forall|j: int| 0 <= j < s.len() implies lex_lt((#[trigger] s[j]).name, name) by {
                if j < last {
                    assert(lex_lt(s[j].name, s[last].name));
                    lemma_lex_lt_transitive(s[j].name, s[last].name, name);
                }
            }
            assert(is_insertion_point(s, name, s.len() as int));
        } else {
            assert forall|j: int| 0 <= j < k implies lex_lt((#[trigger] s[j]).name, name) by {
                assert(s[j] == front[j]);
            }
            assert forall|j: int| k <= j < s.len() implies lex_lt(name, (#[trigger] s[j]).name) by {
                if j < last {
                    assert(s[j] == front[j]);
                }
            }
            assert(is_insertion_point(s, name, k));
        }
    }
}

/// What collecting entries into one directory gives: the entries in order
/// of name, or `AlreadyExists` where two of them share a name.
pub open spec fn collected(s: Seq<NodeModel>) -> Result<Seq<NodeModel>, FsError>
    decreases s.len(),
{
    if s.len() == 0 {
        Ok(Seq::empty())
    } else {
        match collected(s.drop_last()) {
            Ok(c) => if has_child(c, s.last().name) {
                Err(FsError::AlreadyExists)
            } else {
                Ok(inserted(c, s.last()))
            },
            Err(e) => Err(e),
        }
    }
}

impl NodeModel {
    /// A directory entry as it is first made: its owner may read and write,
    /// everybody else may read.
    pub open spec fn new_dir(name: Seq<char>, date: NodeDateTime, children: Seq<NodeModel>) -> Self {
        NodeModel {
            name,
            date,
            content: ContentModel::Dir(children),
            owner_security: Security::of(SecurityMode::RW),
            other_security: Security::of(SecurityMode::Read),
        }
    }

    /// A file entry as it is first made: its owner may read and write,
    /// everybody else may read.
    pub open spec fn new_file(name: Seq<char>, date: NodeDateTime, content: Seq<char>) -> Self {
        NodeModel {
            name,
            date,
            content: ContentModel::File(content),
            owner_security: Security::of(SecurityMode::RW),
            other_security: Security::of(SecurityMode::Read),
        }
    }

    /// An executable entry as it is first made: everybody may execute it,
    /// and nothing else.
    pub open spec fn new_exe(name: Seq<char>, date: NodeDateTime, program: Executable) -> Self {
        NodeModel {
            name,
            date,
            content: ContentModel::Executable(program),
            owner_security: Security::of(SecurityMode::Execute),
            other_security: Security::of(SecurityMode::Execute),
        }
    }

    /// What must hold of a tree: in every directory of it the names grow
    /// strictly from each child to the next.
    pub open spec fn wf(self) -> bool
        decreases self,
    {
        match self.content {
            ContentModel::Dir(c) => names_sorted(c) && forall|i: int|
                0 <= i < c.len() ==> (#[trigger] c[i]).wf(),
            _ => true,
        }
    }

    /// The children of a directory; none for any other entry.
    pub open spec fn children(self) -> Seq<NodeModel> {
        match self.content {
            ContentModel::Dir(c) => c,
            _ => Seq::empty(),
        }
    }

    /// This entry with other content.
    pub open spec fn with_content(self, content: ContentModel) -> Self {
        NodeModel { content, ..self }
    }

    /// The entry reached from this one by following `path` one segment at a
    /// time: each step goes from a directory to its child of that name. The
    /// empty path reaches the entry itself.
    pub open spec fn lookup(self, path: Seq<Seq<char>>) -> Option<NodeModel>
        decreases path.len(),
    {
        if path.len() == 0 {
            Some(self)
        } else {
            match self.content {
                ContentModel::Dir(c) => match child(c, path[0]) {
                    Some(n) => n.lookup(path.drop_first()),
                    None => None,
                },
                _ => None,
            }
        }
    }

    /// What adding `node` as a child of this entry gives: the entry with the
    /// child in its place, or the reason why it cannot be added.
    pub open spec fn add_child_result(self, node: NodeModel) -> Result<NodeModel, FsError> {
        match self.content {
            ContentModel::Dir(c) => if has_child(c, node.name) {
                Err(FsError::AlreadyExists)
            } else {
                Ok(self.with_content(ContentModel::Dir(inserted(c, node))))
            },
            _ => Err(FsError::NotDirectory),
        }
    }

    /// What adding `node` to the directory at `path` below this entry gives:
    /// the tree with the new entry, or the reason why it cannot be added.
    pub open spec fn add_node_result(self, path: Seq<Seq<char>>, node: NodeModel) -> Result<
        NodeModel,
        FsError,
    >
        decreases path.len(),
    {
        if path.len() == 0 {
            self.add_child_result(node)
        } else {
            match self.content {
                ContentModel::Dir(c) => if has_child(c, path[0]) {
                    let i = index_of(c, path[0]);
                    match c[i].add_node_result(path.drop_first(), node) {
                        Ok(n) => Ok(self.with_content(ContentModel::Dir(c.update(i, n)))),
                        Err(e) => Err(e),
                    }
                } else {
                    Err(FsError::DoesNotExist)
                },
                _ => Err(FsError::DoesNotExist),
            }
        }
    }
}

/// Adding to the directory at a path fails with `DoesNotExist` where the
/// path reaches nothing, and is otherwise decided by the entry that the path
/// reaches: it must be a directory without a child of the new name.
pub proof fn lemma_add_node_follows_lookup(tree: NodeModel, path: Seq<Seq<char>>, node: NodeModel)
    ensures
        match tree.lookup(path) {
            None => tree.add_node_result(path, node) == Err::<NodeModel, FsError>(
                FsError::DoesNotExist,
            ),
            Some(target) => match target.add_child_result(node) {
                Ok(_) => tree.add_node_result(path, node) is Ok,
                Err(e) => tree.add_node_result(path, node) == Err::<NodeModel, FsError>(e),
            },
        },
    decreases path.len(),
{
    if path.len() > 0 {
        match tree.content {
            ContentModel::Dir(c) => {
                if has_child(c, path[0]) {
                    lemma_add_node_follows_lookup(c[index_of(c, path[0])], path.drop_first(), node);
                }
            },
            _ => {},
        }
    }
}

/// Adding an entry below a tree changes neither the name, the date nor the
/// permissions of the tree's root, which stays a directory.
pub proof fn lemma_add_node_keeps_header(tree: NodeModel, path: Seq<Seq<char>>, node: NodeModel)
    ensures
        match tree.add_node_result(path, node) {
            Ok(t) => t.name == tree.name && t.date == tree.date && t.owner_security
                == tree.owner_security && t.other_security == tree.other_security
                && t.content is Dir && tree.content is Dir,
            Err(_) => true,
        },
{
}

/// A directory that takes a new child stays in strict order of name, so
/// that no name occurs twice, and then refuses any entry of the same name;
/// it refuses a child only because it has one of that name.
pub proof fn lemma_add_child_keeps_order(dir: NodeModel, node: NodeModel, again: NodeModel)
    requires
        dir.content is Dir,
        names_sorted(dir.children()),
        again.name == node.name,
    ensures
        match dir.add_child_result(node) {
            Ok(d) => names_sorted(d.children()) && has_child(d.children(), node.name)
                && d.add_child_result(again) == Err::<NodeModel, FsError>(
                FsError::AlreadyExists,
            ),
            Err(e) => e == FsError::AlreadyExists && has_child(dir.children(), node.name),
        },
{
    if !has_child(dir.children(), node.name) {
        lemma_inserted_sorted(dir.children(), node);
    }
}

/// What is added to a well-formed tree is found there afterwards: the path
/// of the directory followed by the name of the new entry leads to it. The
/// tree is still well formed where the new entry is.
pub proof fn lemma_added_is_found(tree: NodeModel, path: Seq<Seq<char>>, node: NodeModel)
    requires
        tree.wf(),
        tree.add_node_result(path, node) is Ok,
    ensures
        tree.add_node_result(path, node)->Ok_0.lookup(path.push(node.name)) == Some(node),
        node.wf() ==> tree.add_node_result(path, node)->Ok_0.wf(),
    decreases path.len(),
{
    let after = tree.add_node_result(path, node)->Ok_0;
    let c = tree.children();
    let full = path.push(node.name);
    if path.len() == 0 {
        lemma_inserted_sorted(c, node);
        lemma_inserted_children(c, node);
        assert(full.drop_first() =~= Seq::<Seq<char>>::empty());
        let t = inserted(c, node);
        let i = insertion_point(c, node.name);
        assert(after.content == ContentModel::Dir(t));
        assert(full[0] == node.name);
        assert(node.lookup(full.drop_first()) == Some(node));
        assert(after.lookup(full) == Some(node));
        assert forall|k: int| 0 <= k < t.len() && node.wf() implies (#[trigger] t[k]).wf() by {
            if k < i {
                assert(t[k] == c[k]);
            } else if k > i {
                assert(t[k] == c[k - 1]);
            }
        }
    } else {
        let i = index_of(c, path[0]);
        let rest = path.drop_first();
        lemma_added_is_found(c[i], rest, node);
        let grown = c[i].add_node_result(rest, node)->Ok_0;
        lemma_add_node_keeps_header(c[i], rest, node);
        let t = c.update(i, grown);
        lemma_update_keeps_sorted(c, i, grown);
        lemma_child_at(t, i);
        assert(full[0] == path[0]);
        assert(full.drop_first() =~= rest.push(node.name));
        assert(after.content == ContentModel::Dir(t));
        assert(child(t, full[0]) == Some(grown));
        assert(after.lookup(full) == grown.lookup(full.drop_first()));
        assert forall|k: int| 0 <= k < t.len() && node.wf() implies (#[trigger] t[k]).wf() by {
            if k != i {
                assert(t[k] == c[k]);
            }
        }
    }
}

/// What making a root directory of these entries gives: a directory without
/// a name that holds them in order of name, or `AlreadyExists` where two of
/// them share a name.
pub open spec fn root_of(children: Seq<NodeModel>, date: NodeDateTime) -> Result<
    NodeModel,
    FsError,
> {
    match collected(children) {
        Ok(c) => Ok(NodeModel::new_dir(Seq::empty(), date, c)),
        Err(e) => Err(e),
    }
}

/// After an entry is put where its name belongs, it is the child of its
/// name, and every other name leads to the child that it led to before.
pub proof fn lemma_inserted_children(s: Seq<NodeModel>, node: NodeModel)
    requires
        names_sorted(s),
        !has_child(s, node.name),
    ensures
        child(inserted(s, node), node.name) == Some(node),
        forall|name: Seq<char>| name != node.name ==> child(inserted(s, node), name) == child(s, name),
{
    lemma_inserted_sorted(s, node);
    let i = insertion_point(s, node.name);
    let t = inserted(s, node);
    assert(t[i] == node);
    lemma_child_at(t, i);
    assert forall|name: Seq<char>| name != node.name implies child(t, name) == child(s, name) by {
        if has_child(s, name) {
            let k = index_of(s, name);
            let k2 = if k < i {
                k
            } else {
                k + 1
            };
            assert(t[k2] == s[k]);
            lemma_child_at(t, k2);
        }
    }
}

/// What holds of a tree after an entry was added to a directory that is a
/// child of its root: the root keeps its children but for that directory,
/// which has the new entry among its own.
pub open spec fn added_into_child(
    before: NodeModel,
    after: NodeModel,
    name: Seq<char>,
    node: NodeModel,
) -> bool {
    let dir = child(before.children(), name)->0;
    &&& after.content is Dir
    &&& after.name == before.name
    &&& after.date == before.date
    &&& after.owner_security == before.owner_security
    &&& after.other_security == before.other_security
    &&& names_sorted(after.children())
    &&& after.children().len() == before.children().len()
    &&& forall|n: Seq<char>| n != name ==> child(after.children(), n) == child(before.children(), n)
    &&& child(after.children(), name) == Some(
        dir.with_content(ContentModel::Dir(inserted(dir.children(), node))),
    )
}

/// An entry can be added to a directory that is a child of the root and has
/// no child of the entry's name.
pub proof fn lemma_add_into_child(root: NodeModel, name: Seq<char>, node: NodeModel)
    requires
        root.content is Dir,
        names_sorted(root.children()),
        child(root.children(), name) is Some,
        child(root.children(), name)->0.content is Dir,
        !has_child(child(root.children(), name)->0.children(), node.name),
    ensures
        root.add_node_result(seq![name], node) is Ok,
        added_into_child(root, root.add_node_result(seq![name], node)->Ok_0, name, node),
{
    let path = seq![name];
    let c = root.children();
    let i = index_of(c, name);
    assert(path.drop_first() =~= Seq::<Seq<char>>::empty());
    let dir = c[i];
    let grown = dir.with_content(ContentModel::Dir(inserted(dir.children(), node)));
    assert(dir.add_node_result(path.drop_first(), node) == Ok::<NodeModel, FsError>(grown));
    let after = root.add_node_result(path, node)->Ok_0;
    assert(after.children() == c.update(i, grown));
    lemma_update_keeps_sorted(c, i, grown);
    lemma_child_at(after.children(), i);
    assert forall|n: Seq<char>| n != name implies child(after.children(), n) == child(c, n) by {
        if has_child(c, n) {
            let k = index_of(c, n);
            assert(after.children()[k] == c[k]);
            lemma_child_at(after.children(), k);
        } else if has_child(after.children(), n) {
            let k = index_of(after.children(), n);
            assert(c[k].name == n);
        }
    }
}

/// What making a root directory gives where the date may be missing: the
/// directory of that date, or nothing where there is no date or two entries
/// share a name.
pub open spec fn root_if_dated(children: Seq<NodeModel>, date: Option<NodeDateTime>) -> Option<
    NodeModel,
> {
    match date {
        Some(d) => match root_of(children, d) {
            Ok(root) => Some(root),
            Err(_) => None,
        },
        None => None,
    }
}

/// A directory: its children, in strict order of name.
#[derive(Debug)]
pub struct Dir {
    children: Vec<Node>,
}

/// What an entry holds.
#[derive(Debug)]
pub enum NodeContent {
    File(File),
    Dir(Dir),
    Executable(Executable),
}

/// A named entry of the tree with its date, its content and the permissions
/// of its owner and of everybody else.
#[derive(Debug)]
pub struct Node {
    pub name: String,
    pub date: NodeDateTime,
    pub content: NodeContent,
    pub owner_security: Security,
    pub other_security: Security,
}

/// The entries as mathematical values, in the same order.
pub closed spec fn models(s: Seq<Node>) -> Seq<NodeModel>
    decreases s,
{
    if s.len() == 0 {
        Seq::empty()
    } else {
        models(s.drop_last()).push(s.last().view())
    }
}

impl View for NodeContent {
    type V = ContentModel;

    open spec fn view(&self) -> ContentModel
        decreases self,
    {
        match self {
            NodeContent::File(f) => ContentModel::File(f@),
            NodeContent::Dir(d) => ContentModel::Dir(d@),
            NodeContent::Executable(e) => ContentModel::Executable(*e),
        }
    }
}

impl View for Node {
    type V = NodeModel;

    open spec fn view(&self) -> NodeModel
        decreases self,
    {
        NodeModel {
            name: self.name@,
            date: self.date,
            content: self.content@,
            owner_security: self.owner_security,
            other_security: self.other_security,
        }
    }
}

impl View for Dir {
    type V = Seq<NodeModel>;

    closed spec fn view(&self) -> Seq<NodeModel>
        decreases self,
    {
        models(self.children@)
    }
}

/// The entries that the references lead to, as mathematical values.
pub open spec fn node_models(s: Seq<&Node>) -> Seq<NodeModel> {
    Seq::new(s.len(), |i: int| s[i]@)
}

/// The models stand one for one for the entries.
pub proof fn lemma_models(s: Seq<Node>)
    ensures
        models(s).len() == s.len(),
        forall|i: int| 0 <= i < s.len() ==> (#[trigger] models(s)[i]) == s[i]@,
    decreases s.len(),
{
    if s.len() > 0 {
        lemma_models(s.drop_last());
        assert(models(s) == models(s.drop_last()).push(s.last()@));
        assert forall|i: int| 0 <= i < s.len() implies (#[trigger] models(s)[i]) == s[i]@ by {
            if i < s.len() - 1 {
                assert(models(s.drop_last())[i] == s.drop_last()[i]@);
            }
        }
    } else {
        assert(models(s) =~= Seq::<NodeModel>::empty());
    }
}

/// Inserting an entry inserts its model.
proof fn lemma_models_insert(s: Seq<Node>, i: int, node: Node)
    requires
        0 <= i <= s.len(),
    ensures
        models(s.insert(i, node)) == models(s).insert(i, node@),
{
    lemma_models(s);
    lemma_models(s.insert(i, node));
    assert(models(s.insert(i, node)) =~= models(s).insert(i, node@));
}

impl Dir {
    #[verifier::type_invariant]
    spec fn sorted(self) -> bool {
        names_sorted(self@) && all_wf(self@)
    }

    /// A directory without children.
    pub fn empty() -> (r: Self)
        ensures
            r@ == Seq::<NodeModel>::empty(),
    {
        Dir { children: Vec::new() }
    }

    /// The children, in order of name.
    pub fn children(&self) -> (r: &Vec<Node>)
        ensures
            r@.len() == self@.len(),
            forall|i: int| 0 <= i < r@.len() ==> (#[trigger] r@[i])@ == self@[i],
            names_sorted(self@),
            all_wf(self@),
    {
        proof {
            use_type_invariant(self);
            lemma_models(self.children@);
        }
        &self.children
    }

    /// Searches the children for `name`: the place of the child with that
    /// name, or else the place where such a child belongs.
    pub fn binary_search(&self, name: &str) -> (r: Result<usize, usize>)
        ensures
            names_sorted(self@),
            match r {
                Ok(i) => i < self@.len() && self@[i as int].name == name@,
                Err(i) => is_insertion_point(self@, name@, i as int),
            },
    {
        proof {
            use_type_invariant(self);
            lemma_models(self.children@);
        }
        let ghost s = self@;
        let mut lo: usize = 0;
        let mut hi: usize = self.children.len();
        while lo < hi
            invariant
                s == self@,
                names_sorted(s),
                s.len() == self.children@.len(),
                forall|i: int| 0 <= i < s.len() ==> (#[trigger] s[i]) == self.children@[i]@,
                lo <= hi <= s.len(),
                forall|j: int| 0 <= j < lo ==> lex_lt((#[trigger] s[j]).name, name@),
                forall|j: int| hi <= j < s.len() ==> lex_lt(name@, (#[trigger] s[j]).name),
            decreases hi - lo,
        {
            let mid: usize = lo + (hi - lo) / 2;
            let entry = &self.children[mid];
            assert(s[mid as int] == entry@);
            if entry.name.as_str().eq(name) {
                return Ok(mid);
            } else if str_lt(entry.name.as_str(), name) {
                assert forall|j: int| 0 <= j < mid + 1 implies lex_lt(
                    (#[trigger] s[j]).name,
                    name@,
                ) by {
                    if j < mid {
                        assert(lex_lt(s[j].name, s[mid as int].name));
                        lemma_lex_lt_transitive(s[j].name, s[mid as int].name, name@);
                    }
                }
                lo = mid + 1;
            } else {
                proof {
                    lemma_lex_lt_total(s[mid as int].name, name@);
                }
                assert forall|j: int| mid <= j < s.len() implies lex_lt(
                    name@,
                    (#[trigger] s[j]).name,
                ) by {
                    if j > mid {
                        assert(lex_lt(s[mid as int].name, s[j].name));
                        lemma_lex_lt_transitive(name@, s[mid as int].name, s[j].name);
                    }
                }
                hi = mid;
            }
        }
        Err(lo)
    }

    /// The place of the child called `name`, if there is one.
    pub fn get_child_index(&self, name: &str) -> (r: Option<usize>)
        ensures
            match r {
                Some(i) => has_child(self@, name@) && i == index_of(self@, name@),
                None => !has_child(self@, name@),
            },
    {
        match self.binary_search(name) {
            Ok(i) => {
                proof {
                    lemma_child_at(self@, i as int);
                }
                Some(i)
            },
            Err(i) => {
                proof {
                    lemma_insertion_point_unique(self@, name@, i as int);
                }
                None
            },
        }
    }

    /// The child called `name`, if there is one.
    pub fn get_child(&self, name: &str) -> (r: Option<&Node>)
        ensures
            match r {
                Some(n) => child(self@, name@) == Some(n@),
                None => child(self@, name@) is None,
            },
    {
        match self.get_child_index(name) {
            Some(i) => {
                proof {
                    lemma_models(self.children@);
                }
                Some(&self.children[i])
            },
            None => None,
        }
    }

    /// Adds a child where its name belongs. A directory that already has a
    /// child of that name refuses and stays as it is.
    pub fn add_child(&mut self, node: Node) -> (r: FsResult<()>)
        ensures
            names_sorted(old(self)@),
            names_sorted(final(self)@),
            match r {
                Ok(_) => !has_child(old(self)@, node@.name) && final(self)@ == inserted(
                    old(self)@,
                    node@,
                ),
                Err(e) => e == FsError::AlreadyExists && has_child(old(self)@, node@.name)
                    && *final(self) == *old(self),
            },
    {
        proof {
            use_type_invariant(&*self);
        }
        node.note_wf();
        match self.binary_search(node.name.as_str()) {
            Ok(i) => {
                proof {
                    lemma_child_at(self@, i as int);
                }
                Err(FsError::AlreadyExists)
            },
            Err(i) => {
                proof {
                    lemma_models(self.children@);
                    lemma_insertion_point_unique(self@, node@.name, i as int);
                    lemma_inserted_sorted(self@, node@);
                    lemma_models_insert(self.children@, i as int, node);
                    let t = self@.insert(i as int, node@);
                    assert forall|k: int| 0 <= k < t.len() implies (#[trigger] t[k]).wf() by {
                        if k < i {
                            assert(t[k] == self@[k]);
                        } else if k > i {
                            assert(t[k] == self@[k - 1]);
                        }
                    }
                }
                let mut kids: Vec<Node> = Vec::new();
                core::mem::swap(&mut self.children, &mut kids);
                kids.insert(i, node);
                self.children = kids;
                Ok(())
            },
        }
    }
}

/// Replacing an entry replaces its model.
proof fn lemma_models_update(s: Seq<Node>, i: int, node: Node)
    requires
        0 <= i < s.len(),
    ensures
        models(s.update(i, node)) == models(s).update(i, node@),
{
    lemma_models(s);
    lemma_models(s.update(i, node));
    assert(models(s.update(i, node)) =~= models(s).update(i, node@));
}

/// One more entry at the end is one more model at the end.
proof fn lemma_models_push(s: Seq<Node>, node: Node)
    ensures
        models(s.push(node)) == models(s).push(node@),
{
    lemma_models(s);
    lemma_models(s.push(node));
    assert(models(s.push(node)) =~= models(s).push(node@));
}

/// A child replaced by one of the same name leaves sorted children sorted.
pub proof fn lemma_update_keeps_sorted(s: Seq<NodeModel>, i: int, node: NodeModel)
    requires
        names_sorted(s),
        0 <= i < s.len(),
        node.name == s[i].name,
    ensures
        names_sorted(s.update(i, node)),
{
    let t = s.update(i, node);
    assert forall|a: int, b: int| #![trigger t[a], t[b]] 0 <= a < b < t.len() implies lex_lt(
        t[a].name,
        t[b].name,
    ) by {
        assert(t[a].name == s[a].name && t[b].name == s[b].name);
    }
}

impl Dir {
    /// A directory of these entries, put in order of name. Two entries of
    /// one name are refused with `AlreadyExists`.
    pub fn new(children: Vec<Node>) -> (r: FsResult<Dir>)
        ensures
            match r {
                Ok(d) => collected(models(children@)) == Ok::<Seq<NodeModel>, FsError>(d@)
                    && names_sorted(d@),
                Err(e) => collected(models(children@)) == Err::<Seq<NodeModel>, FsError>(e),
            },
    {
        let ghost all = children@;
        let mut out = Dir::empty();
        proof {
            assert(all.take(0) =~= Seq::<Node>::empty());
            lemma_models(all.take(0));
            assert(models(all.take(0)) =~= Seq::<NodeModel>::empty());
        }
        for node in it: children
            invariant
                it.seq() == all,
                collected(models(all.take(it.index() as int))) == Ok::<Seq<NodeModel>, FsError>(
                    out@,
                ),
        {
            let ghost k = it.index() as int;
            proof {
                assert(all.take(k + 1) =~= all.take(k).push(node));
                lemma_models_push(all.take(k), node);
                let m = models(all.take(k + 1));
                assert(m.drop_last() =~= models(all.take(k)));
                assert(m.last() == node@);
            }
            match out.add_child(node) {
                Ok(_) => {},
                Err(e) => {
                    proof {
                        lemma_models(all);
                        lemma_models_take(all, k + 1);
                        lemma_collected_error_stays(models(all), k + 1);
                    }
                    return Err(e);
                },
            }
        }
        proof {
            assert(all.take(all.len() as int) =~= all);
            use_type_invariant(&out);
        }
        Ok(out)
    }

    /// How many children the directory has.
    pub fn len(&self) -> (r: usize)
        ensures
            r == self@.len(),
    {
        proof {
            lemma_models(self.children@);
        }
        self.children.len()
    }

    /// Adds `node` to the directory that `path`, from its segment at
    /// `depth` on, reaches below the child at place `i`.
    fn add_below(&mut self, i: usize, path: &Vec<String>, depth: usize, node: Node) -> (r:
        FsResult<()>)
        requires
            i < old(self)@.len(),
            depth <= path@.len(),
        ensures
            final(self)@.len() == old(self)@.len(),
            match old(self)@[i as int].add_node_result(views(path@).skip(depth as int), node@) {
                Ok(m) => r is Ok && final(self)@ == old(self)@.update(i as int, m),
                Err(e) => r == Err::<(), FsError>(e) && final(self)@ == old(self)@,
            },
        decreases path@.len() - depth, 1nat,
    {
        proof {
            use_type_invariant(&*self);
            lemma_models(self.children@);
        }
        let ghost before = self.children@;
        let ghost target = self@[i as int];
        let ghost rest = views(path@).skip(depth as int);
        let mut kids: Vec<Node> = Vec::new();
        core::mem::swap(&mut self.children, &mut kids);
        let r = kids[i].add_at(path, depth, node);
        proof {
            lemma_add_node_keeps_header(target, rest, node@);
            lemma_models_update(before, i as int, kids@[i as int]);
            assert(kids@ =~= before.update(i as int, kids@[i as int]));
            if r is Ok {
                lemma_update_keeps_sorted(models(before), i as int, kids@[i as int]@);
            } else {
                assert(models(before).update(i as int, target) =~= models(before));
            }
            let t = models(before).update(i as int, kids@[i as int]@);
            assert forall|k: int| 0 <= k < t.len() implies (#[trigger] t[k]).wf() by {
                if k != i {
                    assert(t[k] == models(before)[k]);
                }
            }
        }
        self.children = kids;
        r
    }
}

/// The models of the first entries are the first models.
proof fn lemma_models_take(s: Seq<Node>, k: int)
    requires
        0 <= k <= s.len(),
    ensures
        models(s.take(k)) == models(s).take(k),
{
    lemma_models(s);
    lemma_models(s.take(k));
    assert(models(s.take(k)) =~= models(s).take(k));
}

/// Once two of the first entries share a name, collecting all of them fails
/// the same way.
pub proof fn lemma_collected_error_stays(s: Seq<NodeModel>, k: int)
    requires
        0 <= k <= s.len(),
        collected(s.take(k)) is Err,
    ensures
        collected(s) == collected(s.take(k)),
    decreases s.len() - k,
{
    if k < s.len() {
        assert(s.take(k + 1).drop_last() =~= s.take(k));
        lemma_collected_error_stays(s, k + 1);
    } else {
        assert(s.take(k) =~= s);
    }
}

impl Node {
    /// Every entry is a well-formed tree.
    pub fn note_wf(&self)
        ensures
            self@.wf(),
    {
        match &self.content {
            NodeContent::Dir(d) => {
                proof {
                    use_type_invariant(d);
                }
            },
            _ => {},
        }
    }

    /// A directory called `name` that holds `dir`.
    pub fn dir(name: &str, date: NodeDateTime, dir: Dir) -> (r: Self)
        ensures
            r@ == NodeModel::new_dir(name@, date, dir@),
    {
        Node {
            name: String::from_str(name),
            date,
            content: NodeContent::Dir(dir),
            owner_security: Security::from_mode(SecurityMode::RW),
            other_security: Security::from_mode(SecurityMode::Read),
        }
    }

    /// A file called `name` that holds `file`.
    pub fn file(name: &str, date: NodeDateTime, file: File) -> (r: Self)
        ensures
            r@ == NodeModel::new_file(name@, date, file@),
    {
        Node {
            name: String::from_str(name),
            date,
            content: NodeContent::File(file),
            owner_security: Security::from_mode(SecurityMode::RW),
            other_security: Security::from_mode(SecurityMode::Read),
        }
    }

    /// An executable called `name` that stands for `subprocess`.
    pub fn exe(name: &str, date: NodeDateTime, subprocess: Executable) -> (r: Self)
        ensures
            r@ == NodeModel::new_exe(name@, date, subprocess),
    {
        Node {
            name: String::from_str(name),
            date,
            content: NodeContent::Executable(subprocess),
            owner_security: Security::from_mode(SecurityMode::Execute),
            other_security: Security::from_mode(SecurityMode::Execute),
        }
    }

    /// Whether the entry is a directory.
    pub fn is_dir(&self) -> (r: bool)
        ensures
            r == (self@.content is Dir),
    {
        match &self.content {
            NodeContent::Dir(_) => true,
            _ => false,
        }
    }

    /// Whether the entry is a file.
    pub fn is_file(&self) -> (r: bool)
        ensures
            r == (self@.content is File),
    {
        match &self.content {
            NodeContent::File(_) => true,
            _ => false,
        }
    }

    /// Whether the entry is an executable.
    pub fn is_exe(&self) -> (r: bool)
        ensures
            r == (self@.content is Executable),
    {
        match &self.content {
            NodeContent::Executable(_) => true,
            _ => false,
        }
    }

    /// The directory that the entry holds, if it is one.
    pub fn as_dir(&self) -> (r: Option<&Dir>)
        ensures
            match r {
                Some(d) => self@.content == ContentModel::Dir(d@),
                None => !(self@.content is Dir),
            },
    {
        match &self.content {
            NodeContent::Dir(d) => Some(d),
            _ => None,
        }
    }

    /// The file that the entry holds, if it is one.
    pub fn as_file(&self) -> (r: Option<&File>)
        ensures
            match r {
                Some(f) => self@.content == ContentModel::File(f@),
                None => !(self@.content is File),
            },
    {
        match &self.content {
            NodeContent::File(f) => Some(f),
            _ => None,
        }
    }

    /// The program that the entry stands for, if it is an executable.
    pub fn as_exe(&self) -> (r: Option<Executable>)
        ensures
            match r {
                Some(e) => self@.content == ContentModel::Executable(e),
                None => !(self@.content is Executable),
            },
    {
        match &self.content {
            NodeContent::Executable(e) => Some(*e),
            _ => None,
        }
    }

    /// The entry that `path` reaches from this one.
    pub fn get_node(&self, path: &Path) -> (r: Option<&Node>)
        ensures
            match r {
                Some(n) => self@.lookup(path@) == Some(n@),
                None => self@.lookup(path@) is None,
            },
    {
        let mut cur: &Node = self;
        let mut i: usize = 0;
        proof {
            assert(path@.skip(0) =~= path@);
        }
        while i < path.0.len()
            invariant
                i <= path.0.len(),
                self@.lookup(path@) == cur@.lookup(path@.skip(i as int)),
            decreases path.0.len() - i,
        {
            proof {
                let rest = path@.skip(i as int);
                assert(rest[0] == path.0@[i as int]@);
                assert(rest.drop_first() =~= path@.skip(i + 1));
            }
            match &cur.content {
                NodeContent::Dir(d) => match d.get_child(path.0[i].as_str()) {
                    Some(c) => {
                        cur = c;
                    },
                    None => {
                        return None;
                    },
                },
                _ => {
                    return None;
                },
            }
            i = i + 1;
        }
        Some(cur)
    }

    /// Adds `node` as a child of this entry, which must be a directory
    /// without a child of that name.
    pub fn add_child(&mut self, node: Node) -> (r: FsResult<()>)
        ensures
            final(self)@.wf(),
            match old(self)@.add_child_result(node@) {
                Ok(m) => r is Ok && final(self)@ == m,
                Err(e) => r == Err::<(), FsError>(e) && final(self)@ == old(self)@,
            },
    {
        let r = match &mut self.content {
            NodeContent::Dir(d) => d.add_child(node),
            _ => Err(FsError::NotDirectory),
        };
        self.note_wf();
        r
    }

    /// Adds `node` to the directory that `path`, from its segment at
    /// `depth` on, reaches from this entry.
    fn add_at(&mut self, path: &Vec<String>, depth: usize, node: Node) -> (r: FsResult<()>)
        requires
            depth <= path@.len(),
        ensures
            final(self)@.wf(),
            match old(self)@.add_node_result(views(path@).skip(depth as int), node@) {
                Ok(m) => r is Ok && final(self)@ == m,
                Err(e) => r == Err::<(), FsError>(e) && final(self)@ == old(self)@,
            },
        decreases path@.len() - depth, 0nat,
    {
        let r = if depth == path.len() {
            self.add_child(node)
        } else {
            proof {
                let rest = views(path@).skip(depth as int);
                assert(rest[0] == path@[depth as int]@);
                assert(rest.drop_first() =~= views(path@).skip(depth + 1));
            }
            match &mut self.content {
                NodeContent::Dir(d) => match d.get_child_index(path[depth].as_str()) {
                    Some(i) => d.add_below(i, path, depth + 1, node),
                    None => Err(FsError::DoesNotExist),
                },
                _ => Err(FsError::DoesNotExist),
            }
        };
        self.note_wf();
        r
    }

    /// Adds `node` to the directory at `dir` below this entry. Fails with
    /// `DoesNotExist` where `dir` reaches nothing, with `NotDirectory` where
    /// it reaches a file or an executable, and with `AlreadyExists` where
    /// the directory has a child of that name; the tree then stays as it is.
    pub fn add_node(&mut self, dir: &Path, node: Node) -> (r: FsResult<()>)
        ensures
            final(self)@.wf(),
            match old(self)@.add_node_result(dir@, node@) {
                Ok(m) => r is Ok && final(self)@ == m,
                Err(e) => r == Err::<(), FsError>(e) && final(self)@ == old(self)@,
            },
    {
        proof {
            assert(dir@.skip(0) =~= dir@);
        }
        self.add_at(&dir.0, 0, node)
    }
}


/// The date that a root directory gets where none is given.
pub const ROOT_DATE: &'static str = "15 Jan 2023 00:00";

/// The top of a filesystem tree: a directory without a name.
#[derive(Debug)]
pub struct Root {
    pub node: Node,
}

impl View for Root {
    type V = NodeModel;

    open spec fn view(&self) -> NodeModel {
        self.node@
    }
}

impl Root {
    /// A root directory of the given date that holds these entries.
    pub fn with_date(children: Vec<Node>, date: NodeDateTime) -> (r: FsResult<Root>)
        ensures
            match r {
                Ok(root) => root_of(models(children@), date) == Ok::<NodeModel, FsError>(root@),
                Err(e) => root_of(models(children@), date) == Err::<NodeModel, FsError>(e),
            },
    {
        match Dir::new(children) {
            Ok(dir) => {
                proof {
                    reveal_strlit("");
                    assert(""@ =~= Seq::<char>::empty());
                }
                Ok(Root { node: Node::dir("", date, dir) })
            },
            Err(e) => Err(e),
        }
    }

    /// A root directory that holds these entries, dated as `ROOT_DATE` says.
    /// There is none where the date is not understood or two entries share a
    /// name.
    pub fn new(children: Vec<Node>) -> (r: Option<Root>)
        ensures
            match r {
                Some(root) => root_of(models(children@), root@.date) == Ok::<NodeModel, FsError>(
                    root@,
                ),
                None => true,
            },
    {
        Root::with_optional_date(children, NodeDateTime::parse(ROOT_DATE))
    }

    /// A root directory that holds these entries, of the date that was
    /// read, if one was read. There is none where no date was read or two
    /// entries share a name.
    pub fn with_optional_date(children: Vec<Node>, date: Option<NodeDateTime>) -> (r: Option<Root>)
        ensures
            match r {
                Some(root) => root_if_dated(models(children@), date) == Some(root@),
                None => root_if_dated(models(children@), date) is None,
            },
    {
        match date {
            Some(d) => match Root::with_date(children, d) {
                Ok(root) => Some(root),
                Err(_) => None,
            },
            None => None,
        }
    }

    /// The entry that `path` reaches from the root.
    pub fn get_node(&self, path: &Path) -> (r: Option<&Node>)
        ensures
            match r {
                Some(n) => self@.lookup(path@) == Some(n@),
                None => self@.lookup(path@) is None,
            },
    {
        self.node.get_node(path)
    }

    /// The directory that `path` reaches from the root; nothing where it
    /// reaches no entry or one that is no directory.
    pub fn get_dir(&self, path: &Path) -> (r: Option<&Dir>)
        ensures
            match r {
                Some(d) => self@.lookup(path@) is Some && self@.lookup(path@)->0.content
                    == ContentModel::Dir(d@),
                None => self@.lookup(path@) is None || !(self@.lookup(path@)->0.content is Dir),
            },
    {
        match self.get_node(path) {
            Some(node) => node.as_dir(),
            None => None,
        }
    }
}


} // verus!
