use terminal_client::date::NodeDateTime;
use terminal_client::fs::{Dir, File, FsError, Node, NodeContent, Root};
use terminal_client::path::Path;
use terminal_client::security::{Security, SecurityMode};
use terminal_client::subprocess::Builtin;

fn date() -> NodeDateTime {
    NodeDateTime { secs: 1705062600, nanos: 0 }
}

fn path(items: &[&str]) -> Path {
    Path::new(items.iter().map(|s| s.to_string()).collect())
}

fn names(dir: &Dir) -> Vec<String> {
    dir.children().iter().map(|n| n.name.clone()).collect()
}

fn child_names(node: &Node) -> Vec<String> {
    names(node.as_dir().expect("a directory"))
}

#[test]
fn add_child_keeps_children_sorted_and_unique() {
    let mut dir = Dir::empty();
    for name in ["m", "b", "z", "a", "q", "ab", "B"] {
        assert_eq!(dir.add_child(Node::file(name, date(), File::new(name))), Ok(()));
    }
    assert_eq!(names(&dir), vec!["B", "a", "ab", "b", "m", "q", "z"]);
    assert_eq!(dir.len(), 7);
}

#[test]
fn add_child_duplicate_is_refused_and_changes_nothing() {
    let mut dir = Dir::empty();
    assert_eq!(dir.add_child(Node::file("x", date(), File::new("first"))), Ok(()));
    assert_eq!(dir.add_child(Node::file("y", date(), File::new("other"))), Ok(()));
    let again = dir.add_child(Node::dir("x", date(), Dir::empty()));
    assert_eq!(again, Err(FsError::AlreadyExists));
    assert_eq!(names(&dir), vec!["x", "y"]);
    let x = dir.get_child("x").expect("x stays");
    assert_eq!(x.as_file().expect("x stays a file").content, "first");
}

#[test]
fn names_are_ordered_by_code_point() {
    let mut dir = Dir::empty();
    for name in ["é", "z", "Z", "", "a b", "a", "10", "9"] {
        assert_eq!(dir.add_child(Node::file(name, date(), File::new(""))), Ok(()));
    }
    let mut expected = vec!["é", "z", "Z", "", "a b", "a", "10", "9"];
    expected.sort();
    assert_eq!(names(&dir), expected);
}

#[test]
fn binary_search_finds_or_gives_insertion_point() {
    let mut dir = Dir::empty();
    for name in ["b", "d", "f"] {
        dir.add_child(Node::file(name, date(), File::new(""))).unwrap();
    }
    assert_eq!(dir.binary_search("b"), Ok(0));
    assert_eq!(dir.binary_search("d"), Ok(1));
    assert_eq!(dir.binary_search("f"), Ok(2));
    assert_eq!(dir.binary_search("a"), Err(0));
    assert_eq!(dir.binary_search("c"), Err(1));
    assert_eq!(dir.binary_search("e"), Err(2));
    assert_eq!(dir.binary_search("g"), Err(3));
    assert_eq!(dir.get_child_index("d"), Some(1));
    assert_eq!(dir.get_child_index("dd"), None);
    assert_eq!(Dir::empty().binary_search("x"), Err(0));
}

#[test]
fn dir_new_sorts_entries() {
    let dir = Dir::new(vec![
        Node::file("wow", date(), File::new("1")),
        Node::dir("test", date(), Dir::empty()),
        Node::file("hello", date(), File::new("2")),
    ])
    .expect("distinct names");
    assert_eq!(names(&dir), vec!["hello", "test", "wow"]);
}

#[test]
fn dir_new_refuses_two_entries_of_one_name() {
    let r = Dir::new(vec![
        Node::file("a", date(), File::new("1")),
        Node::file("b", date(), File::new("2")),
        Node::dir("a", date(), Dir::empty()),
    ]);
    assert!(matches!(r, Err(FsError::AlreadyExists)));
}

#[test]
fn new_entries_have_default_security() {
    let d = Node::dir("d", date(), Dir::empty());
    assert_eq!(d.owner_security.to_string(), "rw-");
    assert_eq!(d.other_security.to_string(), "r--");
    let f = Node::file("f", date(), File::new("x"));
    assert_eq!(f.owner_security.to_string(), "rw-");
    assert_eq!(f.other_security.to_string(), "r--");
    let e = Node::exe("e", date(), Builtin::Ls);
    assert_eq!(e.owner_security.to_string(), "--x");
    assert_eq!(e.other_security.to_string(), "--x");
    assert_eq!(e.owner_security, Security::from_mode(SecurityMode::Execute));
}

#[test]
fn security_contains_and_text() {
    let all = Security::from_mode(SecurityMode::All);
    assert_eq!(all.to_string(), "rwx");
    assert!(all.contains(SecurityMode::RW));
    let rw = Security::from_mode(SecurityMode::RW);
    assert!(rw.contains(SecurityMode::Read));
    assert!(rw.contains(SecurityMode::Write));
    assert!(!rw.contains(SecurityMode::Execute));
    assert!(!rw.contains(SecurityMode::All));
    assert_eq!(Security { mask: 0 }.to_string(), "---");
    assert_eq!(Security { mask: 5 }.to_string(), "r-x");
    assert_eq!(Security::from_mode(SecurityMode::Write).to_string(), "-w-");
}

#[test]
fn classification_and_typed_accessors() {
    let d = Node::dir("d", date(), Dir::empty());
    assert!(d.is_dir() && !d.is_file() && !d.is_exe());
    assert!(d.as_dir().is_some() && d.as_file().is_none() && d.as_exe().is_none());
    let f = Node::file("f", date(), File::new("text"));
    assert!(!f.is_dir() && f.is_file() && !f.is_exe());
    assert_eq!(f.as_file().unwrap().content, "text");
    assert!(f.as_dir().is_none() && f.as_exe().is_none());
    let e = Node::exe("e", date(), Builtin::Cat);
    assert!(!e.is_dir() && !e.is_file() && e.is_exe());
    assert_eq!(e.as_exe(), Some(Builtin::Cat));
    assert!(matches!(e.content, NodeContent::Executable(Builtin::Cat)));
}

fn sample_root() -> Root {
    let mut root = Root::with_date(vec![], date()).unwrap();
    root.node.add_node(&path(&[]), Node::dir("home", date(), Dir::empty())).unwrap();
    root.node.add_node(&path(&["home"]), Node::dir("user", date(), Dir::empty())).unwrap();
    root.node
        .add_node(&path(&["home", "user"]), Node::file("notes", date(), File::new("remember")))
        .unwrap();
    root.node.add_node(&path(&[]), Node::file("readme", date(), File::new("hi"))).unwrap();
    root
}

#[test]
fn get_node_walks_the_path() {
    let root = sample_root();
    let top = root.get_node(&path(&[])).expect("the root itself");
    assert_eq!(top.name, "");
    assert!(top.is_dir());
    let user = root.get_node(&path(&["home", "user"])).expect("home/user");
    assert_eq!(user.name, "user");
    let notes = root.get_node(&path(&["home", "user", "notes"])).expect("notes");
    assert_eq!(notes.as_file().unwrap().content, "remember");
}

#[test]
fn get_node_absent_or_through_a_file_is_none() {
    let root = sample_root();
    assert!(root.get_node(&path(&["nothing"])).is_none());
    assert!(root.get_node(&path(&["home", "other"])).is_none());
    assert!(root.get_node(&path(&["readme", "inside"])).is_none());
    assert!(root.get_node(&path(&["home", "user", "notes", "deeper"])).is_none());
    assert!(root.get_node(&path(&[".."])).is_none());
}

#[test]
fn get_dir_gives_directories_only() {
    let root = sample_root();
    assert_eq!(names(root.get_dir(&path(&["home"])).unwrap()), vec!["user"]);
    assert!(root.get_dir(&path(&["readme"])).is_none());
    assert!(root.get_dir(&path(&["missing"])).is_none());
}

#[test]
fn add_node_errors() {
    let mut root = sample_root();
    let missing = root.node.add_node(&path(&["nope"]), Node::file("f", date(), File::new("")));
    assert_eq!(missing, Err(FsError::DoesNotExist));
    let through_file =
        root.node.add_node(&path(&["readme", "x"]), Node::file("f", date(), File::new("")));
    assert_eq!(through_file, Err(FsError::DoesNotExist));
    let into_file = root.node.add_node(&path(&["readme"]), Node::file("f", date(), File::new("")));
    assert_eq!(into_file, Err(FsError::NotDirectory));
    let twice = root.node.add_node(&path(&["home"]), Node::file("user", date(), File::new("")));
    assert_eq!(twice, Err(FsError::AlreadyExists));
    assert_eq!(child_names(&root.node), vec!["home", "readme"]);
    assert_eq!(child_names(root.get_node(&path(&["home"])).unwrap()), vec!["user"]);
    assert!(root.get_node(&path(&["home", "user"])).unwrap().is_dir());
}

#[test]
fn add_node_inserts_deep_in_the_tree() {
    let mut root = sample_root();
    let r = root.node.add_node(&path(&["home", "user"]), Node::exe("run", date(), Builtin::Ls));
    assert_eq!(r, Ok(()));
    let r = root.node.add_node(&path(&["home", "user"]), Node::dir("docs", date(), Dir::empty()));
    assert_eq!(r, Ok(()));
    let user = root.get_node(&path(&["home", "user"])).unwrap();
    assert_eq!(child_names(user), vec!["docs", "notes", "run"]);
    assert_eq!(root.get_node(&path(&["home", "user", "run"])).unwrap().as_exe(), Some(Builtin::Ls));
}

#[test]
fn node_add_child_on_a_file_is_not_directory() {
    let mut f = Node::file("f", date(), File::new("x"));
    assert_eq!(f.add_child(Node::file("g", date(), File::new(""))), Err(FsError::NotDirectory));
    let mut e = Node::exe("e", date(), Builtin::Help);
    assert_eq!(e.add_child(Node::file("g", date(), File::new(""))), Err(FsError::NotDirectory));
    let mut d = Node::dir("d", date(), Dir::empty());
    assert_eq!(d.add_child(Node::file("g", date(), File::new(""))), Ok(()));
    assert_eq!(d.add_child(Node::file("g", date(), File::new(""))), Err(FsError::AlreadyExists));
}

#[test]
fn root_is_a_nameless_directory() {
    let root = Root::with_date(
        vec![Node::file("b", date(), File::new("")), Node::file("a", date(), File::new(""))],
        date(),
    )
    .unwrap();
    assert_eq!(root.node.name, "");
    assert_eq!(root.node.date, date());
    assert_eq!(child_names(&root.node), vec!["a", "b"]);
    let twice = Root::with_date(
        vec![Node::file("a", date(), File::new("")), Node::file("a", date(), File::new(""))],
        date(),
    );
    assert!(matches!(twice, Err(FsError::AlreadyExists)));
}

#[test]
fn root_new_reads_its_date() {
    let root = Root::new(vec![Node::file("a", date(), File::new(""))]).expect("the date is read");
    assert_eq!(child_names(&root.node), vec!["a"]);
    assert!(Root::new(vec![
        Node::file("a", date(), File::new("")),
        Node::file("a", date(), File::new(""))
    ])
    .is_none());
}

#[test]
fn file_clone_keeps_content() {
    let f = File::new("abc");
    assert_eq!(f.clone().content, "abc");
}

#[test]
fn root_with_optional_date_wants_a_date_and_distinct_names() {
    let made = Root::with_optional_date(
        vec![Node::file("b", date(), File::new("")), Node::file("a", date(), File::new(""))],
        Some(date()),
    )
    .expect("a date and distinct names");
    assert_eq!(made.node.date, date());
    assert_eq!(child_names(&made.node), vec!["a", "b"]);
    assert!(Root::with_optional_date(vec![Node::file("a", date(), File::new(""))], None).is_none());
    assert!(Root::with_optional_date(
        vec![Node::file("a", date(), File::new("")), Node::dir("a", date(), Dir::empty())],
        Some(date()),
    )
    .is_none());
}
