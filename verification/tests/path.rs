use terminal_client::path::Path;

fn segs(items: &[&str]) -> Vec<String> {
    items.iter().map(|s| s.to_string()).collect()
}

#[test]
fn parse_relative_appends_to_base() {
    let base = Path::new(segs(&["home", "user"]));
    let p = Path::parse(&base, "docs/notes");
    assert_eq!(p.0, segs(&["home", "user", "docs", "notes"]));
}

#[test]
fn parse_drops_dot_and_empty_segments() {
    let base = Path::new(segs(&["a"]));
    let p = Path::parse(&base, "./b//c/.");
    assert_eq!(p.0, segs(&["a", "b", "c"]));
}

#[test]
fn parse_dot_dot_pops_previous_segment() {
    let base = Path::new(segs(&["a", "b"]));
    assert_eq!(Path::parse(&base, "../c").0, segs(&["a", "c"]));
    assert_eq!(Path::parse(&base, "x/..").0, segs(&["a", "b"]));
}

#[test]
fn parse_dot_dot_at_root_is_ignored() {
    let root = Path::default();
    assert_eq!(Path::parse(&root, "..").0, Vec::<String>::new());
    assert_eq!(Path::parse(&root, "../../x").0, segs(&["x"]));
    let base = Path::new(segs(&["a"]));
    assert_eq!(Path::parse(&base, "../../..").0, Vec::<String>::new());
}

#[test]
fn parse_absolute_ignores_base() {
    let b1 = Path::new(segs(&["a", "b"]));
    let b2 = Path::default();
    let b3 = Path::new(segs(&["zzz"]));
    assert_eq!(Path::parse(&b1, "/x/y").0, segs(&["x", "y"]));
    assert_eq!(Path::parse(&b2, "/x/y").0, segs(&["x", "y"]));
    assert_eq!(Path::parse(&b3, "/x/y").0, segs(&["x", "y"]));
}

#[test]
fn parse_empty_text_is_base() {
    let base = Path::new(segs(&["a", "b"]));
    assert_eq!(Path::parse(&base, "").0, segs(&["a", "b"]));
    assert_eq!(Path::parse(&base, "/").0, Vec::<String>::new());
}

#[test]
fn parse_normalizes_the_base_too() {
    let base = Path::new(segs(&["a", "..", "", ".", "b"]));
    assert_eq!(Path::parse(&base, "c").0, segs(&["b", "c"]));
}

#[test]
fn render_and_reparse_round_trip() {
    let p = Path::new(segs(&["usr", "local", "bin"]));
    let text = p.to_string();
    assert_eq!(text, "/usr/local/bin");
    let back = Path::parse(&Path::default(), &text);
    assert_eq!(back.0, p.0);
    let other = Path::parse(&Path::new(segs(&["elsewhere"])), &text);
    assert_eq!(other.0, p.0);
}

#[test]
fn root_renders_as_separator() {
    assert_eq!(Path::default().to_string(), "/");
    assert_eq!(Path::new(segs(&["a"])).to_string(), "/a");
}

#[test]
fn parent_and_basename() {
    let p = Path::new(segs(&["a", "b", "c"]));
    assert_eq!(p.parent().0, segs(&["a", "b"]));
    assert_eq!(p.basename(), Some("c".to_string()));
    let root = Path::default();
    assert_eq!(root.parent().0, Vec::<String>::new());
    assert_eq!(root.basename(), None);
}

#[test]
fn join_concatenates_segments() {
    let a = Path::new(segs(&["a", "b"]));
    let b = Path::new(segs(&["..", "c"]));
    assert_eq!(a.join(&b).0, segs(&["a", "b", "..", "c"]));
}

#[test]
fn normalized_resolves_segments() {
    let p = Path::new(segs(&["", "a", ".", "b", "..", "..", "..", "c", ".."]));
    assert_eq!(p.normalized().0, Vec::<String>::new());
    let q = Path::new(segs(&["a", "b", "..", "c"]));
    assert_eq!(q.normalized().0, segs(&["a", "c"]));
}

#[test]
fn format_with_and_without_drive() {
    let p = Path::new(segs(&["a", "b"]));
    assert_eq!(p.format(&Some("C".to_string())), "C:/a/b");
    assert_eq!(p.format(&None), "/a/b");
    assert_eq!(Path::default().format(&Some("D".to_string())), "D:/");
}

#[test]
fn clone_keeps_segments() {
    let p = Path::new(segs(&["a", "b"]));
    assert_eq!(p.clone().0, p.0);
}

#[test]
fn equality_is_segment_wise() {
    assert!(Path::new(segs(&["a", "b"])) == Path::new(segs(&["a", "b"])));
    assert!(Path::new(segs(&["a", "b"])) != Path::new(segs(&["a", "c"])));
    assert!(Path::new(segs(&["a"])) != Path::new(segs(&["a", "b"])));
    assert!(Path::default() == Path::new(vec![]));
    assert!(Path::new(segs(&["ab"])) != Path::new(segs(&["a", "b"])));
}

#[test]
fn order_is_segment_wise() {
    let samples = [
        segs(&[]),
        segs(&["a"]),
        segs(&["a", "b"]),
        segs(&["a", "c"]),
        segs(&["ab"]),
        segs(&["b"]),
        segs(&["B", "z"]),
        segs(&["a", ""]),
        segs(&["é"]),
    ];
    for x in &samples {
        for y in &samples {
            let (p, q) = (Path::new(x.clone()), Path::new(y.clone()));
            assert_eq!(p.partial_cmp(&q), x.partial_cmp(y), "{x:?} and {y:?}");
            assert_eq!(p < q, x < y);
            assert_eq!(p <= q, x <= y);
            assert_eq!(p == q, x == y);
        }
    }
}
