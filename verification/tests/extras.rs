use terminal_client::completion::{
    complete, escape, find_unclosed_quote, find_unescaped_space, rfind_unescaped_space, unescape,
};
use terminal_client::computer::{Computer, ComputerBuilder, ComputerId, User};
use terminal_client::date::NodeDateTime;
use terminal_client::fs::File;
use terminal_client::game::Game;
use terminal_client::ipc::console::{parse_typed_bytes, show_bytes};
use terminal_client::path::Path;
use terminal_client::pinpad::{Pinpad, PinpadAction, PinpadButton, PinpadKey};
use terminal_client::subprocess::Builtin;

fn date() -> NodeDateTime {
    NodeDateTime { secs: 1705062600, nanos: 0 }
}

fn path(items: &[&str]) -> Path {
    Path::new(items.iter().map(|s| s.to_string()).collect())
}

fn chars(s: &str) -> Vec<char> {
    s.chars().collect()
}

fn machine() -> Computer {
    ComputerBuilder::with_root_date(date())
        .users(vec![User::new("root", "x")])
        .with_path("bin".to_string())
        .add_dir(&path(&[]), "bin", date())
        .add_dir(&path(&[]), "home", date())
        .add_dir(&path(&["home"]), "my docs", date())
        .add_file(&path(&["home"]), "music", date(), File::new(""))
        .add_file(&path(&["home"]), "notes", date(), File::new(""))
        .add_exe(&path(&["bin"]), "cat", date(), Builtin::Cat)
        .add_exe(&path(&["bin"]), "cd", date(), Builtin::Cd)
        .add_exe(&path(&["bin"]), "ls", date(), Builtin::Ls)
        .build()
}

#[test]
fn escape_puts_backslashes_before_spaces_and_quotes() {
    assert_eq!(escape("/home/my docs"), "/home/my\\ docs");
    assert_eq!(escape("a\"b'c"), "a\\\"b\\'c");
    assert_eq!(escape("plain"), "plain");
    assert_eq!(escape(""), "");
}

#[test]
fn unescape_drops_escapes_and_quoted_stretches() {
    assert_eq!(unescape(&chars("my\\ docs")), chars("my docs"));
    assert_eq!(unescape(&chars("a\\\\b")), chars("a\\b"));
    assert_eq!(unescape(&chars("a\"hidden\"b")), chars("ab"));
    assert_eq!(unescape(&chars("a'x\"y'b")), chars("ab"));
    assert_eq!(unescape(&chars("a\"\\\"b")), chars("a\""));
    assert_eq!(unescape(&chars("end\\")), chars("end"));
}

#[test]
fn quotes_and_spaces_are_found() {
    let line = chars("cat \"a b' c");
    assert_eq!(find_unclosed_quote(&line, line.len()), Some((4, '"')));
    assert_eq!(find_unclosed_quote(&line, 4), None);
    let closed = chars("cat \"a\" 'b");
    assert_eq!(find_unclosed_quote(&closed, 7), None);
    assert_eq!(find_unclosed_quote(&closed, closed.len()), Some((8, '\'')));
    let spaced = chars("ab cd\\ ef gh");
    assert_eq!(find_unescaped_space(&spaced, 0), Some(2));
    assert_eq!(find_unescaped_space(&spaced, 3), None);
    assert_eq!(find_unescaped_space(&spaced, 7), Some(2));
    assert_eq!(find_unescaped_space(&spaced, spaced.len()), None);
    assert_eq!(rfind_unescaped_space(&spaced, spaced.len()), Some(9));
    assert_eq!(rfind_unescaped_space(&spaced, 9), Some(6));
    assert_eq!(rfind_unescaped_space(&spaced, 6), Some(2));
    assert_eq!(rfind_unescaped_space(&spaced, 2), None);
}

#[test]
fn first_word_completes_to_executables() {
    let c = machine();
    assert_eq!(complete(&c, "c", 1), Some((0, vec!["cat".to_string(), "cd".to_string()])));
    assert_eq!(complete(&c, "", 0), Some((0, vec!["cat".into(), "cd".into(), "ls".into()])));
    assert_eq!(complete(&c, "x", 1), Some((0, vec![])));
}

#[test]
fn later_word_completes_to_entries_of_the_directory() {
    let c = machine();
    assert_eq!(
        complete(&c, "cat home/m", 10),
        Some((4, vec!["/home/music".to_string(), "/home/my\\ docs".to_string()]))
    );
    assert_eq!(
        complete(&c, "cat home/", 9),
        Some((4, vec!["/home/music".into(), "/home/my\\ docs".into(), "/home/notes".into()]))
    );
    assert_eq!(complete(&c, "cat nowhere/x", 13), Some((0, vec![])));
    assert_eq!(complete(&c, "cat b", 5), Some((4, vec!["/bin".to_string()])));
}

#[test]
fn completion_inside_a_quote_or_outside_the_line_offers_nothing() {
    let c = machine();
    assert_eq!(complete(&c, "cat \"ho", 7), None);
    assert_eq!(complete(&c, "cat", 9), None);
}

#[test]
fn pinpad_keys_move_and_turn() {
    let mut p = Pinpad::new();
    assert_eq!(p.code(), [0, 0, 0, 0]);
    assert_eq!(p.press(PinpadKey::Left), PinpadAction::PlaySfx);
    assert_eq!(p.selected, 3);
    assert_eq!(p.press(PinpadKey::Right), PinpadAction::PlaySfx);
    assert_eq!(p.selected, 0);
    assert_eq!(p.press(PinpadKey::Down), PinpadAction::PlaySfx);
    assert_eq!(p.code(), [9, 0, 0, 0]);
    assert_eq!(p.press(PinpadKey::Up), PinpadAction::PlaySfx);
    assert_eq!(p.press(PinpadKey::Up), PinpadAction::PlaySfx);
    assert_eq!(p.code(), [1, 0, 0, 0]);
    assert_eq!(p.press(PinpadKey::Other), PinpadAction::Nothing);
    assert_eq!(p.press(PinpadKey::Enter), PinpadAction::Submit);
    assert_eq!(p.code(), [1, 0, 0, 0]);
    assert_eq!(p.get(0), 1);
}

#[test]
fn pinpad_digits_and_backspace() {
    let mut p = Pinpad::new();
    for d in [4, 7, 1, 9, 2] {
        assert_eq!(p.press(PinpadKey::Digit(d)), PinpadAction::PlaySfx);
    }
    assert_eq!(p.code(), [4, 7, 1, 2]);
    assert_eq!(p.selected, 3);
    assert_eq!(p.press(PinpadKey::Digit(12)), PinpadAction::Nothing);
    assert_eq!(p.press(PinpadKey::Backspace), PinpadAction::PlaySfx);
    assert_eq!(p.code(), [4, 7, 1, 0]);
    assert_eq!(p.selected, 2);
    p.press(PinpadKey::Backspace);
    p.press(PinpadKey::Backspace);
    p.press(PinpadKey::Backspace);
    assert_eq!(p.code(), [0, 0, 0, 0]);
    assert_eq!(p.selected, 0);
}

#[test]
fn pinpad_clicks_select_then_turn() {
    let mut p = Pinpad::new();
    p.click(2, PinpadButton::Left);
    assert_eq!((p.selected, p.code()), (2, [0, 0, 0, 0]));
    p.click(2, PinpadButton::Left);
    assert_eq!(p.code(), [0, 0, 1, 0]);
    p.click(2, PinpadButton::Right);
    p.click(2, PinpadButton::Right);
    assert_eq!(p.code(), [0, 0, 9, 0]);
    p.click(2, PinpadButton::Middle);
    assert_eq!(p.code(), [0, 0, 9, 0]);
    p.click(0, PinpadButton::Right);
    assert_eq!((p.selected, p.code()), (0, [0, 0, 9, 0]));
}

#[test]
fn typed_bytes_are_read_two_digits_at_a_time() {
    assert_eq!(parse_typed_bytes("00 00 00 00 04 00 00 00", 8), vec![0, 0, 0, 0, 4, 0, 0, 0]);
    assert_eq!(parse_typed_bytes("dead BEEF\n", 8), vec![0xde, 0xad, 0xbe, 0xef]);
    assert_eq!(parse_typed_bytes("0x1f, zz 2", 8), vec![0x01, 0xf2]);
    assert_eq!(parse_typed_bytes("abc", 8), vec![0xab, 0x0c]);
    assert_eq!(parse_typed_bytes("0102030405", 3), vec![1, 2, 3]);
    assert_eq!(parse_typed_bytes("", 4), Vec::<u8>::new());
    assert_eq!(parse_typed_bytes("ff", 0), Vec::<u8>::new());
}

#[test]
fn bytes_are_shown_as_hexadecimal_numbers() {
    assert_eq!(show_bytes(&[0, 1, 15, 16, 255, 0xab]), "0 1 f 10 ff ab");
    assert_eq!(show_bytes(&[]), "");
    assert_eq!(show_bytes(&[7]), "7");
}

#[test]
fn change_computers_by_id_takes_the_first_of_that_identity() {
    let make = |name: &str, id: ComputerId| {
        ComputerBuilder::with_root_date(date())
            .name(name)
            .id(id)
            .users(vec![User::new("r", "p")])
            .build()
    };
    let mut g = Game::with_computers(vec![
        make("a", ComputerId::First),
        make("b", ComputerId::Second),
        make("c", ComputerId::Second),
    ])
    .unwrap();
    assert!(g.change_computers_by_id(ComputerId::Second));
    assert_eq!(g.current_computer().name, "b");
    assert!(g.change_computers_by_id(ComputerId::First));
    assert_eq!(g.current_computer().name, "a");
    let mut only_first = Game::with_computers(vec![make("a", ComputerId::First)]).unwrap();
    assert!(!only_first.change_computers_by_id(ComputerId::Second));
    assert_eq!(only_first.current_computer_index(), 0);
}
