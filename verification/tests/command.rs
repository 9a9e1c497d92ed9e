use terminal_client::command::parse_command;

#[test]
fn tokenizer_quotes_and_escapes() {
    assert_eq!(parse_command("ls \"my dir\" extra\\ arg"), vec!["ls", "my dir", "extra arg"]);
}

#[test]
fn tokenizer_splits_on_white_space() {
    assert_eq!(parse_command("a b\tc\nd"), vec!["a", "b", "c", "d"]);
    assert_eq!(parse_command("  a   b  "), vec!["a", "b"]);
    assert_eq!(parse_command("a\u{a0}b\u{2003}c"), vec!["a", "b", "c"]);
}

#[test]
fn tokenizer_drops_empty_tokens() {
    assert_eq!(parse_command(""), Vec::<String>::new());
    assert_eq!(parse_command("   "), Vec::<String>::new());
    assert_eq!(parse_command("\"\""), Vec::<String>::new());
    assert_eq!(parse_command("a \"\" b"), vec!["a", "b"]);
}

#[test]
fn tokenizer_unmatched_quote_runs_to_the_end() {
    assert_eq!(parse_command("cat \"a b c"), vec!["cat", "a b c"]);
    assert_eq!(parse_command("\"  "), vec!["  "]);
}

#[test]
fn tokenizer_escape_takes_next_character_literally() {
    assert_eq!(parse_command("a\\\"b"), vec!["a\"b"]);
    assert_eq!(parse_command("a\\\\b"), vec!["a\\b"]);
    assert_eq!(parse_command("\\ "), vec![" "]);
    assert_eq!(parse_command("\"a\\\"b\""), vec!["a\"b"]);
    assert_eq!(parse_command("ab\\"), vec!["ab"]);
    assert_eq!(parse_command("\\n"), vec!["n"]);
}

#[test]
fn tokenizer_quotes_join_adjacent_text() {
    assert_eq!(parse_command("a\"b c\"d e"), vec!["ab cd", "e"]);
    assert_eq!(parse_command("'a b'"), vec!["'a", "b'"]);
}

#[test]
fn white_space_is_the_unicode_property() {
    let listed = |c: char| {
        ('\u{9}'..='\u{d}').contains(&c)
            || c == ' '
            || c == '\u{85}'
            || c == '\u{a0}'
            || c == '\u{1680}'
            || ('\u{2000}'..='\u{200a}').contains(&c)
            || c == '\u{2028}'
            || c == '\u{2029}'
            || c == '\u{202f}'
            || c == '\u{205f}'
            || c == '\u{3000}'
    };
    let mut count = 0;
    for code in 0..=0x10ffffu32 {
        if let Some(c) = char::from_u32(code) {
            assert_eq!(c.is_whitespace(), listed(c), "U+{code:04X}");
            let line: String = ['a', c, 'b'].iter().collect();
            let tokens = parse_command(&line).len();
            if listed(c) {
                count += 1;
                assert_eq!(tokens, 2, "U+{code:04X}");
            } else if c != '\\' && c != '"' {
                assert_eq!(tokens, 1, "U+{code:04X}");
            }
        }
    }
    assert_eq!(count, 25);
}
