use terminal_client::date::NodeDateTime;
use terminal_client::password::PasswordHelper;
use terminal_client::text::{
    clone_strings, push_padded_left, push_padded_right, replace_all, split_on, str_byte_len,
    str_lt, to_chars, to_decimal,
};

#[test]
fn str_lt_is_the_order_of_strings() {
    let samples = ["", "a", "ab", "b", "B", "é", "z", "aa", "a b", "10", "9", "\u{10000}", "\u{ffff}"];
    for a in samples {
        for b in samples {
            assert_eq!(str_lt(a, b), a < b, "{a:?} < {b:?}");
        }
    }
}

#[test]
fn split_on_keeps_empty_pieces() {
    assert_eq!(split_on("a;b", ';'), vec!["a", "b"]);
    assert_eq!(split_on("", ';'), vec![""]);
    assert_eq!(split_on(";a;;b;", ';'), vec!["", "a", "", "b", ""]);
    assert_eq!(split_on("abc", '/'), vec!["abc"]);
}

#[test]
fn replace_all_replaces_from_left_to_right() {
    assert_eq!(replace_all("a-b-c", "-", "+"), "a+b+c");
    assert_eq!(replace_all("aaaa", "aa", "b"), "bb");
    assert_eq!(replace_all("aaa", "aa", "b"), "ba");
    assert_eq!(replace_all("abc", "x", "y"), "abc");
    assert_eq!(replace_all("abc", "abcd", "y"), "abc");
    assert_eq!(replace_all("\\u@\\H", "\\u", "root"), "root@\\H");
    assert_eq!(replace_all("xyz", "", "!"), "xyz");
    assert_eq!(replace_all("", "a", "b"), "");
    assert_eq!(replace_all("héllo", "é", "e"), "hello");
}

#[test]
fn replace_all_agrees_with_std_for_patterns_that_are_not_empty() {
    let texts = ["", "abcabc", "aaaaa", "\\u@\\H \\w$ ", "ababab"];
    let pats = ["a", "ab", "aba", "\\u", "c", "abcabc"];
    for t in texts {
        for p in pats {
            assert_eq!(replace_all(t, p, "<>"), t.replace(p, "<>"));
        }
    }
}

#[test]
fn to_decimal_writes_numbers() {
    assert_eq!(to_decimal(0), "0");
    assert_eq!(to_decimal(7), "7");
    assert_eq!(to_decimal(10), "10");
    assert_eq!(to_decimal(1234567890), "1234567890");
    assert_eq!(to_decimal(usize::MAX), usize::MAX.to_string());
}

#[test]
fn padding_counts_characters() {
    let mut out = String::from(">");
    push_padded_right(&mut out, "ab", 5);
    out.push('|');
    push_padded_left(&mut out, "ab", 5);
    out.push('|');
    push_padded_right(&mut out, "abcdef", 3);
    out.push('|');
    push_padded_left(&mut out, "éé", 4);
    assert_eq!(out, ">ab   |   ab|abcdef|  éé");
}

#[test]
fn byte_length_and_characters() {
    assert_eq!(str_byte_len("héllo"), 6);
    assert_eq!(to_chars("héllo"), vec!['h', 'é', 'l', 'l', 'o']);
    let v = vec!["a".to_string(), "b".to_string()];
    assert_eq!(clone_strings(&v), v);
}

#[test]
fn date_text_is_what_chrono_prints() {
    let d = NodeDateTime { secs: 1431648000, nanos: 0 };
    assert_eq!(d.to_text(), "2015-05-15 00:00:00 UTC");
    let e = NodeDateTime { secs: 1705062600, nanos: 0 };
    assert_eq!(e.to_text(), "2024-01-12 12:30:00 UTC");
    let f = NodeDateTime { secs: 0, nanos: 500_000_000 };
    assert_eq!(f.to_text(), "1970-01-01 00:00:00.500 UTC");
}

#[test]
fn date_outside_the_calendar_has_no_text() {
    assert_eq!(NodeDateTime { secs: i64::MAX, nanos: 0 }.to_text(), "");
    assert_eq!(NodeDateTime { secs: 0, nanos: u32::MAX }.to_text(), "");
}

#[test]
fn date_parse_reads_usual_forms() {
    let d = NodeDateTime::parse("12 Jan 2024 12:30").expect("a date");
    assert_eq!(d.nanos, 0);
    assert!(d.to_text().starts_with("2024-01-1"));
    let utc = NodeDateTime::parse("2024-01-12T12:30:00Z").expect("a date with a zone");
    assert_eq!(utc, NodeDateTime { secs: 1705062600, nanos: 0 });
    assert!(NodeDateTime::parse("no date at all").is_none());
}

#[test]
fn password_helper_hides_the_line() {
    assert_eq!(PasswordHelper(true).highlight("secret"), "      ");
    assert_eq!(PasswordHelper(true).highlight("é"), "  ");
    assert_eq!(PasswordHelper(false).highlight("secret"), "secret");
    assert!(PasswordHelper(true).highlight_char());
    assert!(!PasswordHelper(false).highlight_char());
}

#[test]
fn date_parse_refuses_zones_of_a_day_or_more() {
    assert_eq!(NodeDateTime::parse("2021-01-01 00:00:00 +9900"), None);
    assert_eq!(NodeDateTime::parse("12:00 +9900"), None);
    assert_eq!(NodeDateTime::parse("2021-01-01 +24:00"), None);
    assert_eq!(NodeDateTime::parse("2021-01-01-2400"), None);
    assert_eq!(NodeDateTime::parse("May 02, 2021 15:51:31 -99:59"), None);
    assert_eq!(
        NodeDateTime::parse("2014-04-26 13:13:43 +0800"),
        Some(NodeDateTime { secs: 1398489223, nanos: 0 })
    );
    assert_eq!(
        NodeDateTime::parse("2014-04-26 13:13:44 +09:00"),
        Some(NodeDateTime { secs: 1398485624, nanos: 0 })
    );
    assert_eq!(
        NodeDateTime::parse("2021-01-01 00:00:00 -2359"),
        Some(NodeDateTime { secs: 1609545540, nanos: 0 })
    );
    assert!(NodeDateTime::parse("2021-12-25").is_some());
    assert!(NodeDateTime::parse("2021-12-31 23:59:59").is_some());
    assert!(NodeDateTime::parse("2019-11-29 08:08-08").is_some());
}

#[test]
fn date_parse_returns_for_assorted_texts() {
    let pieces = [
        "", " ", "+", "-", ":", ".", "/", ",", "T", "Z", "0", "1", "2", "9", "00", "12", "24",
        "25", "59", "60", "99", "2021", "1970", "9999", "0000", "Jan", "May", "Feb", "UTC",
        "GMT", "PST", "am", "PM", "at", "年", "月", "日", "1511648546", "1620021848429",
        "1620024872717915000", "9999999999", "9999999999999", "9999999999999999999",
    ];
    let mut seed: u64 = 0x2545_f491_4f6c_dd1d;
    let mut next = move || {
        seed ^= seed << 13;
        seed ^= seed >> 7;
        seed ^= seed << 17;
        seed
    };
    let mut read = 0;
    for _ in 0..20000 {
        let n = 1 + (next() % 9) as usize;
        let mut text = String::new();
        for _ in 0..n {
            text.push_str(pieces[(next() % pieces.len() as u64) as usize]);
        }
        if NodeDateTime::parse(&text).is_some() {
            read += 1;
        }
    }
    assert!(read > 0);
}
