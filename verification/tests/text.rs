use joke_greeting::text::{
    chars_of, join_text, lines_of, same_text, split_text, string_of, trim_bounds, LINE_ENDING,
};

fn owned(parts: &[&str]) -> Vec<String> {
    parts.iter().map(|p| p.to_string()).collect()
}

#[test]
fn line_ending_is_a_line_feed() {
    assert_eq!(LINE_ENDING, "\n");
}

#[test]
fn chars_and_back() {
    let v = chars_of("a\u{e9}z");
    assert_eq!(v, vec!['a', '\u{e9}', 'z']);
    assert_eq!(string_of(&v, 0, 3), "a\u{e9}z");
    assert_eq!(string_of(&v, 1, 2), "\u{e9}");
    assert_eq!(string_of(&v, 2, 2), "");
    assert_eq!(chars_of(""), Vec::<char>::new());
}

#[test]
fn split_keeps_empty_pieces() {
    assert_eq!(split_text("", ','), owned(&[""]));
    assert_eq!(split_text("a", ','), owned(&["a"]));
    assert_eq!(split_text("a,b", ','), owned(&["a", "b"]));
    assert_eq!(split_text(",a,,b,", ','), owned(&["", "a", "", "b", ""]));
}

#[test]
fn split_agrees_with_std() {
    for s in ["", ",", "x,y,z", ",,", "no comma", "a,\u{e9},"] {
        let want: Vec<String> = s.split(',').map(|p| p.to_string()).collect();
        assert_eq!(split_text(s, ','), want);
    }
}

#[test]
fn join_puts_separator_between() {
    assert_eq!(join_text(&owned(&[]), ", "), "");
    assert_eq!(join_text(&owned(&["a"]), ", "), "a");
    assert_eq!(join_text(&owned(&["a", "b", "c"]), ", "), "a, b, c");
    assert_eq!(join_text(&owned(&["", ""]), "-"), "-");
}

#[test]
fn join_undoes_split() {
    for s in ["", ",", "x,y,z", ",,", "plain"] {
        assert_eq!(join_text(&split_text(s, ','), ","), s);
    }
}

#[test]
fn trim_bounds_skip_white_space() {
    assert_eq!(trim_bounds(&chars_of("  ab c \t\n")), (2, 6));
    assert_eq!(trim_bounds(&chars_of("abc")), (0, 3));
    assert_eq!(trim_bounds(&chars_of("")), (0, 0));
    assert_eq!(trim_bounds(&chars_of("   ")), (3, 3));
    assert_eq!(trim_bounds(&chars_of("\u{a0}x\u{3000}")), (1, 2));
}

#[test]
fn lines_end_at_line_feeds() {
    assert_eq!(lines_of(""), owned(&[]));
    assert_eq!(lines_of("a"), owned(&["a"]));
    assert_eq!(lines_of("a\n"), owned(&["a"]));
    assert_eq!(lines_of("a\nb"), owned(&["a", "b"]));
    assert_eq!(lines_of("a\n\nb\n"), owned(&["a", "", "b"]));
    assert_eq!(lines_of("\n"), owned(&[""]));
    assert_eq!(lines_of("a\n\n"), owned(&["a", ""]));
}

#[test]
fn lines_drop_carriage_return_before_line_feed() {
    assert_eq!(lines_of("a\r\nb\r\n"), owned(&["a", "b"]));
    assert_eq!(lines_of("a\r\r\nb"), owned(&["a\r", "b"]));
    assert_eq!(lines_of("a\rb\n"), owned(&["a\rb"]));
    assert_eq!(lines_of("a\nb\r"), owned(&["a", "b\r"]));
}

#[test]
fn lines_agree_with_std() {
    for s in ["", "\n", "a\nb", "a\r\nb\r\n", "x\n\ny\n", "\r\n", "a\r", "\n\n\n", "a\r\r\n"] {
        let want: Vec<String> = s.lines().map(|p| p.to_string()).collect();
        assert_eq!(lines_of(s), want, "{:?}", s);
    }
}

#[test]
fn same_text_compares_characters() {
    assert!(same_text("", ""));
    assert!(same_text("abc", "abc"));
    assert!(!same_text("abc", "abd"));
    assert!(!same_text("abc", "ab"));
    assert!(!same_text("", "a"));
}
