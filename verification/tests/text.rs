use mcconsole::text::{lines, parse_i64, split_char, split_whitespace};

fn strs(v: &[&str]) -> Vec<String> {
    v.iter().map(|s| s.to_string()).collect()
}

#[test]
fn split_char_keeps_empty_pieces() {
    assert_eq!(split_char("a,b", ','), strs(&["a", "b"]));
    assert_eq!(split_char("", ','), strs(&[""]));
    assert_eq!(split_char(",", ','), strs(&["", ""]));
    assert_eq!(split_char("a,,b,", ','), strs(&["a", "", "b", ""]));
}

#[test]
fn lines_follow_str_lines() {
    assert_eq!(lines("foo\r\nbar\n\nbaz\r"), strs(&["foo", "bar", "", "baz\r"]));
    assert_eq!(lines(""), strs(&[]));
    assert_eq!(lines("a\n"), strs(&["a"]));
    assert_eq!(lines("\n"), strs(&[""]));
    assert_eq!(lines("one"), strs(&["one"]));
    for s in ["x\r\n\r\ny", "a\nb\n", "\r\n", "p\rq\n"] {
        let expected: Vec<String> = s.lines().map(|l| l.to_string()).collect();
        assert_eq!(lines(s), expected);
    }
}

#[test]
fn split_whitespace_follows_std() {
    assert_eq!(split_whitespace("  a  b\tc\n"), strs(&["a", "b", "c"]));
    assert_eq!(split_whitespace(""), strs(&[]));
    assert_eq!(split_whitespace(" \u{3000} "), strs(&[]));
    let s = "x\u{a0}y\u{2003}z w";
    let expected: Vec<String> = s.split_whitespace().map(|w| w.to_string()).collect();
    assert_eq!(split_whitespace(s), expected);
}

#[test]
fn parse_i64_follows_std() {
    for s in [
        "0", "+5", "-0", "42", "-17", "9223372036854775807", "-9223372036854775808",
        "9223372036854775808", "-9223372036854775809", "", "-", "+", "1a", " 1", "+-1",
        "00012", "99999999999999999999",
    ] {
        assert_eq!(parse_i64(s), s.parse::<i64>().ok(), "input {:?}", s);
    }
    assert_eq!(parse_i64("-9223372036854775808"), Some(i64::MIN));
}
