use lib::text::{
    contains_str, decimal_string, equal_ignoring_ascii_case, lines, split_class, split_whitespace, trim,
    CharClass,
};

fn strs(v: &[&str]) -> Vec<String> {
    v.iter().map(|s| s.to_string()).collect()
}

#[test]
fn lines_like_std() {
    for text in ["", "a", "a\n", "a\r\nb", "a\r", "\n", "\n\n", "a\nb\r\n", "x\r\r\ny", "é\nü"] {
        let expected: Vec<String> = text.lines().map(|l| l.to_string()).collect();
        assert_eq!(lines(text), expected, "{text:?}");
    }
}

#[test]
fn trim_like_std() {
    for text in ["", "  a b  ", "\u{3000}x\u{85}", "\t\n\r", "z"] {
        assert_eq!(trim(text), text.trim(), "{text:?}");
    }
}

#[test]
fn split_like_std() {
    assert_eq!(split_class("a\tb\t\tc", CharClass::Is('\t')), strs(&["a", "b", "", "c"]));
    assert_eq!(split_class("", CharClass::Is('\t')), strs(&[""]));
    for text in ["", "  a  b ", "one", "\u{2003}x\ty\n"] {
        let expected: Vec<String> = text.split_whitespace().map(|w| w.to_string()).collect();
        assert_eq!(split_whitespace(text), expected, "{text:?}");
    }
}

#[test]
fn search_helpers() {
    assert!(contains_str("hello", "ell"));
    assert!(contains_str("hello", ""));
    assert!(!contains_str("hello", "hellos"));
    assert!(equal_ignoring_ascii_case("AbC", "aBc"));
    assert!(!equal_ignoring_ascii_case("\u{c9}", "\u{e9}"));
    assert_eq!(decimal_string(0), "0");
    assert_eq!(decimal_string(4294967295), "4294967295");
}
