use naso_compiler::lines::{lines, split_first, split_second, trim};

#[test]
fn lines_split_at_newlines() {
    assert_eq!(lines("a\nb"), vec!["a".to_string(), "b".to_string()]);
    assert_eq!(lines("a\nb\n"), vec!["a".to_string(), "b".to_string()]);
    assert_eq!(lines("a\n\nb"), vec!["a".to_string(), "".to_string(), "b".to_string()]);
    assert!(lines("").is_empty());
    assert_eq!(lines("\n"), vec!["".to_string()]);
}

#[test]
fn trim_removes_unicode_whitespace() {
    assert_eq!(trim("  x y \t\r"), "x y");
    assert_eq!(trim("\u{3000}mid\u{a0}"), "mid");
    assert_eq!(trim(" \n "), "");
    assert_eq!(trim("z"), "z");
}

#[test]
fn split_pieces() {
    assert_eq!(split_first("S0 = x", '='), "S0 ");
    assert_eq!(split_first("no equals", '='), "no equals");
    assert_eq!(split_second("name = \"A\" rest", '"'), Some("A".to_string()));
    assert_eq!(split_second("open \"tail", '"'), Some("tail".to_string()));
    assert_eq!(split_second("none", '"'), None);
}
