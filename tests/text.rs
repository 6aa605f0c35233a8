use sectrails::fuzzy::Fuzzier;
use sectrails::reader::{keep_nonblank, split_lines};

#[test]
fn fuzzy_contains_is_ordered_subsequence() {
    let s = "securitytrails".to_string();
    assert!(s.fuzzy_contains("sctr"));
    assert!(s.fuzzy_contains("securitytrails"));
    assert!(!s.fuzzy_contains("trs s"));
    assert!(!s.fuzzy_contains("zz"));
    assert!(s.fuzzy_contains(""));
    assert!(!String::new().fuzzy_contains(""));
    assert!(!String::new().fuzzy_contains("a"));
}

#[test]
fn fuzzy_score_counts_matched_pattern_chars() {
    let s = "example.com".to_string();
    assert_eq!(s.fuzzy_score("exm"), 3);
    assert_eq!(s.fuzzy_score("exz"), 2);
    assert_eq!(s.fuzzy_score("moc"), 2);
    assert_eq!(s.fuzzy_score(""), 0);
    assert_eq!(String::new().fuzzy_score("abc"), 0);
}

#[test]
fn split_lines_keeps_every_piece() {
    assert_eq!(split_lines("a\n\nb"), vec!["a", "", "b"]);
    assert_eq!(split_lines("a\n"), vec!["a", ""]);
    assert_eq!(split_lines(""), vec![""]);
    assert_eq!(split_lines(" x \r\ny"), vec![" x \r", "y"]);
}

#[test]
fn keep_nonblank_drops_empty_lines_only() {
    let lines = vec!["a".to_string(), String::new(), " ".to_string(), "b".to_string()];
    assert_eq!(keep_nonblank(lines), vec!["a", " ", "b"]);
}
