use submora::rules::{
    is_strong_password, is_valid_password_length, is_valid_source_url, is_valid_username,
    normalize_links_preserve_order,
};
use submora::text::{
    contains_chars, decimal_chars, is_whitespace, join_chars, split_chars, split_once_chars,
    to_ascii_lower, trim_chars,
};

fn chars_of(text: &str) -> Vec<char> {
    text.chars().collect()
}

fn s(v: &Vec<char>) -> String {
    v.iter().collect()
}

#[test]
fn trim_removes_unicode_whitespace_at_both_ends() {
    let v = chars_of("\u{3000}\t hello world \n\u{a0}");
    assert_eq!(s(&trim_chars(&v)), "hello world");
    assert_eq!(s(&trim_chars(&chars_of("   "))), "");
    assert_eq!(s(&trim_chars(&chars_of(""))), "");
    assert!(is_whitespace('\u{2028}'));
    assert!(!is_whitespace('x'));
}

#[test]
fn split_keeps_empty_pieces_like_str_split() {
    let parts = split_chars(&chars_of("a,,b,"), ',');
    let texts: Vec<String> = parts.iter().map(s).collect();
    assert_eq!(texts, vec!["a", "", "b", ""]);
    let parts = split_chars(&chars_of(""), ',');
    assert_eq!(parts.len(), 1);
    assert!(parts[0].is_empty());
}

#[test]
fn join_undoes_split() {
    let text = "line one\n\nline three\n";
    let parts = split_chars(&chars_of(text), '\n');
    assert_eq!(s(&join_chars(&parts, '\n')), text);
}

#[test]
fn split_once_uses_first_separator() {
    let (a, b) = split_once_chars(&chars_of("host:1=addr=x"), '=').unwrap();
    assert_eq!(s(&a), "host:1");
    assert_eq!(s(&b), "addr=x");
    assert!(split_once_chars(&chars_of("no separator"), '=').is_none());
}

#[test]
fn contains_and_lowercase_and_decimal() {
    assert!(contains_chars(&chars_of("text/html; charset=utf-8"), &chars_of("text/html")));
    assert!(!contains_chars(&chars_of("text/plain"), &chars_of("text/html")));
    assert!(contains_chars(&chars_of("abc"), &chars_of("")));
    assert_eq!(s(&to_ascii_lower(&chars_of("AlPhA-Ä"))), "alpha-Ä");
    assert_eq!(s(&decimal_chars(0)), "0");
    assert_eq!(s(&decimal_chars(10485760)), "10485760");
    assert_eq!(s(&decimal_chars(u64::MAX)), u64::MAX.to_string());
}

#[test]
fn username_rules_reject_non_ascii_and_punctuation() {
    assert!(is_valid_username("A-Z_09"));
    assert!(!is_valid_username("ünicode"));
    assert!(!is_valid_username("dot.name"));
}

#[test]
fn password_length_is_counted_in_characters() {
    assert!(!is_valid_password_length(""));
    assert!(is_valid_password_length(&"é".repeat(128)));
    assert!(!is_valid_password_length(&"a".repeat(129)));
    assert!(is_strong_password("A1!"));
    assert!(is_strong_password("a1 é"));
    assert!(!is_strong_password(&format!("Aa1!{}", "x".repeat(125))));
}

#[test]
fn source_url_rules() {
    assert!(is_valid_source_url("https://1.2.3.4:8443/x"));
    assert!(!is_valid_source_url("mailto:someone@example.com"));
    assert!(is_valid_source_url(" https://example.com"));
}

#[test]
fn normalize_links_reports_first_invalid_link() {
    let links = vec![
        "https://example.com/a".to_string(),
        "  ftp://example.com/b  ".to_string(),
        "not-a-url".to_string(),
    ];
    assert_eq!(
        normalize_links_preserve_order(&links, 10),
        Err("invalid url: ftp://example.com/b".to_string())
    );
}

#[test]
fn normalize_links_enforces_limit_after_dedupe() {
    let links = vec![
        "https://example.com/a".to_string(),
        "https://example.com/a".to_string(),
        "https://example.com/b".to_string(),
    ];
    assert_eq!(normalize_links_preserve_order(&links, 2).unwrap().len(), 2);
    assert_eq!(
        normalize_links_preserve_order(&links, 1),
        Err("maximum 1 links allowed".to_string())
    );
}

#[test]
fn normalize_links_is_idempotent_on_example() {
    let links = vec![
        "  https://example.com/b".to_string(),
        "https://example.com/a ".to_string(),
        "".to_string(),
        "https://example.com/b".to_string(),
    ];
    let once = normalize_links_preserve_order(&links, 5).unwrap();
    let twice = normalize_links_preserve_order(&once, 5).unwrap();
    assert_eq!(once, twice);
    assert_eq!(once, vec!["https://example.com/b", "https://example.com/a"]);
}
