use netanvil::text::{
    decimal_text, joined, joined3, parse_number, same, second_part, split_chars, split_once,
    starts_with, strip_prefix, trimmed,
};

#[test]
fn numbers_are_read_as_std_reads_them() {
    let texts = ["0", "7", "+7", "007", "255", "256", "+", "", "-1", " 1", "1 ", "99999999999999999999"];
    for text in texts {
        assert_eq!(parse_number(text, 255), text.parse::<u8>().ok().map(u64::from), "{text}");
        assert_eq!(parse_number(text, u64::MAX), text.parse::<u64>().ok(), "{text}");
    }
    assert_eq!(decimal_text(0), "0");
    assert_eq!(decimal_text(u64::MAX), u64::MAX.to_string());
}

#[test]
fn texts_are_split_and_trimmed() {
    assert_eq!(trimmed(" \t a b \u{a0}\n"), "a b");
    assert_eq!(trimmed(""), "");
    assert_eq!(split_chars("a,,b", ','), vec!["a", "", "b"]);
    assert_eq!(split_once("k=v=w", '='), Some(("k".to_string(), "v=w".to_string())));
    assert_eq!(split_once("kv", '='), None);
    assert_eq!(second_part("a--b--c", "--"), Some("b".to_string()));
    assert_eq!(second_part("a--b", "--"), Some("b".to_string()));
    assert_eq!(second_part("ab", "--"), None);
    assert_eq!(strip_prefix("tcp://x", "tcp://"), Some("x".to_string()));
    assert_eq!(strip_prefix("udp://x", "tcp://"), None);
    assert!(starts_with("abc", "ab") && !starts_with("ab", "abc"));
    assert!(same("ä", "ä") && !same("a", "b"));
    assert_eq!(joined("a", "b"), "ab");
    assert_eq!(joined3("a", "b", "c"), "abc");
}
