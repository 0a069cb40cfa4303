use wikidot_fi::text::{
    chars_of, concatenate, parse_i32_of, rsplit_once, same_text, signed_decimal_of, split_first_field,
    split_last_field, split_once, strip_prefix_of, trim,
};

#[test]
fn trim_removes_surrounding_white_space() {
    assert_eq!(trim("  \t hello world \n"), "hello world");
    assert_eq!(trim("\u{3000}x\u{a0}"), "x");
    assert_eq!(trim("   "), "");
    assert_eq!(trim(""), "");
    assert_eq!(trim("a b"), "a b");
}

#[test]
fn trim_agrees_with_std() {
    for s in ["  a ", "\u{2028}b\u{85}", "\u{200b}c", "  \u{1680} d e \u{205f}", "no"] {
        assert_eq!(trim(s), s.trim());
    }
}

#[test]
fn split_once_uses_the_first_separator() {
    assert_eq!(split_once("post-123-4", '-'), Some(("post".to_string(), "123-4".to_string())));
    assert_eq!(split_once("nodash", '-'), None);
    assert_eq!(split_once("-x", '-'), Some(("".to_string(), "x".to_string())));
}

#[test]
fn rsplit_once_uses_the_last_separator() {
    assert_eq!(rsplit_once("forum/c-1/general", '/'), Some(("forum/c-1".to_string(), "general".to_string())));
    assert_eq!(rsplit_once("general", '/'), None);
}

#[test]
fn fields_of_a_split() {
    assert_eq!(split_last_field("page 1 of 12", ' '), "12");
    assert_eq!(split_last_field("single", ' '), "single");
    assert_eq!(split_last_field("trailing ", ' '), "");
    assert_eq!(split_first_field("scp-wiki.wikidot.com", '.'), "scp-wiki");
    assert_eq!(split_first_field("plain", '.'), "plain");
}

#[test]
fn strip_prefix_of_a_slash() {
    assert_eq!(strip_prefix_of("/forum/t-1/x", "/"), Some("forum/t-1/x".to_string()));
    assert_eq!(strip_prefix_of("forum", "/"), None);
    assert_eq!(strip_prefix_of("", "/"), None);
}

#[test]
fn parse_i32_accepts_what_std_accepts() {
    for s in [
        "0", "42", "+7", "-7", "-0", "2147483647", "-2147483648", "2147483648", "-2147483649", "", "+",
        "-", "12a", " 1", "1 ", "99999999999999999999", "٣", "007",
    ] {
        assert_eq!(parse_i32_of(s), s.parse::<i32>().ok(), "input {:?}", s);
    }
}

#[test]
fn decimal_rendering() {
    assert_eq!(signed_decimal_of(0), "0");
    assert_eq!(signed_decimal_of(2012), "2012");
    assert_eq!(signed_decimal_of(-45), "-45");
    assert_eq!(signed_decimal_of(i64::MIN), i64::MIN.to_string());
    assert_eq!(signed_decimal_of(i64::MAX), i64::MAX.to_string());
}

#[test]
fn decimal_reads_back() {
    for n in [0i32, 1, -1, 10, 2147483647, -2147483648, 123456] {
        assert_eq!(parse_i32_of(&signed_decimal_of(n as i64)), Some(n));
    }
}

#[test]
fn small_helpers() {
    assert_eq!(concatenate("ab", "cd"), "abcd");
    assert!(same_text("23000", "23000"));
    assert!(!same_text("23000", "2300"));
    assert_eq!(chars_of("héllo"), vec!['h', 'é', 'l', 'l', 'o']);
}
