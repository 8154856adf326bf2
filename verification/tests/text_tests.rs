use epg::text::{
    append, chars_of, contains_chars, decimal_string, is_blank, lex_le_exec, owned,
    signed_decimal_string, string_of, text_eq, trim_chars,
};

fn cs(s: &str) -> Vec<char> {
    s.chars().collect()
}

#[test]
fn blank_means_only_whitespace() {
    assert!(is_blank(""));
    assert!(is_blank(" \t\n\u{a0}"));
    assert!(!is_blank("  x "));
}

#[test]
fn trim_drops_whitespace_at_both_ends() {
    assert_eq!(trim_chars(&cs("  a b \n")), cs("a b"));
    assert_eq!(trim_chars(&cs("   ")), cs(""));
}

#[test]
fn chars_and_strings_convert_both_ways() {
    assert_eq!(chars_of("héllo"), cs("héllo"));
    assert_eq!(string_of(&cs("héllo")), "héllo");
    let mut s = owned("ab");
    append(&mut s, "cd");
    assert_eq!(s, "abcd");
}

#[test]
fn text_eq_compares_characters() {
    assert!(text_eq("tv", "tv"));
    assert!(!text_eq("tv", "TV"));
}

#[test]
fn contains_finds_a_run_of_characters() {
    assert!(contains_chars(&cs("morning news"), &cs("news")));
    assert!(contains_chars(&cs("x"), &cs("")));
    assert!(!contains_chars(&cs("new"), &cs("news")));
}

#[test]
fn lexicographic_order_puts_prefixes_first() {
    assert!(lex_le_exec(&cs("apple"), &cs("banana")));
    assert!(lex_le_exec(&cs("app"), &cs("apple")));
    assert!(!lex_le_exec(&cs("apple"), &cs("app")));
    assert!(lex_le_exec(&cs("same"), &cs("same")));
}

#[test]
fn decimal_string_writes_digits() {
    assert_eq!(decimal_string(0), "0");
    assert_eq!(decimal_string(1234567890), "1234567890");
    assert_eq!(decimal_string(u64::MAX), u64::MAX.to_string());
}

#[test]
fn signed_decimal_string_writes_the_sign() {
    assert_eq!(signed_decimal_string(-42), "-42");
    assert_eq!(signed_decimal_string(0), "0");
    assert_eq!(signed_decimal_string(i128::MIN), i128::MIN.to_string());
    assert_eq!(signed_decimal_string(i128::MAX), i128::MAX.to_string());
}

#[test]
fn blank_agrees_with_std_whitespace_on_every_char() {
    for u in 0u32..=0x10FFFF {
        if let Some(c) = char::from_u32(u) {
            let s = c.to_string();
            assert_eq!(is_blank(&s), c.is_whitespace(), "{u:#x}");
        }
    }
}
