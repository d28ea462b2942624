use smtp_relay::chars::{parse_decimal, trim, trim_end, trim_start, write_int, CharClass};
use smtp_relay::text::{begins_with, find, join, rfind, split};

fn chars(s: &str) -> Vec<char> {
    s.chars().collect()
}

fn string(s: Vec<char>) -> String {
    s.into_iter().collect()
}

#[test]
fn texts_are_searched() {
    assert_eq!(find(b"abcabc", b"ca"), Some(2));
    assert_eq!(find(b"abc", b"x"), None);
    assert_eq!(find(b"abc", b""), Some(0));
    assert_eq!(find(b"", b"a"), None);
    assert_eq!(rfind(b"abcabc", b'b'), Some(4));
    assert_eq!(rfind(b"abc", b'x'), None);
    assert!(begins_with(b"abc", b"ab"));
    assert!(!begins_with(b"a", b"ab"));
}

#[test]
fn split_and_join_undo_each_other() {
    let parts = split(b",a,,b,", b",");
    assert_eq!(
        parts,
        vec![b"".to_vec(), b"a".to_vec(), b"".to_vec(), b"b".to_vec(), b"".to_vec()]
    );
    assert_eq!(join(&parts, b","), b",a,,b,".to_vec());
    assert_eq!(split(b"", b","), vec![b"".to_vec()]);
    assert_eq!(join::<u8>(&vec![], b","), b"".to_vec());
}

#[test]
fn texts_are_trimmed_by_class() {
    let s = chars("\u{3000} \t<\"a b\">\u{85}\r\n");
    assert_eq!(string(trim(&s, CharClass::Whitespace)), "<\"a b\">");
    assert_eq!(string(trim(&chars("<\"a\">>"), CharClass::Angle)), "\"a\"");
    assert_eq!(string(trim(&chars("\"\"a\"b\""), CharClass::Quote)), "a\"b");
    assert_eq!(string(trim_start(&chars("  a "), CharClass::Whitespace)), "a ");
    assert_eq!(string(trim_end(&chars("a/b//"), CharClass::Slash)), "a/b");
    assert_eq!(string(trim_end(&chars("a\r\n\r"), CharClass::LineBreak)), "a");
    assert_eq!(string(trim(&chars(" \t "), CharClass::Whitespace)), "");
}

#[test]
fn whitespace_is_that_of_unicode() {
    for n in 0..0x11_0000u32 {
        if let Some(c) = char::from_u32(n) {
            assert_eq!(CharClass::Whitespace.contains(c), c.is_whitespace());
        }
    }
}

#[test]
fn decimal_numbers() {
    assert_eq!(parse_decimal("0", 10), Some(0));
    assert_eq!(parse_decimal("+10", 10), Some(10));
    assert_eq!(parse_decimal("11", 10), None);
    assert_eq!(parse_decimal("", 10), None);
    assert_eq!(parse_decimal("+", 10), None);
    assert_eq!(parse_decimal("-0", 10), None);
    assert_eq!(parse_decimal("1x", 100), None);
    assert_eq!(parse_decimal("18446744073709551615", u64::MAX), Some(u64::MAX));
    assert_eq!(parse_decimal("18446744073709551616", u64::MAX), None);
    assert_eq!(write_int(-120), "-120");
}
