use smtp_relay::quoting::{enclosed_end, escape, find_outside, split_entries, unescape};

fn chars(s: &str) -> Vec<char> {
    s.chars().collect()
}

fn string(s: &[char]) -> String {
    s.iter().collect()
}

#[test]
fn escapes_are_undone() {
    for text in ["", "a", "\"", "\\", "a \"b\" \\ c"] {
        assert_eq!(string(&unescape(&chars(&escape(&chars(text))))), text);
    }
    assert_eq!(escape(&chars("a\"b\\")), "a\\\"b\\\\");
    assert_eq!(string(&unescape(&chars("a\\bc\\"))), "abc\\");
}

#[test]
fn quoted_strings_and_comments_have_ends() {
    assert_eq!(enclosed_end(&chars("\"a\\\"b\" c"), 0), Some(6));
    assert_eq!(enclosed_end(&chars("x(a\"b)"), 1), Some(6));
    assert_eq!(enclosed_end(&chars("\"a"), 0), None);
    assert_eq!(enclosed_end(&chars("\"a\\\""), 0), None);
    assert_eq!(enclosed_end(&chars("ab"), 0), None);
}

#[test]
fn commas_inside_are_passed_over() {
    assert_eq!(find_outside(&chars("\"a,b\",c"), 0, ','), Some(5));
    assert_eq!(find_outside(&chars("(a,b)"), 0, ','), None);
    assert_eq!(find_outside(&chars("\"a,b"), 0, ','), Some(2));
    let parts = split_entries(&chars("\"a,b\",,c (d,e)"));
    let texts: Vec<String> = parts.iter().map(|p| string(p)).collect();
    assert_eq!(texts, vec!["\"a,b\"", "", "c (d,e)"]);
}
