use smtp_relay::mail::{ParsedAddress, ParsedMailbox};
use smtp_relay::map::AliasMap;
use smtp_relay::message::{
    field_of, name_of, relay_message, rewrite_field, rewrite_message, sections_of, sender_value_of,
    split_lines, split_message, value_of, FieldLines,
};

fn map(pairs: &[(&str, &str)]) -> AliasMap {
    let mut out = AliasMap::new();
    for (key, value) in pairs {
        out.insert(key.to_string(), value.to_string());
    }
    out
}

fn text(bytes: Vec<u8>) -> String {
    String::from_utf8(bytes).unwrap()
}

#[test]
fn bcc_is_stripped_to_and_cc_rewritten() {
    let m = map(&[
        ("to@example.com", "ra@sl.test"),
        ("cc@example.com", "rb@sl.test"),
    ]);
    let x = rewrite_message(b"From: sender@test\r\nTo: Person <to@example.com>\r\nCc: cc@example.com\r\nBcc: hidden@example.com\r\nSubject: test\r\n\r\nbody\r\n", &m);
    let s = String::from_utf8(x).unwrap();
    assert!(s.contains("To: Person <ra@sl.test>"));
    assert!(s.contains("Cc: rb@sl.test"));
    assert!(!s.to_lowercase().contains("bcc:"));
    assert!(s.ends_with("body\r\n"));
}

#[test]
fn other_fields_and_the_body_keep_their_bytes() {
    let data = b"Subject:  two\r\n\tlines\r\nX-Raw: \xff\xfe\r\n\r\nbody \xff\r\n\r\nmore";
    assert_eq!(rewrite_message(data, &map(&[])), data.to_vec());
}

#[test]
fn messages_without_an_empty_line_are_all_header() {
    assert_eq!(
        text(rewrite_message(b"Subject: x\r\nBcc: y@z.test\r\n", &map(&[]))),
        "Subject: x\r\n"
    );
    assert_eq!(text(rewrite_message(b"Subject: x", &map(&[]))), "Subject: x");
    assert_eq!(text(rewrite_message(b"Subject: x\nTo: Ann <a@b>", &map(&[("a@b", "r@s")]))), "Subject: x\nTo: Ann <r@s>");
    assert_eq!(text(rewrite_message(b"", &map(&[]))), "");
}

fn fields_of(head: &[u8]) -> Vec<FieldLines> {
    sections_of(split_lines(head)).1.iter().map(field_of).collect()
}

#[test]
fn lines_that_are_no_field_are_kept() {
    let data = b"nonsense\n  more\nSubject: x\nloose\n y\n\nbody";
    assert_eq!(rewrite_message(data, &map(&[])), data.to_vec());
}

#[test]
fn lines_that_are_no_field_are_kept_beside_rewritten_fields() {
    let m = map(&[("a@b.test", "ra@sl.test")]);
    assert_eq!(
        text(rewrite_message(
            b"first\r\nBcc: h@b.test\r\nloose one\r\n x@b.test\r\nTo: a@b.test,\r\nloose two\r\n c@d.test\r\n\r\nbody",
            &m
        )),
        "first\r\nloose one\r\nTo: ra@sl.test, c@d.test\r\nloose two\r\n\r\nbody"
    );
}

#[test]
fn rewritten_fields_end_as_their_first_line_does() {
    let m = map(&[("a@b.test", "ra@sl.test")]);
    assert_eq!(
        text(rewrite_message(b"To: a@b.test,\n c@d.test", &m)),
        "To: ra@sl.test, c@d.test\n"
    );
    assert_eq!(
        text(rewrite_message(b"To: a@b.test\nloose", &m)),
        "To: ra@sl.test\nloose"
    );
    assert_eq!(
        text(rewrite_message(b"To: a@b.test,\nloose\n c@d.test", &m)),
        "To: ra@sl.test, c@d.test\nloose\n"
    );
}

#[test]
fn sections_hold_every_line() {
    let (start, sections) = sections_of(split_lines(b"a\n b\n c: d\nE: f\ng\n h: i\nj\nK: l"));
    assert_eq!(start, vec![b"a\n".to_vec(), b" b\n".to_vec()]);
    assert_eq!(
        sections,
        vec![
            vec![b" c: d\n".to_vec()],
            vec![b"E: f\n".to_vec(), b"g\n".to_vec(), b" h: i\n".to_vec(), b"j\n".to_vec()],
            vec![b"K: l".to_vec()],
        ]
    );
    assert_eq!(field_of(&sections[1]), vec![b"E: f\n".to_vec(), b" h: i\n".to_vec()]);
    assert_eq!(value_of(&field_of(&sections[1])), "f h: i");
    let (none, empty) = sections_of(split_lines(b""));
    assert!(none.is_empty());
    assert!(empty.is_empty());
}

#[test]
fn fields_become_one_line_or_stay() {
    let m = map(&[("a@b.test", "ra@sl.test")]);
    let field = |line: &[u8]| -> FieldLines { vec![line.to_vec()] };
    assert_eq!(
        rewrite_field(&field(b"cc:a@b.test\r\n"), &m, &None),
        Some(b"cc: ra@sl.test\r\n".to_vec())
    );
    assert_eq!(rewrite_field(&field(b"Subject: a@b.test\n"), &m, &None), None);
    assert_eq!(rewrite_field(&field(b"From: N <a@b.test>\n"), &m, &None), None);
    assert_eq!(
        rewrite_field(&field(b"From: N <a@b.test>\n"), &m, &Some("me@u.test".to_string())),
        Some(b"From: N <me@u.test>\n".to_vec())
    );
}

#[test]
fn folded_recipients_are_unfolded() {
    let m = map(&[("a@b.test", "ra@sl.test")]);
    assert_eq!(
        text(rewrite_message(b"TO: A <a@b.test>,\r\n  c@d.test\r\n\r\nx", &m)),
        "TO: A <ra@sl.test>, c@d.test\r\n\r\nx"
    );
}

#[test]
fn folded_bcc_is_stripped_with_its_lines() {
    assert_eq!(
        text(rewrite_message(b"bCC: a@b.test,\n c@d.test\nSubject: x\n\n", &map(&[]))),
        "Subject: x\n\n"
    );
}

#[test]
fn the_first_empty_line_ends_the_header() {
    let parts = split_message(b"A: b\n\nhi\r\n\r\nw");
    assert_eq!(parts.head, b"A: b\n".to_vec());
    assert_eq!(parts.gap, b"\n".to_vec());
    assert_eq!(parts.body, b"hi\r\n\r\nw".to_vec());
    let wide = split_message(b"A: b\r\n\r\nc\n\nd");
    assert_eq!(wide.head, b"A: b\r\n".to_vec());
    assert_eq!(wide.gap, b"\r\n".to_vec());
    assert_eq!(wide.body, b"c\n\nd".to_vec());
    let mixed = split_message(b"A: b\n\r\nc");
    assert_eq!(mixed.head, b"A: b\n".to_vec());
    assert_eq!(mixed.gap, b"\r\n".to_vec());
    let none = split_message(b"A: b\n");
    assert_eq!(none.head, b"A: b\n".to_vec());
    assert!(none.gap.is_empty() && none.body.is_empty());
    let bodily = split_message(b"\nhello");
    assert!(bodily.head.is_empty());
    assert_eq!(bodily.body, b"hello".to_vec());
}

#[test]
fn bodies_keep_their_text_whatever_line_ends_they_have() {
    for data in [&b"A: b\n\nhi\r\n\r\nw"[..], b"A: b\r\n\r\nhi\n\nw", b"\nhello\n"] {
        assert_eq!(rewrite_message(data, &map(&[])), data.to_vec());
    }
}

#[test]
fn bcc_after_a_bare_line_feed_is_stripped() {
    let out = rewrite_message(b"From: s@t\nBcc: h@x\r\nSubject: t\r\n\r\nB", &map(&[]));
    assert_eq!(text(out), "From: s@t\nSubject: t\r\n\r\nB");
    let out = rewrite_message(b"X: a\nBcc: y@z\r\n , w@z\nBcc: z@z\r\n\r\nb", &map(&[]));
    assert_eq!(text(out), "X: a\n\r\nb");
}

#[test]
fn a_rewritten_field_ends_as_it_did() {
    let m = map(&[("a@b", "r@s")]);
    assert_eq!(
        text(rewrite_message(b"To: a@b\nCc: a@b,\r\n c@d\r\n\n", &m)),
        "To: r@s\nCc: r@s, c@d\r\n\n"
    );
}

#[test]
fn lines_keep_their_ends() {
    assert_eq!(
        split_lines(b"a\r\n\nb\rc\nd"),
        vec![b"a\r\n".to_vec(), b"\n".to_vec(), b"b\rc\n".to_vec(), b"d".to_vec()]
    );
    assert!(split_lines(b"").is_empty());
}

#[test]
fn rewriting_reads_back() {
    let m = map(&[("a@b.test", "Reverse <ra@sl.test>")]);
    let out = rewrite_message(b"To: Ann <a@b.test>\r\nBcc: h@b.test\r\nX: y\r\n z\r\n\r\nbody", &m);
    let parts = split_message(&out);
    assert_eq!(parts.body, b"body".to_vec());
    let fields = fields_of(&parts.head);
    assert_eq!(fields.len(), 2);
    assert_eq!(name_of(&fields[0]), b"To".to_vec());
    assert_eq!(value_of(&fields[0]), "Ann <ra@sl.test>");
    assert_eq!(name_of(&fields[1]), b"X".to_vec());
    assert_eq!(value_of(&fields[1]), "y z");
}

#[test]
fn relayed_messages_name_the_upstream_user() {
    let m = map(&[]);
    assert_eq!(
        text(relay_message(
            b"From: Alerts <old@example.test>\r\n\r\nx",
            &m,
            "me@gmail.test".to_string()
        )),
        "From: Alerts <me@gmail.test>\r\n\r\nx"
    );
    assert_eq!(
        text(relay_message(b"from: old@example.test\n\nx", &m, "me@gmail.test".to_string())),
        "from: me@gmail.test\n\nx"
    );
}

#[test]
fn ambiguous_senders_stay() {
    let m = map(&[]);
    let many = b"From: a@b.test, c@d.test\r\n\r\nx";
    assert_eq!(relay_message(many, &m, "me@gmail.test".to_string()), many.to_vec());
    let group = b"From: Team: a@b.test;\r\n\r\nx";
    assert_eq!(relay_message(group, &m, "me@gmail.test".to_string()), group.to_vec());
    let malformed = b"From: nobody\r\n\r\nx";
    assert_eq!(relay_message(malformed, &m, "me@gmail.test".to_string()), malformed.to_vec());
    let missing = b"Subject: y\r\n\r\nx";
    assert_eq!(relay_message(missing, &m, "me@gmail.test".to_string()), missing.to_vec());
}

#[test]
fn plain_rewriting_leaves_the_sender_alone() {
    let data = b"From: Alerts <old@example.test>\r\n\r\nx";
    assert_eq!(rewrite_message(data, &map(&[])), data.to_vec());
}

#[test]
fn sender_values_follow_what_was_parsed() {
    let one = |name: Option<&str>| {
        ParsedAddress::Single(ParsedMailbox {
            display_name: name.map(|n| n.to_string()),
            address: "old@b.test".to_string(),
        })
    };
    assert_eq!(
        sender_value_of(&Some(vec![one(Some("N"))]), "me@gmail.test"),
        Some("N <me@gmail.test>".to_string())
    );
    assert_eq!(
        sender_value_of(&Some(vec![one(None)]), "me@gmail.test"),
        Some("me@gmail.test".to_string())
    );
    assert_eq!(sender_value_of(&Some(vec![one(None), one(None)]), "me@gmail.test"), None);
    assert_eq!(
        sender_value_of(&Some(vec![ParsedAddress::Group(vec![])]), "me@gmail.test"),
        None
    );
    assert_eq!(sender_value_of(&Some(vec![]), "me@gmail.test"), None);
    assert_eq!(sender_value_of(&None, "me@gmail.test"), None);
}

#[test]
fn bytes_that_are_no_utf8_are_repaired_in_recipients() {
    assert_eq!(
        text(rewrite_message(b"To: \xff <a@b.test>\n\n", &map(&[]))),
        "To: \u{fffd} <a@b.test>\n\n"
    );
}

#[test]
fn stray_carriage_returns_stay_in_their_line() {
    let out = rewrite_message(b"A: b\rc\nBcc: x@y.test\nD: e\n\nbody", &map(&[]));
    assert_eq!(text(out), "A: b\rc\nD: e\n\nbody");
}
