use smtp_relay::mail::{
    format_addr, mailboxes_of, parse_addresses, parse_single_addr, replace_addresses,
    single_addr_of, Mailbox, ParsedAddress, ParsedMailbox,
};
use smtp_relay::map::AliasMap;

fn map(pairs: &[(&str, &str)]) -> AliasMap {
    let mut out = AliasMap::new();
    for (key, value) in pairs {
        out.insert(key.to_string(), value.to_string());
    }
    out
}

fn mailbox(name: &str, address: &str) -> Mailbox {
    Mailbox {
        display_name: name.to_string(),
        address: address.to_string(),
    }
}

fn parsed(name: Option<&str>, address: &str) -> ParsedMailbox {
    ParsedMailbox {
        display_name: name.map(|n| n.to_string()),
        address: address.to_string(),
    }
}

#[test]
fn single_to_replaced() {
    let m = map(&[("bob@example.com", "reverse1@sl.local")]);
    let out = replace_addresses("bob@example.com", &m);
    assert_eq!(out, "reverse1@sl.local");
}

#[test]
fn multiple_to_all_replaced() {
    let m = map(&[
        ("bob@example.com", "reverse1@sl.local"),
        ("carol@example.com", "reverse2@sl.local"),
    ]);
    let out = replace_addresses("bob@example.com, carol@example.com", &m);
    assert_eq!(out, "reverse1@sl.local, reverse2@sl.local");
}

#[test]
fn display_name_preserved() {
    let m = map(&[("bob@example.com", "reverse1@sl.local")]);
    let out = replace_addresses("Bob Smith <bob@example.com>", &m);
    assert_eq!(out, "Bob Smith <reverse1@sl.local>");
}

#[test]
fn reverse_alias_with_its_own_display_name_uses_original_display_name() {
    let m = map(&[("bob@example.com", "SimpleLogin <reverse1@sl.local>")]);
    let out = replace_addresses("Bob Smith <bob@example.com>", &m);
    assert_eq!(out, "Bob Smith <reverse1@sl.local>");
}

#[test]
fn unmapped_address_left_alone() {
    let m = map(&[("bob@example.com", "reverse1@sl.local")]);
    let out = replace_addresses("bob@example.com, dave@example.com", &m);
    assert_eq!(out, "reverse1@sl.local, dave@example.com");
}

#[test]
fn unmapped_with_display_name_left_alone() {
    let m = map(&[]);
    let out = replace_addresses("Dave Jones <dave@example.com>", &m);
    assert_eq!(out, "Dave Jones <dave@example.com>");
}

#[test]
fn parse_named_reverse_alias_to_bare_address() {
    assert_eq!(
        parse_single_addr("Reverse B <rev-b@simplelogin.test>").1,
        "rev-b@simplelogin.test"
    );
}

#[test]
fn empty_header_yields_empty_string() {
    let m = map(&[]);
    let out = replace_addresses("", &m);
    assert_eq!(out, "");
}

#[test]
fn blank_entries_are_skipped() {
    assert_eq!(
        parse_addresses(" , a@b.test ,, \"C D\" < c@d.test > ,"),
        vec![mailbox("", "a@b.test"), mailbox("C D", "c@d.test")]
    );
}

#[test]
fn the_last_angle_bracket_counts() {
    assert_eq!(
        parse_addresses("a <b> <c@d.test> e"),
        vec![mailbox("a <b>", "c@d.test")]
    );
    assert_eq!(parse_addresses("a < b"), vec![mailbox("", "a < b")]);
    assert_eq!(parse_addresses("<c@d.test"), vec![mailbox("", "<c@d.test")]);
}

#[test]
fn groups_are_flattened() {
    assert_eq!(
        parse_addresses("Team: a@b.test, Bob <bob@b.test>; c@d.test"),
        vec![
            mailbox("", "a@b.test"),
            mailbox("Bob", "bob@b.test"),
            mailbox("", "c@d.test"),
        ]
    );
}

#[test]
fn what_the_strict_parser_refuses_is_split_at_commas() {
    assert_eq!(
        parse_addresses("Team: a@b.test, <x:y> "),
        vec![mailbox("", "Team: a@b.test"), mailbox("", "<x:y>")]
    );
}

#[test]
fn mailboxes_follow_the_strict_parser_where_there_is_a_colon() {
    let list = vec![
        ParsedAddress::Group(vec![parsed(None, "a@b.test"), parsed(Some("B"), "b@b.test")]),
        ParsedAddress::Single(parsed(Some("C"), "c@d.test")),
    ];
    assert_eq!(
        mailboxes_of("x: y", &Some(list)),
        vec![
            mailbox("", "a@b.test"),
            mailbox("B", "b@b.test"),
            mailbox("C", "c@d.test"),
        ]
    );
    assert_eq!(
        mailboxes_of("x: y, z", &None),
        vec![mailbox("", "x: y"), mailbox("", "z")]
    );
    assert_eq!(
        mailboxes_of("x, z", &Some(vec![])),
        vec![mailbox("", "x"), mailbox("", "z")]
    );
}

#[test]
fn single_addresses_in_each_form() {
    let both = |n: &str, a: &str| (n.to_string(), a.to_string());
    assert_eq!(parse_single_addr("a@b.test"), both("", "a@b.test"));
    assert_eq!(
        parse_single_addr("\"Q N\" <a@b.test>"),
        both("Q N", "a@b.test")
    );
    assert_eq!(
        parse_single_addr("Team: a@b.test, c@d.test;"),
        both("", "a@b.test")
    );
    assert_eq!(parse_single_addr(" nonsense "), both("", "nonsense"));
    assert_eq!(parse_single_addr("Team:;"), both("", "Team:;"));
    assert_eq!(parse_single_addr(""), both("", ""));
}

#[test]
fn single_addresses_given_what_was_parsed() {
    let both = |n: &str, a: &str| (n.to_string(), a.to_string());
    let one = Some(vec![ParsedAddress::Single(parsed(Some("N"), "n@b.test"))]);
    assert_eq!(single_addr_of("whatever", &one), both("N", "n@b.test"));
    assert_eq!(single_addr_of("X <x@b.test>", &one), both("X", "x@b.test"));
    assert_eq!(
        single_addr_of(" w ", &Some(vec![ParsedAddress::Group(vec![])])),
        both("", "w")
    );
    assert_eq!(single_addr_of(" w ", &None), both("", "w"));
}

#[test]
fn names_with_special_characters_are_quoted() {
    assert_eq!(format_addr("", "a@b.test"), "a@b.test");
    assert_eq!(format_addr("Bob", "a@b.test"), "Bob <a@b.test>");
    assert_eq!(format_addr("Dr. Bob", "a@b.test"), "\"Dr. Bob\" <a@b.test>");
    assert_eq!(
        format_addr("a\\b \"c\"", "a@b.test"),
        "\"a\\\\b \\\"c\\\"\" <a@b.test>"
    );
}

#[test]
fn quoted_commas_separate_nothing() {
    assert_eq!(
        parse_addresses("\"Smith, Bob\" <bob@x.com>"),
        vec![mailbox("Smith, Bob", "bob@x.com")]
    );
    let m = map(&[("bob@x.com", "r1@sl.local")]);
    assert_eq!(
        replace_addresses("\"Smith, Bob\" <bob@x.com>, \"Doe, Ann\" <ann@x.com>", &m),
        "\"Smith, Bob\" <r1@sl.local>, \"Doe, Ann\" <ann@x.com>"
    );
}

#[test]
fn escapes_in_a_quoted_name_are_undone() {
    let m = map(&[("b@x", "r@s")]);
    let header = r#""Bob \"B\" X" <b@x>"#;
    assert_eq!(parse_addresses(header), vec![mailbox("Bob \"B\" X", "b@x")]);
    assert_eq!(replace_addresses(header, &m), r#""Bob \"B\" X" <r@s>"#);
    assert_eq!(replace_addresses(header, &map(&[])), header);
    assert_eq!(
        parse_addresses(r#""a\\, \"b" <c@d>, e@f"#),
        vec![mailbox("a\\, \"b", "c@d"), mailbox("", "e@f")]
    );
}

#[test]
fn unclosed_quotes_enclose_nothing() {
    assert_eq!(
        parse_addresses("\"Bob <b@x>, c@d"),
        vec![mailbox("Bob", "b@x"), mailbox("", "c@d")]
    );
    assert_eq!(
        parse_addresses("\"A\" \"B\" <b@x>"),
        vec![mailbox("A\" \"B", "b@x")]
    );
}

#[test]
fn a_comment_after_an_address_is_its_name() {
    assert_eq!(
        parse_addresses("bob@x.com (Bob, the builder), c@d"),
        vec![mailbox("Bob, the builder", "bob@x.com"), mailbox("", "c@d")]
    );
    assert_eq!(parse_addresses("(nobody)"), vec![mailbox("", "(nobody)")]);
    assert_eq!(parse_addresses("a@b (c) d"), vec![mailbox("", "a@b (c) d")]);
    let m = map(&[("bob@x.com", "r1@sl.local")]);
    assert_eq!(replace_addresses("bob@x.com (Bob)", &m), "Bob <r1@sl.local>");
}

#[test]
fn plain_mailboxes_read_back_with_their_names() {
    let m = map(&[("bob@example.com", "Reverse <r1@sl.local>")]);
    let out = replace_addresses("Dr. Bob <bob@example.com>, Ann <ann@example.com>", &m);
    assert_eq!(out, "\"Dr. Bob\" <r1@sl.local>, Ann <ann@example.com>");
    assert_eq!(
        parse_addresses(&out),
        vec![
            mailbox("Dr. Bob", "r1@sl.local"),
            mailbox("Ann", "ann@example.com"),
        ]
    );
}

#[test]
fn written_mailboxes_read_back() {
    for name in ["Bob", "Dr. Bob", " spaced [x] ", "a@b", "a \\ \"b\", c", "\"", "\\"] {
        assert_eq!(
            parse_single_addr(&format_addr(name, "a@b.test")),
            (name.to_string(), "a@b.test".to_string())
        );
    }
}

#[test]
fn enclosed_addresses_may_be_empty() {
    assert_eq!(parse_addresses("Name <>, a>b"), vec![mailbox("Name", ""), mailbox("", "a>b")]);
    assert_eq!(replace_addresses("Name <>, a>b", &map(&[])), "Name <>, a>b");
}

#[test]
fn one_mailbox_may_open_what_it_does_not_close() {
    let odd = mailbox("", "a(b@c.test");
    let line = format_addr(&odd.display_name, &odd.address);
    assert_eq!(parse_addresses(&line), vec![odd]);
    let named = mailbox("Ann", "a\"b@c.test");
    let line = format_addr(&named.display_name, &named.address);
    assert_eq!(line, "Ann <a\"b@c.test>");
    assert_eq!(parse_addresses(&line), vec![named]);
}

#[test]
fn replacing_keeps_a_list() {
    let m = map(&[
        ("a@b.test", "Reverse <ra@sl.test>"),
        ("e@f.test", "re@sl.test"),
    ]);
    let header = " Ann B. <a@b.test> ,, c@d.test, E, f <e@f.test>";
    assert_eq!(
        parse_addresses(header),
        vec![
            mailbox("Ann B.", "a@b.test"),
            mailbox("", "c@d.test"),
            mailbox("", "E"),
            mailbox("f", "e@f.test"),
        ]
    );
    assert_eq!(
        parse_addresses(&replace_addresses(header, &m)),
        vec![
            mailbox("Ann B.", "ra@sl.test"),
            mailbox("", "c@d.test"),
            mailbox("", "E"),
            mailbox("f", "re@sl.test"),
        ]
    );
}

#[test]
fn replacing_keeps_a_list_with_comments() {
    let m = map(&[("a@b.test", "ra@sl.test")]);
    let header = "a@b.test (Ann, A), Bob (work, b) <b@b.test>";
    assert_eq!(
        parse_addresses(&replace_addresses(header, &m)),
        vec![mailbox("Ann, A", "ra@sl.test"), mailbox("Bob (work, b)", "b@b.test")]
    );
}

#[test]
fn what_nothing_closes_stays_open_in_a_list() {
    let m = map(&[("d@e.test", "rd@sl.test")]);
    let header = "<a(b@c.test>, D <d@e.test>";
    assert_eq!(
        parse_addresses(&replace_addresses(header, &m)),
        vec![mailbox("", "a(b@c.test"), mailbox("D", "rd@sl.test")]
    );
}
