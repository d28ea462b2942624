use smtp_relay::simplelogin_client::{
    take_contact, AliasEntry, ApiRequest, LookupError, LookupPhase, SimpleLoginClient,
};

fn page(entries: &[(i64, &str)]) -> Vec<AliasEntry> {
    entries
        .iter()
        .map(|(id, email)| AliasEntry {
            id: *id,
            email: email.to_string(),
        })
        .collect()
}

#[test]
fn requests_name_the_endpoints() {
    let mut client = SimpleLoginClient::new("https://sl.test//", "key");
    let mut lookup = client.get_reverse_alias("me@sl.test", "bob@b.test");
    match client.request(&lookup) {
        ApiRequest::ListAliases { url, key, page_id, query } => {
            assert_eq!(url, "https://sl.test/api/v2/aliases");
            assert_eq!(key, "key");
            assert_eq!(page_id, 0);
            assert_eq!(query, "me@sl.test");
        }
        _ => panic!("no list"),
    }
    assert!(client.take_page(&mut lookup, &page(&[(-42, "me@sl.test")])).is_ok());
    match client.request(&lookup) {
        ApiRequest::CreateContact { url, key, contact } => {
            assert_eq!(url, "https://sl.test/api/aliases/-42/contacts");
            assert_eq!(key, "key");
            assert_eq!(contact, "bob@b.test");
        }
        _ => panic!("no contact"),
    }
}

#[test]
fn pages_are_searched_in_order() {
    let mut client = SimpleLoginClient::new("https://sl.test", "key");
    let mut lookup = client.get_reverse_alias("me@sl.test", "bob@b.test");
    for n in 0..3u64 {
        assert!(matches!(lookup.phase, LookupPhase::Paging(k) if k == n));
        let other = page(&[(1, "ME@sl.test"), (2, "me@sl.tes")]);
        assert!(client.take_page(&mut lookup, &other).is_ok());
    }
    let found = page(&[(6, "x@sl.test"), (7, "me@sl.test"), (8, "me@sl.test")]);
    assert!(client.take_page(&mut lookup, &found).is_ok());
    assert!(matches!(lookup.phase, LookupPhase::Contact(7)));
}

#[test]
fn an_empty_page_ends_the_search() {
    let mut client = SimpleLoginClient::new("https://sl.test", "key");
    let mut lookup = client.get_reverse_alias("me@sl.test", "bob@b.test");
    match client.take_page(&mut lookup, &page(&[])) {
        Err(e) => {
            assert!(matches!(e, LookupError::AliasNotFound(_)));
            assert_eq!(e.message(), "Alias not found: me@sl.test");
        }
        Ok(()) => panic!("found"),
    }
    let again = client.get_reverse_alias("me@sl.test", "bob@b.test");
    assert!(matches!(again.phase, LookupPhase::Paging(0)));
}

#[test]
fn found_aliases_are_cached_per_sender() {
    let mut client = SimpleLoginClient::new("https://sl.test", "key");
    let mut lookup = client.get_reverse_alias("me@sl.test", "bob@b.test");
    assert!(client.take_page(&mut lookup, &page(&[(7, "me@sl.test")])).is_ok());
    let again = client.get_reverse_alias("me@sl.test", "ann@b.test");
    assert!(matches!(again.phase, LookupPhase::Contact(7)));
    let other = client.get_reverse_alias("you@sl.test", "ann@b.test");
    assert!(matches!(other.phase, LookupPhase::Paging(0)));
}

#[test]
fn answers_must_hold_a_reverse_alias() {
    let client = SimpleLoginClient::new("https://sl.test", "key");
    let lookup = client.get_reverse_alias("me@sl.test", "bob@b.test");
    match take_contact(&lookup, Some("r@sl.test".to_string())) {
        Ok(reverse) => assert_eq!(reverse, "r@sl.test"),
        Err(_) => panic!("refused"),
    }
    for answer in [None, Some(String::new())] {
        match take_contact(&lookup, answer) {
            Err(e) => {
                assert!(matches!(e, LookupError::NoReverseAlias(_)));
                assert_eq!(e.message(), "No reverse_alias in response for bob@b.test");
            }
            Ok(_) => panic!("accepted"),
        }
    }
}

#[test]
fn ids_are_written_in_full() {
    let mut client = SimpleLoginClient::new("", "key");
    for (id, text) in [
        (0i64, "/api/aliases/0/contacts"),
        (i64::MAX, "/api/aliases/9223372036854775807/contacts"),
        (i64::MIN, "/api/aliases/-9223372036854775808/contacts"),
    ] {
        let sender = format!("{}@sl.test", text.len());
        let mut lookup = client.get_reverse_alias(&sender, "bob@b.test");
        assert!(client.take_page(&mut lookup, &page(&[(id, &sender)])).is_ok());
        match client.request(&lookup) {
            ApiRequest::CreateContact { url, .. } => assert_eq!(url, text),
            _ => panic!("no contact"),
        }
    }
}
