use smtp_relay::config::Config;
use smtp_relay::handler::{
    prepare, reply_to_data, upstream_failure, Job, Outcome, RelayHandler,
};
use smtp_relay::map::Variables;
use smtp_relay::simplelogin_client::{AliasEntry, ApiRequest, SimpleLoginClient};

fn handler() -> RelayHandler {
    let mut vars = Variables::new();
    vars.insert("UPSTREAM_USERNAME".to_string(), "me@gmail.test".to_string());
    vars.insert("UPSTREAM_PASSWORD".to_string(), "app-password".to_string());
    RelayHandler::new(
        Config::from_env(&vars),
        SimpleLoginClient::new("https://sl.test", "key"),
    )
}

fn aliases(id: i64, email: &str) -> Vec<AliasEntry> {
    vec![AliasEntry {
        id,
        email: email.to_string(),
    }]
}

const MESSAGE: &[u8] =
    b"From: Me <old@sl.test>\r\nTo: Bob <bob@b.test>\r\nCc: carol@c.test, x@y.test\r\nBcc: z@z.test\r\n\r\nhi\r\n";

fn resolved(h: &mut RelayHandler) -> Job {
    let rcpts = vec!["bob@b.test".to_string(), "carol@c.test".to_string()];
    let mut job = h.process("me@sl.test".to_string(), rcpts, MESSAGE.to_vec());
    assert!(matches!(
        h.request(&job),
        Some(ApiRequest::ListAliases { page_id: 0, .. })
    ));
    assert!(h.take_page(&mut job, &aliases(7, "me@sl.test")).is_ok());
    match h.request(&job) {
        Some(ApiRequest::CreateContact { contact, .. }) => assert_eq!(contact, "bob@b.test"),
        _ => panic!("no contact"),
    }
    assert!(h
        .take_contact(&mut job, Some("Reverse <r1@sl.test>".to_string()))
        .is_ok());
    match h.request(&job) {
        Some(ApiRequest::CreateContact { contact, .. }) => assert_eq!(contact, "carol@c.test"),
        _ => panic!("no contact"),
    }
    assert!(h.take_contact(&mut job, Some("r2@sl.test".to_string())).is_ok());
    assert!(h.request(&job).is_none());
    job
}

#[test]
fn a_job_asks_for_each_recipient_and_is_sent() {
    let mut h = handler();
    let job = resolved(&mut h);
    let out = prepare(&job, "me@gmail.test");
    assert_eq!(out.rcpts, vec!["r1@sl.test", "r2@sl.test"]);
    assert_eq!(
        String::from_utf8(out.message).unwrap(),
        "From: Me <me@gmail.test>\r\nTo: Bob <r1@sl.test>\r\nCc: r2@sl.test, x@y.test\r\n\r\nhi\r\n"
    );
    let d = h.dialogue(&job);
    let sent: Vec<String> = d
        .steps
        .iter()
        .map(|s| String::from_utf8(s.send.clone()).unwrap())
        .collect();
    assert_eq!(sent[6], "MAIL FROM:<me@gmail.test>\r\n");
    assert_eq!(sent[7], "RCPT TO:<r1@sl.test>\r\n");
    assert_eq!(sent[8], "RCPT TO:<r2@sl.test>\r\n");
    assert_eq!(sent[9], "DATA\r\n");
}

#[test]
fn the_next_job_of_a_sender_skips_the_search() {
    let mut h = handler();
    resolved(&mut h);
    let job = h.process(
        "me@sl.test".to_string(),
        vec!["dan@d.test".to_string()],
        MESSAGE.to_vec(),
    );
    assert!(matches!(
        h.request(&job),
        Some(ApiRequest::CreateContact { .. })
    ));
}

#[test]
fn senders_without_an_alias_fail() {
    let mut h = handler();
    let mut job = h.process(
        "me@sl.test".to_string(),
        vec!["bob@b.test".to_string()],
        MESSAGE.to_vec(),
    );
    assert!(h.take_page(&mut job, &aliases(1, "you@sl.test")).is_ok());
    let e = h.take_page(&mut job, &vec![]).unwrap_err();
    assert_eq!(e.message(), "Alias not found: me@sl.test");
}

#[test]
fn recipients_without_a_reverse_alias_fail() {
    let mut h = handler();
    let mut job = h.process(
        "me@sl.test".to_string(),
        vec!["bob@b.test".to_string()],
        MESSAGE.to_vec(),
    );
    assert!(h.take_page(&mut job, &aliases(1, "me@sl.test")).is_ok());
    let e = h.take_contact(&mut job, None).unwrap_err();
    assert_eq!(e.message(), "No reverse_alias in response for bob@b.test");
    assert!(h.request(&job).is_some());
}

#[test]
fn a_job_without_recipients_is_resolved() {
    let h = handler();
    let job = h.process("me@sl.test".to_string(), vec![], MESSAGE.to_vec());
    assert!(h.request(&job).is_none());
    assert!(prepare(&job, "me@gmail.test").rcpts.is_empty());
}

#[test]
fn the_last_alias_of_a_recipient_counts() {
    let job = Job {
        mail_from: "me@sl.test".to_string(),
        rcpt_tos: vec!["bob@b.test".to_string(), "bob@b.test".to_string()],
        data: b"To: bob@b.test\n\n".to_vec(),
        reverses: vec!["r1@sl.test".to_string(), "r2@sl.test".to_string()],
        lookup: None,
    };
    let out = prepare(&job, "me@gmail.test");
    assert_eq!(out.rcpts, vec!["r1@sl.test", "r2@sl.test"]);
    assert_eq!(out.message, b"To: r2@sl.test\n\n".to_vec());
}

#[test]
fn replies_to_each_outcome() {
    assert_eq!(reply_to_data(&Outcome::Relayed), "250 OK");
    assert_eq!(reply_to_data(&Outcome::TimedOut), "451 Timeout processing mail");
    assert_eq!(reply_to_data(&Outcome::Failed), "451 Internal error");
    assert_eq!(
        reply_to_data(&Outcome::Refused("550 n\u{e9}o\r\n\tuser\u{7f}~".to_string())),
        "451 Upstream SMTP error: 550 nouser~"
    );
}

#[test]
fn upstream_replies_with_a_code_are_reported() {
    assert!(matches!(upstream_failure("550 no"), Outcome::Refused(_)));
    assert!(matches!(upstream_failure("no"), Outcome::Failed));
    assert!(matches!(upstream_failure(""), Outcome::Failed));
    assert_eq!(
        reply_to_data(&upstream_failure("552-too large")),
        "451 Upstream SMTP error: 552-too large"
    );
}
