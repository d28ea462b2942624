use smtp_relay::auth::decode_login_step;
use smtp_relay::config::Config;
use smtp_relay::map::Variables;
use smtp_relay::upstream::{
    begins_with_code, can_log_in, has_more_lines, is_last_line, login_line, reply_line, send_upstream,
    Dialogue, Reply,
};

fn config(starttls: &str) -> Config {
    let mut vars = Variables::new();
    vars.insert("UPSTREAM_USERNAME".to_string(), "me@gmail.test".to_string());
    vars.insert("UPSTREAM_PASSWORD".to_string(), "app-password".to_string());
    vars.insert("UPSTREAM_STARTTLS".to_string(), starttls.to_string());
    Config::from_env(&vars)
}

fn sent(d: &Dialogue) -> Vec<String> {
    d.steps
        .iter()
        .map(|s| String::from_utf8(s.send.clone()).unwrap())
        .collect()
}

#[test]
fn the_dialogue_without_starttls() {
    let rcpts = vec!["ra@sl.test".to_string(), "rb@sl.test".to_string()];
    let d = send_upstream(&config("false"), &rcpts, b"Subject: x\r\n\r\n.y");
    assert_eq!(d.at, 0);
    assert_eq!(
        sent(&d),
        vec![
            "",
            "EHLO localhost\r\n",
            "AUTH LOGIN bWVAZ21haWwudGVzdA==\r\n",
            "YXBwLXBhc3N3b3Jk\r\n",
            "MAIL FROM:<me@gmail.test>\r\n",
            "RCPT TO:<ra@sl.test>\r\n",
            "RCPT TO:<rb@sl.test>\r\n",
            "DATA\r\n",
            "Subject: x\r\n\r\n..y\r\n.\r\n",
            "QUIT\r\n",
        ]
    );
    let wants: Vec<Option<char>> = d.steps.iter().map(|s| s.want).collect();
    assert_eq!(
        wants,
        vec![
            Some('2'),
            Some('2'),
            Some('3'),
            Some('2'),
            Some('2'),
            Some('2'),
            Some('2'),
            Some('3'),
            Some('2'),
            None,
        ]
    );
    assert!(d.steps.iter().all(|s| !s.upgrade));
}

#[test]
fn the_dialogue_with_starttls() {
    let d = send_upstream(&config("true"), &vec![], b"");
    let lines = sent(&d);
    assert_eq!(
        lines[..5],
        [
            "",
            "EHLO localhost\r\n",
            "STARTTLS\r\n",
            "EHLO localhost\r\n",
            "AUTH LOGIN bWVAZ21haWwudGVzdA==\r\n",
        ]
    );
    let upgrades: Vec<usize> = (0..d.steps.len()).filter(|i| d.steps[*i].upgrade).collect();
    assert_eq!(upgrades, vec![2]);
}

#[test]
fn a_refusal_stops_the_dialogue() {
    let mut d = send_upstream(&config("false"), &vec![], b"");
    assert!(d.take_reply("220 hello"));
    assert!(d.take_reply("250-ok"));
    assert_eq!(d.at, 2);
    assert!(!d.take_reply("535 no"));
    assert!(!d.take_reply(""));
    assert_eq!(d.at, 2);
    assert!(d.take_reply("334 go on"));
    assert_eq!(d.at, 3);
}

#[test]
fn any_reply_will_do_for_the_leave_taking() {
    let mut d = send_upstream(&config("false"), &vec![], b"");
    while let Some(step) = d.current() {
        let reply = match step.want {
            Some(c) => format!("{}00 x", c),
            None => "999 whatever".to_string(),
        };
        assert!(d.take_reply(&reply));
    }
    assert_eq!(d.at, d.steps.len());
}

#[test]
fn login_lines_decode_again() {
    for text in ["", "a", "me@gmail.test", "p\u{e4}ssword"] {
        assert_eq!(decode_login_step(&login_line(text)), Ok(text.to_string()));
    }
    assert_eq!(login_line("relay"), "cmVsYXk=");
}

#[test]
fn reply_lines_lose_their_line_break() {
    assert_eq!(reply_line(b"250 ok\r\n"), "250 ok");
    assert_eq!(reply_line(b"250 \xff\n"), "250 \u{fffd}");
    assert_eq!(reply_line(b" x \r\r\n\n"), " x ");
}

#[test]
fn replies_of_several_lines() {
    assert!(has_more_lines("250-a"));
    assert!(!has_more_lines("250 a"));
    assert!(!has_more_lines("25-"));
    assert!(is_last_line("250-a", "250 b"));
    assert!(!is_last_line("250-a", "250-b"));
    assert!(!is_last_line("250-a", "251 b"));
    let mut reply = Reply::start("250-a".to_string());
    assert!(!reply.complete);
    reply.add_line("250-b");
    assert!(!reply.complete);
    reply.add_line("250 c");
    assert!(reply.complete);
    assert_eq!(reply.first, "250-a");
    assert!(Reply::start("220 x".to_string()).complete);
}

#[test]
fn codes_are_three_digits() {
    assert!(begins_with_code("550"));
    assert!(begins_with_code("5501"));
    assert!(!begins_with_code("55"));
    assert!(!begins_with_code("x50 y"));
    assert!(!begins_with_code("5x0 y"));
    assert!(!begins_with_code("55x y"));
}

#[test]
fn logging_in_needs_both_credentials() {
    assert!(can_log_in(&config("true")));
    let mut vars = Variables::new();
    vars.insert("UPSTREAM_USERNAME".to_string(), "me@gmail.test".to_string());
    assert!(!can_log_in(&Config::from_env(&vars)));
}
