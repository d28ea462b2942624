use base64::engine::general_purpose::STANDARD;
use base64::Engine;
use smtp_relay::auth::AuthResult;
use smtp_relay::session::{
    extract_path, greeting, health_code, read_command, take_plain_line, Command, Next, PlainNext,
    Session, Step,
};

fn say(s: &mut Session, line: &str) -> Step {
    s.take_line(line, "relay", "secret")
}

fn heard(s: &mut Session, line: &str) -> Vec<String> {
    say(s, line).replies
}

fn logged_in(secure: bool) -> Session {
    let mut s = Session::new(secure);
    let line = format!("AUTH PLAIN {}\r\n", STANDARD.encode(b"\0relay\0secret"));
    assert_eq!(heard(&mut s, &line), vec!["235 2.7.0 Authentication successful"]);
    s
}

#[test]
fn paths_are_taken_out_of_commands() {
    assert_eq!(extract_path("MAIL FROM:<a@b.test>"), "a@b.test");
    assert_eq!(extract_path("RCPT TO: a@b.test "), "a@b.test");
    assert_eq!(extract_path("MAIL FROM:<>"), "");
    assert_eq!(extract_path("MAIL FROM:<a@b.test> SIZE=1"), "a@b.test> SIZE=1");
    assert_eq!(extract_path("nothing"), "");
}

#[test]
fn the_greeting() {
    assert_eq!(greeting(), "220 simplelogin-smtp-relay ESMTP");
}

#[test]
fn greetings_are_answered_before_authentication() {
    let mut s = Session::new(false);
    assert_eq!(
        heard(&mut s, "ehlo me\r\n"),
        vec!["250-localhost", "250 AUTH LOGIN PLAIN"]
    );
    assert_eq!(
        heard(&mut s, "HELO\n"),
        vec!["250-localhost", "250 AUTH LOGIN PLAIN"]
    );
}

#[test]
fn mail_needs_authentication_first() {
    let mut s = Session::new(true);
    for line in ["MAIL FROM:<a@b.test>\r\n", "RCPT TO:<a@b.test>\r\n", "DATA\r\n", "NOOP\r\n", "\r\n"] {
        assert_eq!(heard(&mut s, line), vec!["530 5.7.0 Authentication required"]);
    }
    assert!(!s.authed);
    assert_eq!(s.mail_from, "");
}

#[test]
fn plain_credentials_are_checked() {
    let mut s = Session::new(false);
    let bad = format!("AUTH PLAIN {}\r\n", STANDARD.encode(b"\0relay\0wrong"));
    assert_eq!(
        heard(&mut s, &bad),
        vec!["535 5.7.8 Authentication credentials invalid"]
    );
    assert_eq!(
        heard(&mut s, "AUTH PLAIN\r\n"),
        vec!["535 5.7.8 Authentication credentials invalid"]
    );
    assert!(!s.authed);
    let good = format!("auth plain {}\r\n", STANDARD.encode(b"\0relay\0secret"));
    assert_eq!(heard(&mut s, &good), vec!["235 2.7.0 Authentication successful"]);
    assert!(s.authed);
}

#[test]
fn login_in_two_steps() {
    let mut s = Session::new(true);
    assert_eq!(heard(&mut s, "AUTH LOGIN\r\n"), vec!["334 VXNlcm5hbWU6"]);
    assert_eq!(heard(&mut s, "cmVsYXk=\r\n"), vec!["334 UGFzc3dvcmQ6"]);
    assert_eq!(
        heard(&mut s, "c2VjcmV0\r\n"),
        vec!["235 2.7.0 Authentication successful"]
    );
    assert!(s.authed);
}

#[test]
fn login_with_the_user_name_at_once() {
    let mut s = Session::new(true);
    assert_eq!(
        heard(&mut s, "AUTH LOGIN cmVsYXk=\r\n"),
        vec!["334 VXNlcm5hbWU6", "334 UGFzc3dvcmQ6"]
    );
    assert_eq!(
        heard(&mut s, "bm9wZQ==\r\n"),
        vec!["535 5.7.8 Authentication credentials invalid"]
    );
    assert!(!s.authed);
}

#[test]
fn undecodable_login_answers_count_as_empty() {
    let mut s = Session::new(true);
    say(&mut s, "AUTH LOGIN\r\n");
    say(&mut s, "%%%\r\n");
    let step = s.take_line("\r\n", "", "");
    assert_eq!(step.replies, vec!["235 2.7.0 Authentication successful"]);
}

#[test]
fn login_needs_encryption() {
    let mut s = Session::new(false);
    assert_eq!(
        heard(&mut s, "AUTH LOGIN\r\n"),
        vec!["538 Encryption required for requested authentication mechanism"]
    );
    assert_eq!(
        heard(&mut s, "AUTH LOGIN cmVsYXk=\r\n"),
        vec!["538 Encryption required for requested authentication mechanism"]
    );
}

#[test]
fn other_mechanisms_are_not_recognized() {
    for secure in [false, true] {
        let mut s = Session::new(secure);
        for line in ["AUTH CRAM-MD5\r\n", "auth xoauth2 abc=\r\n", "AUTH LOGINX\r\n", "AUTH \r\n"] {
            let step = say(&mut s, line);
            assert_eq!(step.replies, vec!["504 5.5.4 Unrecognized authentication type"]);
            assert!(matches!(step.next, Next::Listen));
            assert!(!s.authed);
        }
        assert_eq!(heard(&mut s, "NOOP\r\n"), vec!["530 5.7.0 Authentication required"]);
        let mut t = logged_in(secure);
        assert_eq!(heard(&mut t, "MAIL FROM:<a@b.test>\r\n"), vec!["250 OK"]);
        assert_eq!(
            heard(&mut t, "AUTH CRAM-MD5\r\n"),
            vec!["504 5.5.4 Unrecognized authentication type"]
        );
        assert!(t.authed);
        assert_eq!(t.mail_from, "a@b.test");
    }
}

#[test]
fn outcomes_of_authentication_are_answered() {
    let mut s = Session::new(true);
    assert_eq!(
        s.take_auth_result(AuthResult::Unsupported).replies,
        vec!["504 5.5.4 Unrecognized authentication type"]
    );
    assert!(!s.authed);
    assert_eq!(
        s.take_auth_result(AuthResult::Failure).replies,
        vec!["535 5.7.8 Authentication credentials invalid"]
    );
    assert!(!s.authed);
    assert_eq!(
        s.take_auth_result(AuthResult::Success).replies,
        vec!["235 2.7.0 Authentication successful"]
    );
    assert!(s.authed);
}

#[test]
fn addresses_may_hold_any_character() {
    let mut s = logged_in(false);
    assert_eq!(heard(&mut s, "Mail From:<stra\u{df}e@b.test>\r\n"), vec!["250 OK"]);
    assert_eq!(s.mail_from, "stra\u{df}e@b.test");
    assert_eq!(heard(&mut s, "rcpt to:<\u{e9}@b.test>\r\n"), vec!["250 OK"]);
}

#[test]
fn quit_closes() {
    let mut s = Session::new(false);
    let step = say(&mut s, "quit\r\n");
    assert_eq!(step.replies, vec!["221 Bye"]);
    assert!(matches!(step.next, Next::Close));
}

#[test]
fn data_needs_sender_and_recipients() {
    let mut s = logged_in(false);
    assert_eq!(heard(&mut s, "DATA\r\n"), vec!["503 Bad sequence of commands"]);
    assert_eq!(heard(&mut s, "MAIL FROM:<a@b.test>\r\n"), vec!["250 OK"]);
    assert_eq!(heard(&mut s, "DATA\r\n"), vec!["503 Bad sequence of commands"]);
    assert_eq!(heard(&mut s, "RCPT TO:<c@d.test>\r\n"), vec!["250 OK"]);
    assert_eq!(
        heard(&mut s, "DATA\r\n"),
        vec!["354 End data with <CR><LF>.<CR><LF>"]
    );
}

#[test]
fn a_message_is_handed_on_as_sent() {
    let mut s = logged_in(false);
    say(&mut s, "MAIL FROM:<a@b.test>\r\n");
    say(&mut s, "RCPT TO:<c@d.test>\r\n");
    say(&mut s, "RCPT TO:<e@f.test>\r\n");
    say(&mut s, "DATA\r\n");
    for line in ["Subject: x\r\n", "\r\n", "..dot\r\n", ".two\r\n", "QUIT\r\n"] {
        let step = say(&mut s, line);
        assert!(step.replies.is_empty());
        assert!(matches!(step.next, Next::Listen));
    }
    match say(&mut s, ".\r\n").next {
        Next::Relay { mail_from, rcpts, data } => {
            assert_eq!(mail_from, "a@b.test");
            assert_eq!(rcpts, vec!["c@d.test", "e@f.test"]);
            assert_eq!(data, b"Subject: x\r\n\r\n.dot\r\n.two\r\nQUIT\r\n".to_vec());
        }
        _ => panic!("the message was not handed on"),
    }
    assert_eq!(heard(&mut s, "RSET\r\n"), vec!["500 Error: command not recognized"]);
}

#[test]
fn a_new_sender_drops_the_recipients() {
    let mut s = logged_in(false);
    say(&mut s, "MAIL FROM:<a@b.test>\r\n");
    say(&mut s, "RCPT TO:<c@d.test>\r\n");
    say(&mut s, "MAIL FROM:<e@f.test>\r\n");
    assert_eq!(s.mail_from, "e@f.test");
    assert!(s.rcpts.is_empty());
}

#[test]
fn input_may_end_anywhere() {
    let mut s = Session::new(true);
    assert!(s.closes_at_end_of_input());
    say(&mut s, "AUTH LOGIN\r\n");
    assert!(!s.closes_at_end_of_input());
    say(&mut s, "");
    assert!(!s.closes_at_end_of_input());
    say(&mut s, "");
    assert!(s.closes_at_end_of_input());
}

#[test]
fn commands_are_told_apart() {
    assert!(matches!(read_command("ehlo x", "EHLO X"), Command::Hello));
    assert!(matches!(read_command("auth loginx", "AUTH LOGINX"), Command::AuthOther));
    assert!(matches!(read_command("auth cram-md5", "AUTH CRAM-MD5"), Command::AuthOther));
    assert!(matches!(read_command("auth ", "AUTH "), Command::AuthOther));
    assert!(matches!(read_command("auth", "AUTH"), Command::Unknown));
    assert!(matches!(read_command("auth login", "AUTH LOGIN"), Command::AuthLogin(None)));
    match read_command("Auth Plain a b", "AUTH PLAIN A B") {
        Command::AuthPlain(arg) => assert_eq!(arg, "a b"),
        _ => panic!("no AUTH PLAIN"),
    }
    assert!(matches!(read_command("data x", "DATA X"), Command::Unknown));
    assert!(matches!(read_command("data", "DATA"), Command::Data));
    assert!(matches!(read_command("quit", "QUIT"), Command::Quit));
}

#[test]
fn before_encryption_only_starttls_leads_on() {
    let step = take_plain_line("StartTLS\r\n");
    assert_eq!(step.replies, vec!["220 Ready to start TLS"]);
    assert_eq!(step.next, PlainNext::Upgrade);
    let hello = take_plain_line("EHLO me\r\n");
    assert_eq!(
        hello.replies,
        vec!["250-localhost", "250-STARTTLS", "250 AUTH LOGIN PLAIN"]
    );
    assert_eq!(hello.next, PlainNext::Listen);
    let quit = take_plain_line("quit\n");
    assert_eq!(quit.replies, vec!["221 Bye"]);
    assert_eq!(quit.next, PlainNext::Close);
    let mail = take_plain_line("MAIL FROM:<a@b.test>\r\n");
    assert_eq!(mail.replies, vec!["530 Must issue STARTTLS first"]);
    assert_eq!(mail.next, PlainNext::Listen);
}

#[test]
fn health_goes_by_the_first_byte() {
    assert_eq!(health_code(b"220 x"), 0);
    assert_eq!(health_code(b"421 x"), 1);
    assert_eq!(health_code(b""), 1);
}
