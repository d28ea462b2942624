use base64::engine::general_purpose::STANDARD;
use base64::Engine;
use smtp_relay::auth::{
    auth_plain, check_plain_message, decode_login_step, login_answer, validate_credentials,
    AuthResult,
};

#[test]
fn login_success_and_failure() {
    assert_eq!(
        validate_credentials("relay", "secret", "relay", "secret"),
        AuthResult::Success
    );
    assert_eq!(
        validate_credentials("relay", "nope", "relay", "secret"),
        AuthResult::Failure
    );
}

#[test]
fn plain_success_and_failure() {
    let good = STANDARD.encode(b"\0relay\0secret");
    let bad = STANDARD.encode(b"\0relay\0wrong");
    assert_eq!(auth_plain(&good, "relay", "secret"), AuthResult::Success);
    assert_eq!(auth_plain(&bad, "relay", "secret"), AuthResult::Failure);
    assert_eq!(
        auth_plain("not base64", "relay", "secret"),
        AuthResult::Failure
    );
}

#[test]
fn plain_ignores_the_authorization_identity() {
    let encoded = STANDARD.encode(b"someone\0relay\0secret");
    assert_eq!(auth_plain(&encoded, "relay", "secret"), AuthResult::Success);
}

#[test]
fn plain_ignores_blanks_around_the_argument() {
    let encoded = format!("  {}\r\n", STANDARD.encode(b"\0relay\0secret"));
    assert_eq!(auth_plain(&encoded, "relay", "secret"), AuthResult::Success);
}

#[test]
fn plain_needs_three_fields() {
    assert_eq!(
        check_plain_message(b"relay\0secret", "relay", "secret"),
        AuthResult::Failure
    );
    assert_eq!(
        check_plain_message(b"\0relay\0secret\0", "relay", "secret"),
        AuthResult::Failure
    );
    assert_eq!(
        check_plain_message(b"\0relay\0secret", "relay", "secret"),
        AuthResult::Success
    );
}

#[test]
fn plain_needs_valid_utf8() {
    assert_eq!(
        check_plain_message(b"\0rel\xffay\0secret", "relay", "secret"),
        AuthResult::Failure
    );
    assert_eq!(
        check_plain_message(b"\0relay\0sec\xffret", "relay", "secret"),
        AuthResult::Failure
    );
    assert_eq!(
        check_plain_message("\0r\u{e9}lay\0s\u{e9}cret".as_bytes(), "r\u{e9}lay", "s\u{e9}cret"),
        AuthResult::Success
    );
}

#[test]
fn credentials_are_case_sensitive() {
    assert_eq!(
        validate_credentials("Relay", "secret", "relay", "secret"),
        AuthResult::Failure
    );
    assert_eq!(
        validate_credentials("relay", "secret ", "relay", "secret"),
        AuthResult::Failure
    );
}

#[test]
fn login_answers_are_decoded() {
    assert_eq!(decode_login_step("cmVsYXk=\r\n"), Ok("relay".to_string()));
    assert_eq!(decode_login_step(""), Ok(String::new()));
    assert_eq!(decode_login_step("cmVsYXk"), Err(AuthResult::Failure));
    assert_eq!(
        decode_login_step(&STANDARD.encode([0xffu8, 0xfe])),
        Err(AuthResult::Failure)
    );
}

#[test]
fn login_answer_must_be_text() {
    assert_eq!(login_answer(b"abc".to_vec()), Ok("abc".to_string()));
    assert_eq!(login_answer(vec![0xc3]), Err(AuthResult::Failure));
}
