//! Decoding and checking of SMTP AUTH LOGIN and AUTH PLAIN credentials.
//!
//! Only credentials that equal the expected ones, character for character, are accepted. Any
//! other input is a failure.
use crate::chars::{chars_of, same_text, text_of, trim, trimmed, CharClass};
use crate::codec::{base64_decode, base64_decoded, utf8_text};
use crate::text::{pieces, split};
use vstd::prelude::*;
use vstd::utf8::{decode_utf8, valid_utf8};

verus! {

/// The outcome of an authentication attempt.
#[derive(Debug, Clone, PartialEq, Eq, Structural)]
pub enum AuthResult {
    /// The credentials are the expected ones.
    Success,
    /// The credentials are wrong or could not be decoded.
    Failure,
    /// A mechanism other than LOGIN and PLAIN was asked for.
    Unsupported,
}

/// The outcome for a user name and a password.
pub open spec fn credentials_outcome(
    user: Seq<char>,
    pass: Seq<char>,
    expected_user: Seq<char>,
    expected_pass: Seq<char>,
) -> AuthResult {
    if user == expected_user && pass == expected_pass {
        AuthResult::Success
    } else {
        AuthResult::Failure
    }
}

/// The outcome for a decoded PLAIN message: an authorization identity, which is ignored, a user
/// name and a password, with a zero byte between each two.
pub open spec fn plain_outcome(
    message: Option<Seq<u8>>,
    expected_user: Seq<char>,
    expected_pass: Seq<char>,
) -> AuthResult {
    match message {
        None => AuthResult::Failure,
        Some(m) => {
            let fields = pieces(m, seq![0u8]);
            if fields.len() == 3 && valid_utf8(fields[1]) && valid_utf8(fields[2]) {
                credentials_outcome(
                    decode_utf8(fields[1]),
                    decode_utf8(fields[2]),
                    expected_user,
                    expected_pass,
                )
            } else {
                AuthResult::Failure
            }
        },
    }
}

/// The text of a decoded LOGIN answer.
pub open spec fn login_text(message: Option<Seq<u8>>) -> Option<Seq<char>> {
    match message {
        Some(m) => if valid_utf8(m) {
            Some(decode_utf8(m))
        } else {
            None
        },
        None => None,
    }
}

/// Checks a user name and a password against the expected ones.
pub fn validate_credentials(
    username: &str,
    password: &str,
    expected_user: &str,
    expected_pass: &str,
) -> (r: AuthResult)
    ensures
        r == credentials_outcome(username@, password@, expected_user@, expected_pass@),
{
    if same_text(username, expected_user) && same_text(password, expected_pass) {
        AuthResult::Success
    } else {
        AuthResult::Failure
    }
}

/// Checks a decoded PLAIN message against the expected credentials.
pub fn check_plain_message(message: &[u8], expected_user: &str, expected_pass: &str) -> (r:
    AuthResult)
    ensures
        r == plain_outcome(Some(message@), expected_user@, expected_pass@),
{
    let zero: Vec<u8> = vec![0u8];
    assert(zero@ =~= seq![0u8]);
    let mut fields: Vec<Vec<u8>> = split(message, zero.as_slice());
    assert(fields@.len() == pieces(message@, seq![0u8]).len());
    if fields.len() != 3 {
        return AuthResult::Failure;
    }
    assert(fields@[1]@ == pieces(message@, seq![0u8])[1]);
    assert(fields@[2]@ == pieces(message@, seq![0u8])[2]);
    let pass_bytes: Vec<u8> = fields.remove(2);
    let user_bytes: Vec<u8> = fields.remove(1);
    match (utf8_text(user_bytes), utf8_text(pass_bytes)) {
        (Some(user), Some(pass)) => validate_credentials(
            user.as_str(),
            pass.as_str(),
            expected_user,
            expected_pass,
        ),
        _ => AuthResult::Failure,
    }
}

/// Checks the argument of AUTH PLAIN against the expected credentials.
pub fn auth_plain(encoded: &str, expected_user: &str, expected_pass: &str) -> (r: AuthResult)
    ensures
        r == plain_outcome(
            base64_decoded(trimmed(encoded@, CharClass::Whitespace)),
            expected_user@,
            expected_pass@,
        ),
{
    let bare: String = text_of(trim(chars_of(encoded).as_slice(), CharClass::Whitespace).as_slice());
    match base64_decode(bare.as_str()) {
        Ok(message) => check_plain_message(message.as_slice(), expected_user, expected_pass),
        Err(_) => AuthResult::Failure,
    }
}

/// The text of a decoded LOGIN answer, if it is valid UTF-8.
pub fn login_answer(message: Vec<u8>) -> (r: Result<String, AuthResult>)
    ensures
        match r {
            Ok(s) => login_text(Some(message@)) == Some(s@),
            Err(e) => login_text(Some(message@)) is None && e == AuthResult::Failure,
        },
{
    match utf8_text(message) {
        Some(s) => Ok(s),
        None => Err(AuthResult::Failure),
    }
}

/// Decodes one answer of AUTH LOGIN.
pub fn decode_login_step(encoded: &str) -> (r: Result<String, AuthResult>)
    ensures
        match r {
            Ok(s) => login_text(base64_decoded(trimmed(encoded@, CharClass::Whitespace))) == Some(
                s@,
            ),
            Err(e) => login_text(
                base64_decoded(trimmed(encoded@, CharClass::Whitespace)),
            ) is None && e == AuthResult::Failure,
        },
{
    let bare: String = text_of(trim(chars_of(encoded).as_slice(), CharClass::Whitespace).as_slice());
    match base64_decode(bare.as_str()) {
        Ok(message) => login_answer(message),
        Err(_) => Err(AuthResult::Failure),
    }
}

} // verus!
