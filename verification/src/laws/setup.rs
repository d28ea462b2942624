//! Laws of configuration and credentials, from the functions' results.
use crate::auth::{
    auth_plain, check_plain_message, decode_login_step, login_answer, validate_credentials,
    AuthResult,
};
use crate::chars::{decimal, int_text, trimmed, CharClass};
use crate::codec::{ascii_lower, base64_decoded, lowercase, uppercase};
use crate::config::{flag_or, number_or, slice_texts, startup_error, Config};
use crate::laws::auth::{law_other_input_is_a_failure, plain_message};
use crate::laws::basics::{law_decimal, law_numbers_read_back};
use crate::map::Variables;
use crate::session::login_or_empty;
use crate::text::joined;
use vstd::prelude::*;
use vstd::utf8::{
    decode_utf8_encode_utf8, encode_utf8, encode_utf8_decode_utf8, encode_utf8_valid_utf8,
    is_ascii_chars, valid_utf8,
};

verus! {

/// The text of a variable is its value, or the default where it is not set.
pub open spec fn has_text(
    vars: Map<Seq<char>, Seq<char>>,
    key: Seq<char>,
    default: Seq<char>,
    text: Seq<char>,
) -> bool {
    &&& vars.contains_key(key) ==> text == vars[key]
    &&& !vars.contains_key(key) ==> text == default
}

/// The text of a variable is its value, where that is not empty; there is none otherwise.
pub open spec fn has_text_if_set(
    vars: Map<Seq<char>, Seq<char>>,
    key: Seq<char>,
    text: Option<String>,
) -> bool {
    &&& vars.contains_key(key) && vars[key].len() > 0 ==> text is Some && text->0@ == vars[key]
    &&& !vars.contains_key(key) || vars[key].len() == 0 ==> text is None
}

/// The text is `true`, in any letter case.
pub open spec fn says_true(s: Seq<char>) -> bool {
    &&& s.len() == 4
    &&& s[0] == 't' || s[0] == 'T'
    &&& s[1] == 'r' || s[1] == 'R'
    &&& s[2] == 'u' || s[2] == 'U'
    &&& s[3] == 'e' || s[3] == 'E'
}

/// The flag is on where its variable says `true`, off where it says anything else in ASCII, and the
/// default where it is not set.
pub open spec fn has_flag(
    vars: Map<Seq<char>, Seq<char>>,
    key: Seq<char>,
    default: bool,
    flag: bool,
) -> bool {
    &&& !vars.contains_key(key) ==> flag == default
    &&& vars.contains_key(key) && is_ascii_chars(vars[key]) ==> flag == says_true(vars[key])
    &&& vars.contains_key(key) ==> flag == (lowercase(vars[key]) == "true"@)
}

/// The number is what its variable says, where that is a number up to `max` in decimal, and the
/// default where it is not set or says something else.
pub open spec fn has_number(
    vars: Map<Seq<char>, Seq<char>>,
    key: Seq<char>,
    max: nat,
    default: nat,
    number: nat,
) -> bool {
    &&& !vars.contains_key(key) ==> number == default
    &&& forall|n: int|
        vars.contains_key(key) && 0 <= n && vars[key] == #[trigger] int_text(n) ==> number == if n
            <= max {
            n as nat
        } else {
            default
        }
    &&& vars.contains_key(key) && (vars[key].len() == 0 || !('0' <= vars[key].last() <= '9'))
        ==> number == default
    &&& vars.contains_key(key) ==> number == match decimal(vars[key], max) {
        Some(n) => n,
        None => default,
    }
}

/// The numbers of variables are as they are written.
proof fn lemma_numbers(
    vars: Map<Seq<char>, Seq<char>>,
    key: Seq<char>,
    max: nat,
    default: nat,
)
    ensures
        has_number(vars, key, max, default, number_or(vars, key, max, default)),
        default <= max ==> number_or(vars, key, max, default) <= max,
{
    if vars.contains_key(key) {
        law_decimal(vars[key], max);
        assert forall|n: int|
            0 <= n && vars[key] == #[trigger] int_text(n) implies number_or(
            vars,
            key,
            max,
            default,
        ) == if n <= max {
            n as nat
        } else {
            default
        } by {
            law_numbers_read_back(n, max);
        }
    }
}

/// The flags of variables are as they are written.
proof fn lemma_flags(vars: Map<Seq<char>, Seq<char>>, key: Seq<char>, default: bool)
    ensures
        has_flag(vars, key, default, flag_or(vars, key, default)),
{
    reveal_strlit("true");
    if vars.contains_key(key) && is_ascii_chars(vars[key]) {
        let v = vars[key];
        let low = lowercase(v);
        assert(low =~= v.map_values(|c: char| ascii_lower(c)));
        if says_true(v) {
            assert(ascii_lower('T') == 't' && ascii_lower('R') == 'r' && ascii_lower('U') == 'u'
                && ascii_lower('E') == 'e');
            assert(low =~= "true"@);
        }
        if low == "true"@ {
            assert(low.len() == 4);
            assert("true"@[0] == 't' && "true"@[1] == 'r' && "true"@[2] == 'u' && "true"@[3]
                == 'e');
            assert(low[0] == ascii_lower(v[0]) && low[1] == ascii_lower(v[1]) && low[2]
                == ascii_lower(v[2]) && low[3] == ascii_lower(v[3]));
            assert(ascii_lower(v[0]) == 't');
            assert(ascii_lower(v[1]) == 'r');
            assert(ascii_lower(v[2]) == 'u');
            assert(ascii_lower(v[3]) == 'e');
            lemma_lower(v[0], 'T');
            lemma_lower(v[1], 'R');
            lemma_lower(v[2], 'U');
            lemma_lower(v[3], 'E');
        }
    }
}

/// Only a letter's two forms have its lower case.
proof fn lemma_lower(c: char, upper: char)
    requires
        'A' <= upper <= 'Z',
        ascii_lower(c) == ascii_lower(upper),
    ensures
        c == upper || c == ascii_lower(upper),
{
    crate::laws::basics::law_letter_case(c);
    crate::laws::basics::law_letter_case(upper);
    if 'A' <= c <= 'Z' {
        assert(c as u32 == upper as u32);
    }
}

/// The configuration that variables give, setting by setting.
#[verifier::rlimit(40)]
pub proof fn law_settings(vars: &Variables, c: Config)
    requires
        call_ensures(Config::from_env, (vars,), c),
    ensures
        has_text(vars@, "RELAY_HOST"@, "0.0.0.0"@, c.relay_host@),
        has_number(vars@, "RELAY_PORT"@, 65535, 8025, c.relay_port as nat),
        has_text_if_set(vars@, "RELAY_USERNAME"@, c.relay_username),
        has_text_if_set(vars@, "RELAY_PASSWORD"@, c.relay_password),
        has_flag(vars@, "TLS_ENABLED"@, false, c.tls_enabled),
        has_text(vars@, "TLS_CERT"@, ""@, c.tls_cert@),
        has_text(vars@, "TLS_KEY"@, ""@, c.tls_key@),
        has_text(vars@, "SL_API_URL"@, "https://app.simplelogin.io"@, c.sl_api_url@),
        has_text_if_set(vars@, "SL_API_KEY"@, c.sl_api_key),
        has_text(vars@, "UPSTREAM_HOST"@, "smtp.gmail.com"@, c.upstream_host@),
        has_number(vars@, "UPSTREAM_PORT"@, 65535, 587, c.upstream_port as nat),
        has_text_if_set(vars@, "UPSTREAM_USERNAME"@, c.upstream_username),
        has_text_if_set(vars@, "UPSTREAM_PASSWORD"@, c.upstream_password),
        has_flag(vars@, "UPSTREAM_STARTTLS"@, true, c.upstream_starttls),
        has_number(vars@, "DATA_TIMEOUT"@, u64::MAX as nat, 30, c.data_timeout as nat),
        has_number(vars@, "UPSTREAM_TIMEOUT"@, u64::MAX as nat, 15, c.upstream_timeout as nat),
        vars@.contains_key("LOG_LEVEL"@) ==> c.log_level@ == uppercase(vars@["LOG_LEVEL"@]),
        !vars@.contains_key("LOG_LEVEL"@) ==> c.log_level@ == uppercase("INFO"@),
{
    lemma_numbers(vars@, "RELAY_PORT"@, 65535, 8025);
    lemma_numbers(vars@, "UPSTREAM_PORT"@, 65535, 587);
    lemma_numbers(vars@, "DATA_TIMEOUT"@, u64::MAX as nat, 30);
    lemma_numbers(vars@, "UPSTREAM_TIMEOUT"@, u64::MAX as nat, 15);
    lemma_flags(vars@, "TLS_ENABLED"@, false);
    lemma_flags(vars@, "UPSTREAM_STARTTLS"@, true);
    let v = c@;
    assert(v.relay_port == c.relay_port && v.upstream_port == c.upstream_port);
}

/// The name, where there is no value.
pub open spec fn name_without(value: Option<String>, name: Seq<char>) -> Seq<Seq<char>> {
    if value is None {
        seq![name]
    } else {
        Seq::empty()
    }
}

/// A configuration passes if and only if the five required values are there and TLS, where it is
/// on, has a certificate and a key. The names of what is missing come in a fixed order, and those
/// of the required values before the TLS files.
pub proof fn law_validation(c: &Config, r: Result<(), Vec<&'static str>>)
    requires
        call_ensures(Config::validate, (c,), r),
    ensures
        r is Ok <==> c.relay_username is Some && c.relay_password is Some && c.sl_api_key is Some
            && c.upstream_username is Some && c.upstream_password is Some && (c.tls_enabled
            ==> c.tls_cert@.len() > 0 && c.tls_key@.len() > 0),
        r matches Err(names) ==> {
            let missing = name_without(c.relay_username, "RELAY_USERNAME"@) + name_without(
                c.relay_password,
                "RELAY_PASSWORD"@,
            ) + name_without(c.sl_api_key, "SL_API_KEY"@) + name_without(
                c.upstream_username,
                "UPSTREAM_USERNAME"@,
            ) + name_without(c.upstream_password, "UPSTREAM_PASSWORD"@);
            &&& missing.len() > 0 ==> names@.map_values(|n: &'static str| n@) == missing
            &&& missing.len() == 0 ==> names@.map_values(|n: &'static str| n@) == seq![
                "TLS_CERT_OR_KEY"@,
            ]
        },
{
    let v = c@;
    if r is Err {
        let names = r->Err_0;
        assert(slice_texts(names@) =~= names@.map_values(|n: &'static str| n@));
        assert(v.missing() =~= name_without(c.relay_username, "RELAY_USERNAME"@) + name_without(
            c.relay_password,
            "RELAY_PASSWORD"@,
        ) + name_without(c.sl_api_key, "SL_API_KEY"@) + name_without(
            c.upstream_username,
            "UPSTREAM_USERNAME"@,
        ) + name_without(c.upstream_password, "UPSTREAM_PASSWORD"@));
    }
}

/// What is said of names that are missing.
pub proof fn law_startup_errors(names: &Vec<&'static str>, r: String)
    requires
        call_ensures(startup_error, (names,), r),
    ensures
        names@.map_values(|n: &'static str| n@) == seq!["TLS_CERT_OR_KEY"@] ==> r@
            == "TLS_ENABLED=true but TLS_CERT or TLS_KEY not set"@,
        names@.map_values(|n: &'static str| n@) != seq!["TLS_CERT_OR_KEY"@] ==> r@
            == "Missing required env vars: "@ + joined(
            names@.map_values(|n: &'static str| n@),
            ", "@,
        ),
{
    assert(slice_texts(names@) =~= names@.map_values(|n: &'static str| n@));
}

/// Credentials are right if and only if both are the expected ones, character for character.
pub proof fn law_credentials(
    user: &str,
    pass: &str,
    expected_user: &str,
    expected_pass: &str,
    r: AuthResult,
)
    requires
        call_ensures(validate_credentials, (user, pass, expected_user, expected_pass), r),
    ensures
        r == AuthResult::Success <==> user@ == expected_user@ && pass@ == expected_pass@,
        r == AuthResult::Failure <==> !(user@ == expected_user@ && pass@ == expected_pass@),
{
}

/// AUTH PLAIN succeeds if and only if its argument, without blanks around it, decodes to an
/// identity, a zero byte, the expected user name, a zero byte and the expected password, with no
/// other zero bytes. Anything else is a failure.
pub proof fn law_plain_credentials(
    encoded: &str,
    message: &[u8],
    expected_user: &str,
    expected_pass: &str,
    r: AuthResult,
)
    ensures
        call_ensures(auth_plain, (encoded, expected_user, expected_pass), r) ==> {
            let decoded = base64_decoded(trimmed(encoded@, CharClass::Whitespace));
            &&& r == AuthResult::Success || r == AuthResult::Failure
            &&& r == AuthResult::Success <==> decoded is Some && exists|id: Seq<u8>|
                !id.contains(0) && !encode_utf8(expected_user@).contains(0) && !encode_utf8(
                    expected_pass@,
                ).contains(0) && decoded->0 == #[trigger] plain_message(
                    id,
                    expected_user@,
                    expected_pass@,
                )
        },
        call_ensures(check_plain_message, (message, expected_user, expected_pass), r) ==> {
            &&& r == AuthResult::Success || r == AuthResult::Failure
            &&& r == AuthResult::Success <==> exists|id: Seq<u8>|
                !id.contains(0) && !encode_utf8(expected_user@).contains(0) && !encode_utf8(
                    expected_pass@,
                ).contains(0) && message@ == #[trigger] plain_message(
                    id,
                    expected_user@,
                    expected_pass@,
                )
        },
{
    law_other_input_is_a_failure(
        base64_decoded(trimmed(encoded@, CharClass::Whitespace)),
        expected_user@,
        expected_pass@,
    );
    law_other_input_is_a_failure(Some(message@), expected_user@, expected_pass@);
}

/// An answer of AUTH LOGIN is the text that its bytes encode, without blanks around the answer. It
/// is refused if it does not decode, or decodes to something that is no text.
pub proof fn law_login_answers(
    encoded: &str,
    r: Result<String, AuthResult>,
    message: Vec<u8>,
    t: Result<String, AuthResult>,
)
    ensures
        call_ensures(decode_login_step, (encoded,), r) ==> {
            let decoded = base64_decoded(trimmed(encoded@, CharClass::Whitespace));
            &&& r is Ok <==> decoded is Some && valid_utf8(decoded->0)
            &&& r matches Ok(s) ==> encode_utf8(s@) == decoded->0
            &&& r matches Err(e) ==> e == AuthResult::Failure
        },
        call_ensures(login_answer, (message,), t) ==> {
            &&& t is Ok <==> valid_utf8(message@)
            &&& t matches Ok(s) ==> encode_utf8(s@) == message@
            &&& t matches Err(e) ==> e == AuthResult::Failure
        },
{
    let decoded = base64_decoded(trimmed(encoded@, CharClass::Whitespace));
    if decoded is Some && valid_utf8(decoded->0) {
        decode_utf8_encode_utf8(decoded->0);
    }
    if valid_utf8(message@) {
        decode_utf8_encode_utf8(message@);
    }
}

/// In a session an answer of AUTH LOGIN that cannot be decoded counts as empty; any other is the
/// text that was encoded.
pub proof fn law_login_answers_in_a_session(answer: Seq<char>, text: Seq<char>)
    ensures
        base64_decoded(trimmed(answer, CharClass::Whitespace)) == Some(encode_utf8(text))
            ==> login_or_empty(answer) == text,
        base64_decoded(trimmed(answer, CharClass::Whitespace)) is None ==> login_or_empty(
            answer,
        ).len() == 0,
        base64_decoded(trimmed(answer, CharClass::Whitespace)) is Some && !valid_utf8(
            base64_decoded(trimmed(answer, CharClass::Whitespace))->0,
        ) ==> login_or_empty(answer).len() == 0,
{
    encode_utf8_valid_utf8(text);
    encode_utf8_decode_utf8(text);
}

} // verus!
