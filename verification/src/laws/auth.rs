//! Laws of authentication.
use crate::auth::{credentials_outcome, plain_outcome, AuthResult};
use crate::text::{joined, lemma_pieces_joined, pieces};
use vstd::prelude::*;
use vstd::utf8::{encode_utf8, encode_utf8_decode_utf8, encode_utf8_valid_utf8};

verus! {

/// The PLAIN message of an authorization identity, a user name and a password.
pub open spec fn plain_message(authzid: Seq<u8>, user: Seq<char>, pass: Seq<char>) -> Seq<u8> {
    authzid + seq![0u8] + encode_utf8(user) + seq![0u8] + encode_utf8(pass)
}

/// A PLAIN message is judged by its user name and its password alone; the authorization identity
/// does not matter.
pub proof fn law_plain_message_carries_credentials(
    authzid: Seq<u8>,
    user: Seq<char>,
    pass: Seq<char>,
    expected_user: Seq<char>,
    expected_pass: Seq<char>,
)
    requires
        !authzid.contains(0),
        !encode_utf8(user).contains(0),
        !encode_utf8(pass).contains(0),
    ensures
        plain_outcome(Some(plain_message(authzid, user, pass)), expected_user, expected_pass)
            == credentials_outcome(user, pass, expected_user, expected_pass),
{
    let fields = seq![authzid, encode_utf8(user), encode_utf8(pass)];
    let sep = seq![0u8];
    assert(fields.skip(1) =~= seq![encode_utf8(user), encode_utf8(pass)]);
    assert(fields.skip(1).skip(1) =~= seq![encode_utf8(pass)]);
    assert(joined(fields.skip(1).skip(1), sep) == encode_utf8(pass));
    assert(joined(fields.skip(1), sep) == encode_utf8(user) + sep + encode_utf8(pass));
    assert(joined(fields, sep) =~= plain_message(authzid, user, pass));
    lemma_pieces_joined(fields, sep);
    encode_utf8_valid_utf8(user);
    encode_utf8_decode_utf8(user);
    encode_utf8_valid_utf8(pass);
    encode_utf8_decode_utf8(pass);
}

/// Credentials succeed if and only if they are the expected ones; any other input is a failure.
pub proof fn law_other_input_is_a_failure(
    message: Option<Seq<u8>>,
    expected_user: Seq<char>,
    expected_pass: Seq<char>,
)
    ensures
        plain_outcome(message, expected_user, expected_pass) == AuthResult::Success
            || plain_outcome(message, expected_user, expected_pass) == AuthResult::Failure,
        plain_outcome(message, expected_user, expected_pass) == AuthResult::Success <==> (message
            is Some && exists|authzid: Seq<u8>|
            !authzid.contains(0) && !encode_utf8(expected_user).contains(0) && !encode_utf8(
                expected_pass,
            ).contains(0) && message->0 == #[trigger] plain_message(
                authzid,
                expected_user,
                expected_pass,
            )),
{
    if message is Some {
        let m = message->0;
        let sep = seq![0u8];
        if plain_outcome(message, expected_user, expected_pass) == AuthResult::Success {
            let fields = pieces(m, sep);
            crate::text::lemma_joined_pieces(m, sep);
            crate::text::lemma_pieces_hold_no_separator(m, 0u8);
            assert(fields.skip(1).len() == 2 && fields.skip(1).skip(1).len() == 1);
            assert(joined(fields.skip(1).skip(1), sep) == fields[2]);
            assert(joined(fields.skip(1), sep) == fields[1] + sep + fields[2]);
            vstd::utf8::decode_utf8_encode_utf8(fields[1]);
            vstd::utf8::decode_utf8_encode_utf8(fields[2]);
            assert(m =~= plain_message(fields[0], expected_user, expected_pass));
        }
        if exists|authzid: Seq<u8>|
            !authzid.contains(0) && !encode_utf8(expected_user).contains(0) && !encode_utf8(
                expected_pass,
            ).contains(0) && m == #[trigger] plain_message(authzid, expected_user, expected_pass) {
            let authzid = choose|authzid: Seq<u8>|
                !authzid.contains(0) && !encode_utf8(expected_user).contains(0) && !encode_utf8(
                    expected_pass,
                ).contains(0) && m == #[trigger] plain_message(
                    authzid,
                    expected_user,
                    expected_pass,
                );
            law_plain_message_carries_credentials(
                authzid,
                expected_user,
                expected_pass,
                expected_user,
                expected_pass,
            );
        }
    }
}

} // verus!
