//! Laws of the client side of SMTP.
use crate::dots::read_back;
use crate::laws::dots::{completed, law_payload_reads_back};
use crate::upstream::{accepts, command, delivery, envelope, login, opening, script, ExchangeView};
use vstd::prelude::*;

verus! {

/// The position of a dialogue after the replies, from position `at` on. A reply that does not let
/// the dialogue go on ends it there.
pub open spec fn position(steps: Seq<ExchangeView>, at: int, replies: Seq<Seq<char>>) -> int
    decreases replies.len(),
{
    if replies.len() == 0 || !(0 <= at < steps.len()) || !accepts(steps[at], replies[0]) {
        at
    } else {
        position(steps, at + 1, replies.skip(1))
    }
}

/// A dialogue gets to an exchange only if each exchange before it was accepted: nothing more is
/// sent after a reply that is not the wanted one.
pub proof fn law_dialogue_stops_at_a_refusal(
    steps: Seq<ExchangeView>,
    at: int,
    replies: Seq<Seq<char>>,
)
    requires
        0 <= at <= steps.len(),
    ensures
        at <= position(steps, at, replies) <= steps.len(),
        position(steps, at, replies) - at <= replies.len(),
        forall|i: int|
            at <= i < position(steps, at, replies) ==> accepts(
                #[trigger] steps[i],
                replies[i - at],
            ),
    decreases replies.len(),
{
    if replies.len() == 0 || at >= steps.len() || !accepts(steps[at], replies[0]) {
    } else {
        let rest = replies.skip(1);
        law_dialogue_stops_at_a_refusal(steps, at + 1, rest);
        assert forall|i: int| at <= i < position(steps, at, replies) implies accepts(
            #[trigger] steps[i],
            replies[i - at],
        ) by {
            if i > at {
                assert(rest[i - at - 1] == replies[i - at]);
            }
        }
    }
}

/// Each exchange of a relayed message but the leave-taking needs a reply of its own kind.
pub proof fn law_only_the_leave_taking_may_fail(
    starttls: bool,
    username: Seq<char>,
    password: Seq<char>,
    rcpts: Seq<Seq<char>>,
    message: Seq<u8>,
)
    ensures
        forall|i: int|
            0 <= i < script(starttls, username, password, rcpts, message).len() ==> ((
            #[trigger] script(starttls, username, password, rcpts, message)[i]).want is None <==> i
                == script(starttls, username, password, rcpts, message).len() - 1),
{
    let steps = script(starttls, username, password, rcpts, message);
    let start = opening(starttls) + login(username, password);
    let named = envelope(username, rcpts);
    let end = delivery(message);
    assert forall|i: int| 0 <= i < steps.len() implies ((#[trigger] steps[i]).want is None <==> i
        == steps.len() - 1) by {
        if i < start.len() {
            assert(steps[i] == start[i]);
        } else if i < start.len() + named.len() {
            assert(steps[i] == named[i - start.len()]);
        } else {
            assert(steps[i] == end[i - start.len() - named.len()]);
        }
    }
}

/// The envelope names the upstream's user as the sender, and each recipient in order.
pub proof fn law_envelope_keeps_the_order(
    starttls: bool,
    username: Seq<char>,
    password: Seq<char>,
    rcpts: Seq<Seq<char>>,
    message: Seq<u8>,
)
    ensures
        ({
            let steps = script(starttls, username, password, rcpts, message);
            let n = opening(starttls).len() + 2;
            &&& steps.len() == n + 1 + rcpts.len() + 3
            &&& steps[n as int] == command("MAIL FROM:<"@ + username + ">"@, '2')
            &&& forall|i: int|
                0 <= i < rcpts.len() ==> steps[n + 1 + i] == command(
                    "RCPT TO:<"@ + #[trigger] rcpts[i] + ">"@,
                    '2',
                )
        }),
{
    let steps = script(starttls, username, password, rcpts, message);
    let n = opening(starttls).len() + 2;
    let start = opening(starttls) + login(username, password);
    assert(start.len() == n);
    assert forall|i: int| 0 <= i < rcpts.len() implies steps[n + 1 + i] == command(
        "RCPT TO:<"@ + #[trigger] rcpts[i] + ">"@,
        '2',
    ) by {
        assert(steps[n + 1 + i] == envelope(username, rcpts)[1 + i]);
    }
}

/// With STARTTLS, what is sent before the connection is upgraded tells nothing of the credentials,
/// the recipients or the message.
pub proof fn law_secrets_follow_the_upgrade(
    username: Seq<char>,
    password: Seq<char>,
    rcpts: Seq<Seq<char>>,
    message: Seq<u8>,
)
    ensures
        script(true, username, password, rcpts, message)[2].upgrade,
        script(true, username, password, rcpts, message).take(3) == opening(true).take(3),
{
    let steps = script(true, username, password, rcpts, message);
    assert(steps.take(3) =~= opening(true).take(3));
}

/// The connection is upgraded once, after `STARTTLS` and before anything else than greetings, if
/// it is wanted, and never otherwise.
pub proof fn law_upgrade_is_as_configured(
    starttls: bool,
    username: Seq<char>,
    password: Seq<char>,
    rcpts: Seq<Seq<char>>,
    message: Seq<u8>,
    i: int,
)
    requires
        0 <= i < script(starttls, username, password, rcpts, message).len(),
    ensures
        script(starttls, username, password, rcpts, message)[i].upgrade <==> starttls && i == 2,
{
    let start = opening(starttls) + login(username, password);
    let named = envelope(username, rcpts);
    let steps = script(starttls, username, password, rcpts, message);
    if i < start.len() {
        assert(steps[i] == start[i]);
    } else if i < start.len() + named.len() {
        assert(steps[i] == named[i - start.len()]);
    } else {
        assert(steps[i] == delivery(message)[i - start.len() - named.len()]);
    }
}

/// The upstream reads the message as it was handed to the dialogue, with CRLF after it where it
/// did not end with it.
pub proof fn law_upstream_reads_the_message(
    starttls: bool,
    username: Seq<char>,
    password: Seq<char>,
    rcpts: Seq<Seq<char>>,
    message: Seq<u8>,
)
    ensures
        ({
            let steps = script(starttls, username, password, rcpts, message);
            &&& steps[steps.len() - 3] == command("DATA"@, '3')
            &&& read_back(steps[steps.len() - 2].send) == Some(completed(message))
        }),
{
    law_payload_reads_back(message);
}

} // verus!
