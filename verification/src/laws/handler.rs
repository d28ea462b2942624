//! Laws of relaying.
use crate::handler::{
    alias_map_of, bare_address, data_reply, is_printable, printable, stopped_by, JobView,
    OutcomeView,
};
use crate::simplelogin_client::{ClientView, EntryView};
use crate::upstream::has_code;
use vstd::prelude::*;

verus! {

/// What is left of a text is printable.
proof fn lemma_printable(s: Seq<char>)
    ensures
        forall|i: int| 0 <= i < printable(s).len() ==> is_printable(#[trigger] printable(s)[i]),
    decreases s.len(),
{
    if s.len() > 0 {
        lemma_printable(s.drop_last());
        let init = printable(s.drop_last());
        assert forall|i: int| 0 <= i < printable(s).len() implies is_printable(
            #[trigger] printable(s)[i],
        ) by {
            if i < init.len() {
                assert(is_printable(init[i]));
            }
        }
    }
}

/// The reply to a message is a single line of printable characters, whatever the upstream said.
/// It begins with `250` if the message was relayed, and with `451` otherwise.
pub proof fn law_data_reply_is_one_line(outcome: OutcomeView)
    ensures
        forall|i: int|
            0 <= i < data_reply(outcome).len() ==> is_printable(#[trigger] data_reply(outcome)[i]),
        outcome is Relayed ==> seq!['2', '5', '0', ' '].is_prefix_of(data_reply(outcome)),
        !(outcome is Relayed) ==> seq!['4', '5', '1', ' '].is_prefix_of(data_reply(outcome)),
{
    reveal_strlit("250 OK");
    reveal_strlit("451 Timeout processing mail");
    reveal_strlit("451 Upstream SMTP error: ");
    reveal_strlit("451 Internal error");
    if let OutcomeView::Refused(reply) = outcome {
        lemma_printable(reply);
        let text = data_reply(outcome);
        let start = "451 Upstream SMTP error: "@;
        assert forall|i: int| 0 <= i < text.len() implies is_printable(#[trigger] text[i]) by {
            if i >= start.len() {
                assert(text[i] == printable(reply)[i - start.len()]);
            }
        }
    }
}

/// A reply of the upstream that stops the relaying is reported if it has a code; any other failure
/// is an internal error.
pub proof fn law_upstream_errors_are_reported(reply: Seq<char>)
    ensures
        has_code(reply) ==> data_reply(stopped_by(reply)) == "451 Upstream SMTP error: "@
            + printable(reply),
        !has_code(reply) ==> data_reply(stopped_by(reply)) == "451 Internal error"@,
{
}

/// The reverse aliases cover the recipients and nobody else. A recipient that was named more than
/// once has the alias that was found for it last.
pub proof fn law_alias_map_covers_the_recipients(
    rcpts: Seq<Seq<char>>,
    reverses: Seq<Seq<char>>,
    address: Seq<char>,
)
    requires
        rcpts.len() == reverses.len(),
    ensures
        alias_map_of(rcpts, reverses).contains_key(address) <==> rcpts.contains(address),
        rcpts.contains(address) ==> exists|i: int|
            0 <= i < rcpts.len() && rcpts[i] == address && #[trigger] reverses[i] == alias_map_of(
                rcpts,
                reverses,
            )[address] && !rcpts.skip(i + 1).contains(address),
    decreases rcpts.len(),
{
    if rcpts.len() > 0 {
        let r = rcpts.drop_last();
        let v = reverses.drop_last();
        let n = rcpts.len() - 1;
        law_alias_map_covers_the_recipients(r, v, address);
        if address == rcpts.last() {
            assert(rcpts[n] == address);
            assert(reverses[n] == alias_map_of(rcpts, reverses)[address]);
            assert(rcpts.skip(n + 1).len() == 0);
        } else {
            if rcpts.contains(address) {
                let i = choose|i: int| 0 <= i < rcpts.len() && rcpts[i] == address;
                assert(r[i] == address);
                let k = choose|k: int|
                    0 <= k < r.len() && r[k] == address && #[trigger] v[k] == alias_map_of(
                        r,
                        v,
                    )[address] && !r.skip(k + 1).contains(address);
                assert(reverses[k] == v[k]);
                assert(rcpts[k] == address);
                assert forall|j: int| 0 <= j < rcpts.skip(k + 1).len() implies (
                #[trigger] rcpts.skip(k + 1)[j]) != address by {
                    if j < r.skip(k + 1).len() {
                        assert(r.skip(k + 1)[j] == rcpts.skip(k + 1)[j]);
                    }
                }
            }
            if r.contains(address) {
                let i = choose|i: int| 0 <= i < r.len() && r[i] == address;
                assert(rcpts[i] == address);
            }
        }
    }
}

/// What happens to a job while its recipients' reverse aliases are looked up.
pub enum JobEvent {
    /// A page of aliases came.
    Page(Seq<EntryView>),
    /// An answer named a reverse alias; what the client knew by then.
    Answer(Seq<char>, ClientView),
}

/// The job after the events.
pub open spec fn after_events(job: JobView, events: Seq<JobEvent>) -> JobView
    decreases events.len(),
{
    if events.len() == 0 {
        job
    } else {
        let before = after_events(job, events.drop_last());
        match events.last() {
            JobEvent::Page(page) => before.turned(page),
            JobEvent::Answer(reverse, client) => before.resolved_with(reverse, client),
        }
    }
}

/// The reverse aliases that the events name.
pub open spec fn answers(events: Seq<JobEvent>) -> Seq<Seq<char>>
    decreases events.len(),
{
    if events.len() == 0 {
        Seq::empty()
    } else {
        match events.last() {
            JobEvent::Page(_) => answers(events.drop_last()),
            JobEvent::Answer(reverse, _) => answers(events.drop_last()).push(reverse),
        }
    }
}

/// Whatever pages come in between, a job notes the reverse aliases in the order of its recipients,
/// and is resolved once there is one for each: the envelope then holds, in that order, the bare
/// address of each recipient's reverse alias. Sender, recipients and message stay as they are.
pub proof fn law_each_recipient_gets_its_answer(job: JobView, events: Seq<JobEvent>)
    requires
        job.wf(),
        job.reverses.len() == 0,
        answers(events).len() <= job.rcpt_tos.len(),
    ensures
        after_events(job, events).wf(),
        after_events(job, events).reverses == answers(events),
        after_events(job, events).rcpt_tos == job.rcpt_tos,
        after_events(job, events).mail_from == job.mail_from,
        after_events(job, events).data == job.data,
        after_events(job, events).is_resolved() <==> answers(events).len() == job.rcpt_tos.len(),
        after_events(job, events).envelope_rcpts() == answers(events).map_values(
            |r: Seq<char>| bare_address(r),
        ),
    decreases events.len(),
{
    if events.len() > 0 {
        law_each_recipient_gets_its_answer(job, events.drop_last());
    } else {
        assert(after_events(job, events).reverses =~= answers(events));
    }
}

} // verus!
