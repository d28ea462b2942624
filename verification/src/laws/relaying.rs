//! Laws of relaying, from the functions' results: what is said to the upstream, how its replies are
//! judged, and what the client is told.
use crate::chars::CharClass;
use crate::codec::{base64_encoded, lossy_text};
use crate::config::Config;
use crate::handler::{
    alias_map_of, bare_address, prepare, printable, reply_to_data, stopped_by, upstream_failure,
    Job, Outcome, Outgoing, RelayHandler,
};
use crate::laws::basics::law_trimmed_end;
use crate::laws::dots::with_dot;
use crate::laws::handler::law_alias_map_covers_the_recipients;
use crate::laws::upstream::{law_dialogue_stops_at_a_refusal, position};
use crate::mail::{address_list, single_mailbox};
use crate::message::{lines_of, rewritten};
use crate::simplelogin_client::{AliasEntry, ApiRequest, LookupError, LookupPhase};
use crate::text::texts;
use crate::upstream::{
    accepts, begins_with_code, can_log_in, exchange_views, has_code, has_credentials,
    has_more_lines, is_last_line, reply_line, script, send_upstream, Dialogue, Exchange,
    ExchangeView, Reply,
};
use vstd::prelude::*;
use vstd::utf8::encode_utf8;

verus! {

/// A reply is judged by its first character alone: it is accepted if and only if that is the wanted
/// one. Where none is wanted any reply will do, an empty one too.
pub proof fn law_replies_are_judged_by_their_first_character(e: ExchangeView, reply: Seq<char>)
    ensures
        forall|c: char|
            e.want == Some(c) ==> (#[trigger] accepts(e, reply) <==> reply.len() > 0 && reply[0]
                == c),
        e.want is None ==> accepts(e, reply),
{
}

/// A dialogue gets past an exchange that wants a character only with a reply that begins with it.
pub proof fn law_dialogue_needs_the_wanted_replies(
    steps: Seq<ExchangeView>,
    replies: Seq<Seq<char>>,
    i: int,
    c: char,
)
    requires
        0 <= i < position(steps, 0, replies),
        steps[i].want == Some(c),
    ensures
        i < replies.len(),
        replies[i].len() > 0,
        replies[i][0] == c,
{
    law_dialogue_stops_at_a_refusal(steps, 0, replies);
    assert(accepts(steps[i], replies[i - 0]));
}

/// A dialogue gets as far as the replies are the wanted ones.
pub proof fn law_dialogue_goes_on_with_the_wanted_replies(
    steps: Seq<ExchangeView>,
    at: int,
    replies: Seq<Seq<char>>,
)
    requires
        0 <= at <= steps.len(),
        replies.len() <= steps.len() - at,
        forall|i: int|
            0 <= i < replies.len() ==> steps[at + i].want is None || (
            #[trigger] replies[i]).len() > 0 && steps[at + i].want == Some(replies[i][0]),
    ensures
        position(steps, at, replies) == at + replies.len(),
    decreases replies.len(),
{
    if replies.len() > 0 {
        let rest = replies.skip(1);
        assert(replies[0].len() > 0 || steps[at + 0].want is None);
        assert forall|i: int| 0 <= i < rest.len() implies steps[at + 1 + i].want is None || (
        #[trigger] rest[i]).len() > 0 && steps[at + 1 + i].want == Some(rest[i][0]) by {
            assert(rest[i] == replies[i + 1]);
            assert(steps[at + (i + 1)].want is None || replies[i + 1].len() > 0);
        }
        law_dialogue_goes_on_with_the_wanted_replies(steps, at + 1, rest);
    }
}

/// What `take_reply` does: the dialogue goes on by one exchange if the reply begins with the wanted
/// character, or none is wanted, and stays where it is otherwise.
pub proof fn law_take_reply(d: &mut Dialogue, reply: &str, r: bool)
    requires
        old(d).at < old(d).steps@.len(),
        call_ensures(Dialogue::take_reply, (d, reply), r),
    ensures
        r <==> match old(d).steps@[old(d).at as int].want {
            Some(c) => reply@.len() > 0 && reply@[0] == c,
            None => true,
        },
        r ==> final(d).at == old(d).at + 1,
        !r ==> final(d).at == old(d).at,
        final(d).steps@ == old(d).steps@,
{
}

/// A command as it is sent: its text and CRLF, with a reply wanted that begins with `want`.
pub open spec fn says(e: Exchange, text: Seq<char>, want: char) -> bool {
    e.send@ == encode_utf8(text) + seq![13u8, 10u8] && e.want == Some(want)
}

/// What is said to the upstream, one exchange after the other, and which replies are wanted. The
/// upstream speaks first. Only `STARTTLS` has the connection upgraded. After the greetings come the
/// credentials in Base64, the user as the sender, every recipient in order, the message by the
/// transparency rule, and the leave-taking, for which any reply will do.
pub proof fn law_what_is_said_upstream(c: &Config, rcpts: &Vec<String>, data: &[u8], d: Dialogue)
    requires
        has_credentials(*c),
        call_ensures(send_upstream, (c, rcpts, data), d),
    ensures
        d.at == 0,
        ({
            let n = if c.upstream_starttls {
                4int
            } else {
                2
            };
            let k = n + 3 + rcpts@.len();
            let user = c.upstream_username->0@;
            let steps = d.steps@;
            &&& steps.len() == k + 3
            &&& steps[0].send@.len() == 0 && steps[0].want == Some('2')
            &&& says(steps[1], "EHLO localhost"@, '2')
            &&& c.upstream_starttls ==> says(steps[2], "STARTTLS"@, '2') && says(
                steps[3],
                "EHLO localhost"@,
                '2',
            )
            &&& says(steps[n], "AUTH LOGIN "@ + base64_encoded(encode_utf8(user)), '3')
            &&& says(
                steps[n + 1],
                base64_encoded(encode_utf8(c.upstream_password->0@)),
                '2',
            )
            &&& says(steps[n + 2], "MAIL FROM:<"@ + user + ">"@, '2')
            &&& forall|i: int|
                0 <= i < rcpts@.len() ==> says(
                    steps[n + 3 + i],
                    "RCPT TO:<"@ + (#[trigger] rcpts@[i])@ + ">"@,
                    '2',
                )
            &&& says(steps[k], "DATA"@, '3')
            &&& steps[k + 1].want == Some('2')
            &&& steps[k + 1].send@ == lines_of(data@).map_values(
                |line: Seq<u8>| with_dot(line),
            ).flatten() + (if data@.len() >= 2 && data@[data@.len() - 2] == 13 && data@[data@.len()
                - 1] == 10 {
                Seq::empty()
            } else {
                seq![13u8, 10u8]
            }) + seq![46u8, 13u8, 10u8]
            &&& steps[k + 2].send@ == encode_utf8("QUIT"@) + seq![13u8, 10u8] && steps[k + 2].want
                is None
            &&& forall|i: int|
                0 <= i < steps.len() ==> ((#[trigger] steps[i]).upgrade <==> c.upstream_starttls
                    && i == 2)
        }),
{
    let user = c.upstream_username->0@;
    let pass = c.upstream_password->0@;
    let views = exchange_views(d.steps@);
    let all = script(c.upstream_starttls, user, pass, texts(rcpts@), data@);
    let n = if c.upstream_starttls {
        4int
    } else {
        2
    };
    let steps = d.steps@;
    assert(views == all);
    assert forall|i: int| 0 <= i < steps.len() implies (#[trigger] steps[i]).send@ == all[i].send
        && steps[i].want == all[i].want && steps[i].upgrade == all[i].upgrade by {
        assert(views[i] == steps[i]@);
    }
    crate::laws::dots::lemma_stuffed_lines(data@);
    crate::laws::upstream::law_envelope_keeps_the_order(
        c.upstream_starttls,
        user,
        pass,
        texts(rcpts@),
        data@,
    );
    assert forall|i: int| 0 <= i < rcpts@.len() implies says(
        steps[n + 3 + i],
        "RCPT TO:<"@ + (#[trigger] rcpts@[i])@ + ">"@,
        '2',
    ) by {
        assert(texts(rcpts@)[i] == rcpts@[i]@);
        assert(all[n + 2 + 1 + i].want == Some('2'));
    }
    assert forall|i: int| 0 <= i < steps.len() implies ((#[trigger] steps[i]).upgrade
        <==> c.upstream_starttls && i == 2) by {
        crate::laws::upstream::law_upgrade_is_as_configured(
            c.upstream_starttls,
            user,
            pass,
            texts(rcpts@),
            data@,
            i,
        );
    }
}

/// The current exchange of a dialogue is the one at its position.
pub proof fn law_current(d: &Dialogue, r: Option<&Exchange>)
    requires
        call_ensures(Dialogue::current, (d,), r),
    ensures
        r is Some <==> d.at < d.steps@.len(),
        r matches Some(e) ==> *e == d.steps@[d.at as int],
{
}

/// Reading of replies. A line loses the line breaks at its end and nothing else. More lines follow
/// a first line with a hyphen behind its code, up to the line with the same code and a space.
pub proof fn law_reply_functions(
    bytes: &[u8],
    line: String,
    first: &str,
    more: bool,
    next: &str,
    last: bool,
    coded: bool,
)
    ensures
        call_ensures(reply_line, (bytes,), line) ==> {
            &&& line@.is_prefix_of(lossy_text(bytes@))
            &&& line@.len() > 0 ==> line@.last() != '\r' && line@.last() != '\n'
            &&& forall|i: int|
                line@.len() <= i < lossy_text(bytes@).len() ==> lossy_text(bytes@)[i] == '\r'
                    || lossy_text(bytes@)[i] == '\n'
        },
        call_ensures(has_more_lines, (first,), more) ==> (more <==> encode_utf8(first@).len() >= 4
            && encode_utf8(first@)[3] == 45),
        encode_utf8(first@).len() >= 4 && encode_utf8(first@)[3] == 45 && call_ensures(
            is_last_line,
            (first, next),
            last,
        ) ==> (last <==> encode_utf8(next@).len() >= 4 && encode_utf8(next@)[0] == encode_utf8(
            first@,
        )[0] && encode_utf8(next@)[1] == encode_utf8(first@)[1] && encode_utf8(next@)[2]
            == encode_utf8(first@)[2] && encode_utf8(next@)[3] == 32),
        call_ensures(begins_with_code, (first,), coded) ==> (coded <==> first@.len() >= 3 && '0'
            <= first@[0] <= '9' && '0' <= first@[1] <= '9' && '0' <= first@[2] <= '9'),
{
    let text = lossy_text(bytes@);
    let n = law_trimmed_end(text, CharClass::LineBreak);
    if call_ensures(reply_line, (bytes,), line) {
        assert(line@ =~= text.take(n));
        assert forall|i: int| line@.len() <= i < text.len() implies text[i] == '\r' || text[i]
            == '\n' by {
            assert(CharClass::LineBreak.has(text[i]));
        }
    }
    let f = encode_utf8(first@);
    let t = encode_utf8(next@);
    if f.len() >= 4 {
        let mark = f.take(3) + seq![32u8];
        if mark.is_prefix_of(t) {
            assert(t[0] == mark[0] && t[1] == mark[1] && t[2] == mark[2] && t[3] == mark[3]);
        }
        if t.len() >= 4 && t[0] == f[0] && t[1] == f[1] && t[2] == f[2] && t[3] == 32 {
            assert(mark =~= t.subrange(0, 4));
            assert(mark.is_prefix_of(t));
        }
    }
}

/// A reply is its first line, and complete once its last line came.
pub proof fn law_replies_of_several_lines(first: String, started: Reply, r: &mut Reply, line: &str)
    ensures
        call_ensures(Reply::start, (first,), started) ==> started.first@ == first@ && (
        started.complete <==> !(encode_utf8(first@).len() >= 4 && encode_utf8(first@)[3] == 45)),
        !old(r).complete && encode_utf8(old(r).first@).len() >= 4 && encode_utf8(old(r).first@)[3]
            == 45 && call_ensures(Reply::add_line, (r, line), ()) ==> final(r).first@
            == old(r).first@ && (final(r).complete <==> encode_utf8(line@).len() >= 4
            && encode_utf8(line@)[0] == encode_utf8(old(r).first@)[0] && encode_utf8(line@)[1]
            == encode_utf8(old(r).first@)[1] && encode_utf8(line@)[2] == encode_utf8(
            old(r).first@,
        )[2] && encode_utf8(line@)[3] == 32),
{
    let f = encode_utf8(old(r).first@);
    let t = encode_utf8(line@);
    if f.len() >= 4 {
        let mark = f.take(3) + seq![32u8];
        if mark.is_prefix_of(t) {
            assert(t[0] == mark[0] && t[1] == mark[1] && t[2] == mark[2] && t[3] == mark[3]);
        }
        if t.len() >= 4 && t[0] == f[0] && t[1] == f[1] && t[2] == f[2] && t[3] == 32 {
            assert(mark =~= t.subrange(0, 4));
            assert(mark.is_prefix_of(t));
        }
    }
}

/// Logging in needs a user and a password, each of a length that can be encoded.
pub proof fn law_can_log_in(c: &Config, r: bool)
    requires
        call_ensures(can_log_in, (c,), r),
    ensures
        r ==> c.upstream_username is Some && c.upstream_password is Some,
        c.upstream_username is Some && c.upstream_password is Some && encode_utf8(
            c.upstream_username->0@,
        ).len() <= isize::MAX / 2 && encode_utf8(c.upstream_password->0@).len() <= isize::MAX / 2
            ==> r,
{
}

/// The visible ASCII characters and spaces of a text are kept, in order, and nothing else is.
pub proof fn law_printable(s: Seq<char>)
    ensures
        printable(s) == s.filter(|c: char| ' ' <= c <= '~'),
    decreases s.len(),
{
    reveal(Seq::filter);
    if s.len() > 0 {
        law_printable(s.drop_last());
    } else {
        assert(printable(s) =~= s.filter(|c: char| ' ' <= c <= '~'));
    }
}

/// What the client is told of a message.
pub proof fn law_replies_to_data(outcome: &Outcome, r: String, reply: &str, failure: Outcome)
    ensures
        call_ensures(reply_to_data, (outcome,), r) ==> match *outcome {
            Outcome::Relayed => r@ == "250 OK"@,
            Outcome::TimedOut => r@ == "451 Timeout processing mail"@,
            Outcome::Refused(said) => r@ == "451 Upstream SMTP error: "@ + said@.filter(
                |c: char| ' ' <= c <= '~',
            ),
            Outcome::Failed => r@ == "451 Internal error"@,
        },
        call_ensures(upstream_failure, (reply,), failure) ==> {
            &&& reply@.len() >= 3 && '0' <= reply@[0] <= '9' && '0' <= reply@[1] <= '9'
                && '0' <= reply@[2] <= '9' ==> failure is Refused && failure->Refused_0@
                == reply@
            &&& !(reply@.len() >= 3 && '0' <= reply@[0] <= '9' && '0' <= reply@[1] <= '9'
                && '0' <= reply@[2] <= '9') ==> failure is Failed
        },
{
    if let Outcome::Refused(said) = *outcome {
        law_printable(said@);
    }
    assert(failure@ == stopped_by(reply@) ==> (failure is Refused <==> has_code(reply@)));
}

/// What is sent of a job: to the address of each recipient's reverse alias, in the order of the
/// recipients, and rewritten with the reverse alias that each recipient has; the last one, where a
/// recipient is named more than once.
pub proof fn law_prepare(job: &Job, sender: &str, r: Outgoing, i: int)
    requires
        job.reverses@.len() == job.rcpt_tos@.len(),
        call_ensures(prepare, (job, sender), r),
    ensures
        r.rcpts@.len() == job.rcpt_tos@.len(),
        0 <= i < job.rcpt_tos@.len() ==> r.rcpts@[i]@ == single_mailbox(
            job.reverses@[i]@,
            address_list(job.reverses@[i]@),
        ).address,
        exists|aliases: Map<Seq<char>, Seq<char>>|
            r.message@ == #[trigger] rewritten(job.data@, aliases, Some(sender@)) && (forall|
                a: Seq<char>,
            | #[trigger] aliases.contains_key(a) <==> texts(job.rcpt_tos@).contains(a)) && (0 <= i
                < job.rcpt_tos@.len() && (forall|j: int|
                i < j < job.rcpt_tos@.len() ==> (#[trigger] job.rcpt_tos@[j])@
                    != job.rcpt_tos@[i]@) ==> aliases[job.rcpt_tos@[i]@] == job.reverses@[i]@),
{
    let rcpts = texts(job.rcpt_tos@);
    let reverses = texts(job.reverses@);
    let aliases = alias_map_of(rcpts, reverses);
    assert(job@.rcpt_tos == rcpts && job@.reverses == reverses);
    assert(r.message@ == rewritten(job.data@, aliases, Some(sender@)));
    assert forall|a: Seq<char>| #[trigger] aliases.contains_key(a) == rcpts.contains(a) by {
        law_alias_map_covers_the_recipients(rcpts, reverses, a);
    }
    let sent = texts(r.rcpts@);
    assert(sent.len() == reverses.len());
    if 0 <= i < job.rcpt_tos@.len() {
        assert(sent[i] == r.rcpts@[i]@);
        assert(reverses[i] == job.reverses@[i]@);
        let a = rcpts[i];
        assert(rcpts.contains(a));
        law_alias_map_covers_the_recipients(rcpts, reverses, a);
        let k = choose|k: int|
            0 <= k < rcpts.len() && rcpts[k] == a && #[trigger] reverses[k] == aliases[a]
                && !rcpts.skip(k + 1).contains(a);
        if forall|j: int|
            i < j < job.rcpt_tos@.len() ==> (#[trigger] job.rcpt_tos@[j])@ != job.rcpt_tos@[i]@ {
            if k > i {
                assert(job.rcpt_tos@[k]@ != a);
            }
            if k < i {
                assert(rcpts.skip(k + 1)[i - k - 1] == a);
            }
            assert(k == i);
        }
    }
}

/// A handler has the configuration and the client that it was made with.
pub proof fn law_handlers(
    config: Config,
    sl: crate::simplelogin_client::SimpleLoginClient,
    h: RelayHandler,
)
    requires
        call_ensures(RelayHandler::new, (config, sl), h),
    ensures
        h.config == config,
        h.sl == sl,
{
}

/// A job starts with the lookup for its first recipient, and asks for what that lookup asks for.
pub proof fn law_jobs_start(
    h: &RelayHandler,
    mail_from: String,
    rcpt_tos: Vec<String>,
    data: Vec<u8>,
    job: Job,
    asked: Option<ApiRequest>,
)
    requires
        call_ensures(RelayHandler::process, (h, mail_from, rcpt_tos, data), job),
        call_ensures(RelayHandler::request, (h, &job), asked),
    ensures
        job.mail_from@ == mail_from@,
        texts(job.rcpt_tos@) == texts(rcpt_tos@),
        job.data@ == data@,
        job.reverses@.len() == 0,
        rcpt_tos@.len() == 0 ==> job.lookup is None && asked is None,
        rcpt_tos@.len() > 0 ==> {
            &&& job.lookup is Some && asked is Some
            &&& job.lookup->0.sender@ == mail_from@
            &&& job.lookup->0.recipient@ == rcpt_tos@[0]@
            &&& asked->0@ == h.sl@.request(job.lookup->0@)
        },
{
    assert(job@.rcpt_tos == texts(rcpt_tos@));
    assert(texts(job.reverses@).len() == 0);
    if rcpt_tos@.len() > 0 {
        assert(texts(rcpt_tos@)[0] == rcpt_tos@[0]@);
        assert(job@.lookup->0 == job.lookup->0@);
    }
}

/// An answer with a reverse alias is noted for the recipient that was asked for, and the lookup for
/// the next recipient starts; an answer without one is an error that names the recipient, and
/// nothing changes.
pub proof fn law_answers_of_jobs(
    h: &RelayHandler,
    job: &mut Job,
    answer: Option<String>,
    r: Result<(), LookupError>,
)
    requires
        old(job)@.wf(),
        old(job).lookup is Some,
        call_ensures(RelayHandler::take_contact, (h, job, answer), r),
    ensures
        r is Ok <==> answer is Some && answer->0@.len() > 0,
        texts(final(job).rcpt_tos@) == texts(old(job).rcpt_tos@),
        final(job).mail_from@ == old(job).mail_from@,
        final(job).data@ == old(job).data@,
        r is Ok ==> {
            let n = old(job).reverses@.len();
            &&& texts(final(job).reverses@) == texts(old(job).reverses@).push(answer->0@)
            &&& n + 1 < old(job).rcpt_tos@.len() ==> final(job).lookup is Some
                && final(job).lookup->0.recipient@ == old(job).rcpt_tos@[n as int + 1]@
                && final(job).lookup->0.sender@ == old(job).mail_from@
            &&& n + 1 == old(job).rcpt_tos@.len() ==> final(job).lookup is None
        },
        r matches Err(e) ==> {
            &&& e is NoReverseAlias
            &&& e->NoReverseAlias_0@ == old(job).rcpt_tos@[old(job).reverses@.len() as int]@
            &&& final(job)@ == old(job)@
        },
{
    let before = old(job)@;
    let after = final(job)@;
    let n = old(job).reverses@.len();
    assert(before.lookup->0 == old(job).lookup->0@);
    assert(before.reverses.len() == n);
    assert(before.rcpt_tos[n as int] == old(job).rcpt_tos@[n as int]@);
    if r is Ok {
        assert(after.reverses == before.reverses.push(answer->0@));
        if n + 1 < old(job).rcpt_tos@.len() {
            assert(before.rcpt_tos[n as int + 1] == old(job).rcpt_tos@[n as int + 1]@);
            assert(after.lookup->0 == final(job).lookup->0@);
        }
    } else {
        let e = r->Err_0;
        assert(e@ is NoReverseAlias);
    }
}

/// A page of aliases for a job goes to its lookup. Without an entry there is an error that names
/// the sender.
pub proof fn law_pages_of_jobs(
    h: &mut RelayHandler,
    job: &mut Job,
    page: &Vec<AliasEntry>,
    r: Result<(), LookupError>,
    n: u64,
    i: int,
)
    requires
        old(job)@.wf(),
        old(job).lookup is Some,
        old(job).lookup->0.phase == LookupPhase::Paging(n),
        n < u64::MAX,
        call_ensures(RelayHandler::take_page, (h, job, page), r),
    ensures
        r is Err <==> page@.len() == 0,
        r matches Err(e) ==> e is AliasNotFound && e->AliasNotFound_0@ == old(job).mail_from@,
        final(h).config == old(h).config,
        final(job).mail_from@ == old(job).mail_from@,
        texts(final(job).rcpt_tos@) == texts(old(job).rcpt_tos@),
        texts(final(job).reverses@) == texts(old(job).reverses@),
        final(job).data@ == old(job).data@,
        final(job).lookup is Some,
        0 <= i < page@.len() && page@[i].email@ == old(job).mail_from@ && (forall|j: int|
            0 <= j < i ==> (#[trigger] page@[j]).email@ != old(job).mail_from@) ==> {
            &&& final(job).lookup->0.phase == LookupPhase::Contact(page@[i].id)
            &&& final(h).sl@.alias_cache == old(h).sl@.alias_cache.insert(
                old(job).mail_from@,
                page@[i].id,
            )
        },
        page@.len() > 0 && (forall|j: int|
            0 <= j < page@.len() ==> (#[trigger] page@[j]).email@ != old(job).mail_from@) ==> {
            &&& final(job).lookup->0.phase == LookupPhase::Paging((n + 1) as u64)
            &&& final(h).sl@.alias_cache == old(h).sl@.alias_cache
        },
{
    let before = old(job)@;
    let after = final(job)@;
    let entries = crate::simplelogin_client::page_view(page@);
    let email = old(job).mail_from@;
    assert(before.lookup->0 == old(job).lookup->0@);
    assert(after.lookup is Some);
    assert(after.lookup->0 == final(job).lookup->0@);
    crate::laws::client::law_found_id_is_the_senders(entries, email);
    if r is Err {
        assert(r->Err_0@ is AliasNotFound);
    }
    if 0 <= i < page@.len() && page@[i].email@ == email && (forall|j: int|
        0 <= j < i ==> (#[trigger] page@[j]).email@ != email) {
        assert forall|j: int| 0 <= j < i implies (#[trigger] entries[j]).email != email by {
            assert(page@[j].email@ != email);
        }
        crate::laws::client::law_first_entry_counts(entries, email, i);
    }
    if forall|j: int| 0 <= j < page@.len() ==> (#[trigger] page@[j]).email@ != email {
        assert forall|j: int| 0 <= j < entries.len() implies (#[trigger] entries[j]).email
            != email by {
            assert(page@[j].email@ != email);
        }
    }
}

/// The dialogue of a job is the one of its recipients' addresses and its rewritten message, with
/// the upstream's user as the sender.
pub proof fn law_dialogue_of_a_job(h: &RelayHandler, job: &Job, d: Dialogue, i: int)
    requires
        has_credentials(h.config),
        job.reverses@.len() == job.rcpt_tos@.len(),
        call_ensures(RelayHandler::dialogue, (h, job), d),
        0 <= i < job.rcpt_tos@.len(),
    ensures
        ({
            let n = if h.config.upstream_starttls {
                4int
            } else {
                2
            };
            let user = h.config.upstream_username->0@;
            &&& d.at == 0
            &&& d.steps@.len() == n + 6 + job.rcpt_tos@.len()
            &&& says(d.steps@[n + 2], "MAIL FROM:<"@ + user + ">"@, '2')
            &&& says(
                d.steps@[n + 3 + i],
                "RCPT TO:<"@ + single_mailbox(
                    job.reverses@[i]@,
                    address_list(job.reverses@[i]@),
                ).address + ">"@,
                '2',
            )
            &&& d.steps@[n + 4 + job.rcpt_tos@.len()].send@ == crate::dots::payload(
                rewritten(
                    job.data@,
                    alias_map_of(texts(job.rcpt_tos@), texts(job.reverses@)),
                    Some(user),
                ),
            )
        }),
{
    let user = h.config.upstream_username->0@;
    let pass = h.config.upstream_password->0@;
    let n = if h.config.upstream_starttls {
        4int
    } else {
        2
    };
    let rcpts = job@.envelope_rcpts();
    let message = job@.outgoing_message(user);
    let all = script(h.config.upstream_starttls, user, pass, rcpts, message);
    let views = exchange_views(d.steps@);
    assert(views == all);
    assert(rcpts.len() == job.reverses@.len());
    assert(rcpts[i] == bare_address(job.reverses@[i]@));
    lemma_places(h.config.upstream_starttls, user, pass, rcpts, message, i);
    assert(views.len() == d.steps@.len());
    let k = n + 4 + rcpts.len();
    assert(views[n + 2] == d.steps@[n + 2]@);
    assert(views[n + 3 + i] == d.steps@[n + 3 + i]@);
    assert(views[k] == d.steps@[k]@);
}

/// Where the exchanges of a dialogue stand.
proof fn lemma_places(
    starttls: bool,
    user: Seq<char>,
    pass: Seq<char>,
    rcpts: Seq<Seq<char>>,
    message: Seq<u8>,
    i: int,
)
    requires
        0 <= i < rcpts.len(),
    ensures
        ({
            let n = if starttls {
                4int
            } else {
                2
            };
            let all = script(starttls, user, pass, rcpts, message);
            &&& all.len() == n + 6 + rcpts.len()
            &&& all[n + 2] == crate::upstream::command("MAIL FROM:<"@ + user + ">"@, '2')
            &&& all[n + 3 + i] == crate::upstream::command("RCPT TO:<"@ + rcpts[i] + ">"@, '2')
            &&& all[n + 4 + rcpts.len()].send == crate::dots::payload(message)
        }),
{
    let n = if starttls {
        4int
    } else {
        2
    };
    let all = script(starttls, user, pass, rcpts, message);
    crate::laws::upstream::law_envelope_keeps_the_order(starttls, user, pass, rcpts, message);
    assert(crate::upstream::opening(starttls).len() + 2 == n + 2);
    assert(rcpts[i] == rcpts[i]);
    assert(all[n + 2 + 1 + i] == crate::upstream::command("RCPT TO:<"@ + rcpts[i] + ">"@, '2'));
    assert(all[n + 4 + rcpts.len()] == crate::upstream::delivery(message)[1]);
}

} // verus!
