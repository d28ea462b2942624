//! Relaying of an accepted message: the reverse aliases of its recipients, the rewritten message,
//! the dialogue with the upstream, and the reply to the client.
use crate::chars::{chars_of, optional_text};
use crate::config::Config;
use crate::mail::{address_list, parse_single_addr, single_mailbox};
use crate::map::AliasMap;
use crate::message::{relay_message, rewritten};
use crate::simplelogin_client::{
    page_view, take_contact, AliasEntry, ApiRequest, ClientView, EntryView, Lookup, LookupError,
    LookupErrorView, LookupPhase, LookupView, SimpleLoginClient,
};
use crate::text::texts;
use crate::upstream::{
    begins_with_code, exchange_views, has_code, has_credentials, script, send_upstream, Dialogue,
};
use vstd::prelude::*;
use vstd::string::StringExecFns;

verus! {

/// A message to relay, and what is known of its recipients' reverse aliases.
pub struct Job {
    pub mail_from: String,
    pub rcpt_tos: Vec<String>,
    pub data: Vec<u8>,
    /// The reverse aliases of the first recipients, in order.
    pub reverses: Vec<String>,
    /// The lookup for the recipient that comes next, if there is one.
    pub lookup: Option<Lookup>,
}

/// What a [`Job`] holds.
#[verifier::ext_equal]
pub struct JobView {
    pub mail_from: Seq<char>,
    pub rcpt_tos: Seq<Seq<char>>,
    pub data: Seq<u8>,
    pub reverses: Seq<Seq<char>>,
    pub lookup: Option<LookupView>,
}

impl View for Job {
    type V = JobView;

    open spec fn view(&self) -> JobView {
        JobView {
            mail_from: self.mail_from@,
            rcpt_tos: texts(self.rcpt_tos@),
            data: self.data@,
            reverses: texts(self.reverses@),
            lookup: match self.lookup {
                Some(l) => Some(l@),
                None => None,
            },
        }
    }
}

/// A message ready to be sent upstream.
pub struct Outgoing {
    pub rcpts: Vec<String>,
    pub message: Vec<u8>,
}

/// How the processing of a message ended.
#[derive(Debug)]
pub enum Outcome {
    /// The upstream took the message.
    Relayed,
    /// The time for processing ran out.
    TimedOut,
    /// The upstream answered with a code that stops the relaying; its reply.
    Refused(String),
    /// Something else went wrong.
    Failed,
}

/// What an [`Outcome`] holds.
pub enum OutcomeView {
    Relayed,
    TimedOut,
    Refused(Seq<char>),
    Failed,
}

impl View for Outcome {
    type V = OutcomeView;

    open spec fn view(&self) -> OutcomeView {
        match self {
            Outcome::Relayed => OutcomeView::Relayed,
            Outcome::TimedOut => OutcomeView::TimedOut,
            Outcome::Refused(reply) => OutcomeView::Refused(reply@),
            Outcome::Failed => OutcomeView::Failed,
        }
    }
}

/// The character is visible ASCII or a space.
pub open spec fn is_printable(c: char) -> bool {
    ' ' <= c <= '~'
}

/// The printable characters of a text.
pub open spec fn printable(s: Seq<char>) -> Seq<char>
    decreases s.len(),
{
    if s.len() == 0 {
        Seq::empty()
    } else if is_printable(s.last()) {
        printable(s.drop_last()).push(s.last())
    } else {
        printable(s.drop_last())
    }
}

/// The reply to the client for an outcome.
pub open spec fn data_reply(outcome: OutcomeView) -> Seq<char> {
    match outcome {
        OutcomeView::Relayed => "250 OK"@,
        OutcomeView::TimedOut => "451 Timeout processing mail"@,
        OutcomeView::Refused(reply) => "451 Upstream SMTP error: "@ + printable(reply),
        OutcomeView::Failed => "451 Internal error"@,
    }
}

/// The outcome of a reply that stops the dialogue with the upstream.
pub open spec fn stopped_by(reply: Seq<char>) -> OutcomeView {
    if has_code(reply) {
        OutcomeView::Refused(reply)
    } else {
        OutcomeView::Failed
    }
}

/// The reverse aliases by recipient: the last one counts where a recipient occurs twice.
pub open spec fn alias_map_of(rcpts: Seq<Seq<char>>, reverses: Seq<Seq<char>>) -> Map<
    Seq<char>,
    Seq<char>,
>
    decreases rcpts.len(),
{
    if rcpts.len() == 0 {
        Map::empty()
    } else {
        alias_map_of(rcpts.drop_last(), reverses.drop_last()).insert(rcpts.last(), reverses.last())
    }
}

/// The address that stands for a recipient in the envelope.
pub open spec fn bare_address(reverse: Seq<char>) -> Seq<char> {
    single_mailbox(reverse, address_list(reverse)).address
}

impl JobView {
    /// Each recipient has its reverse alias.
    pub open spec fn is_resolved(self) -> bool {
        self.reverses.len() == self.rcpt_tos.len()
    }

    /// The lookup is for the first recipient without a reverse alias; there is none where each
    /// has one.
    pub open spec fn wf(self) -> bool {
        match self.lookup {
            Some(l) => {
                &&& self.reverses.len() < self.rcpt_tos.len()
                &&& l.sender == self.mail_from
                &&& l.recipient == self.rcpt_tos[self.reverses.len() as int]
            },
            None => self.is_resolved(),
        }
    }

    /// The job with the lookup for its first recipient without a reverse alias.
    pub open spec fn with_next_lookup(self, client: ClientView) -> JobView {
        JobView {
            lookup: if self.reverses.len() < self.rcpt_tos.len() {
                Some(client.started(self.mail_from, self.rcpt_tos[self.reverses.len() as int]))
            } else {
                None
            },
            ..self
        }
    }

    /// The job after a page of aliases for its lookup.
    pub open spec fn turned(self, page: Seq<EntryView>) -> JobView {
        JobView {
            lookup: match self.lookup {
                Some(l) => Some(l.turned(page)),
                None => None,
            },
            ..self
        }
    }

    /// The job after the answer to its lookup: the reverse alias is noted, and the lookup for the
    /// next recipient starts.
    pub open spec fn resolved_with(self, reverse: Seq<char>, client: ClientView) -> JobView {
        JobView { reverses: self.reverses.push(reverse), ..self }.with_next_lookup(client)
    }

    /// The recipients of the envelope, in the order of the recipients.
    pub open spec fn envelope_rcpts(self) -> Seq<Seq<char>> {
        self.reverses.map_values(|r: Seq<char>| bare_address(r))
    }

    /// The message that is sent, with the sender in its `From`.
    pub open spec fn outgoing_message(self, sender: Seq<char>) -> Seq<u8> {
        rewritten(self.data, alias_map_of(self.rcpt_tos, self.reverses), Some(sender))
    }
}

/// The printable characters of a text.
fn keep_printable(s: &str) -> (r: String)
    ensures
        r@ == printable(s@),
{
    let all = chars_of(s);
    let mut out: String = String::new();
    let mut i: usize = 0;
    assert(out@ =~= printable(all@.take(0)));
    while i < all.len()
        invariant
            i <= all.len(),
            all@ == s@,
            out@ == printable(all@.take(i as int)),
        decreases all.len() - i,
    {
        assert(all@.take(i + 1).drop_last() =~= all@.take(i as int));
        let c: char = all[i];
        if ' ' <= c && c <= '~' {
            out.push(c);
        }
        i += 1;
    }
    assert(all@.take(i as int) =~= all@);
    out
}

/// The reply to the client for an outcome: a single line.
pub fn reply_to_data(outcome: &Outcome) -> (r: String)
    ensures
        r@ == data_reply(outcome@),
{
    match outcome {
        Outcome::Relayed => "250 OK".to_owned(),
        Outcome::TimedOut => "451 Timeout processing mail".to_owned(),
        Outcome::Refused(reply) => {
            let mut r: String = "451 Upstream SMTP error: ".to_owned();
            r.append(keep_printable(reply.as_str()).as_str());
            r
        },
        Outcome::Failed => "451 Internal error".to_owned(),
    }
}

/// The outcome of a reply that stops the dialogue with the upstream.
pub fn upstream_failure(reply: &str) -> (r: Outcome)
    ensures
        r@ == stopped_by(reply@),
{
    if begins_with_code(reply) {
        Outcome::Refused(reply.to_owned())
    } else {
        Outcome::Failed
    }
}

/// The reverse aliases by recipient.
fn collect_aliases(rcpts: &Vec<String>, reverses: &Vec<String>) -> (r: AliasMap)
    requires
        rcpts.len() == reverses.len(),
    ensures
        r@ == alias_map_of(texts(rcpts@), texts(reverses@)),
{
    let ghost keys = texts(rcpts@);
    let ghost values = texts(reverses@);
    let mut map = AliasMap::new();
    let mut i: usize = 0;
    while i < rcpts.len()
        invariant
            i <= rcpts.len(),
            rcpts.len() == reverses.len(),
            keys == texts(rcpts@),
            values == texts(reverses@),
            map@ == alias_map_of(keys.take(i as int), values.take(i as int)),
        decreases rcpts.len() - i,
    {
        assert(keys.take(i + 1).drop_last() =~= keys.take(i as int));
        assert(values.take(i + 1).drop_last() =~= values.take(i as int));
        map.insert(rcpts[i].clone(), reverses[i].clone());
        i += 1;
    }
    assert(keys.take(i as int) =~= keys);
    assert(values.take(i as int) =~= values);
    map
}

/// The addresses that stand for the recipients in the envelope.
fn envelope_of(reverses: &Vec<String>) -> (r: Vec<String>)
    ensures
        texts(r@) == texts(reverses@).map_values(|r: Seq<char>| bare_address(r)),
{
    let ghost all = texts(reverses@).map_values(|r: Seq<char>| bare_address(r));
    let mut out: Vec<String> = Vec::new();
    let mut i: usize = 0;
    assert(texts(out@) =~= all.take(0));
    while i < reverses.len()
        invariant
            i <= reverses.len(),
            all == texts(reverses@).map_values(|r: Seq<char>| bare_address(r)),
            texts(out@) == all.take(i as int),
        decreases reverses.len() - i,
    {
        let ghost before = out@;
        let address: String = parse_single_addr(reverses[i].as_str()).1;
        let ghost v = address@;
        assert(v == all[i as int]);
        out.push(address);
        assert(texts(out@) =~= texts(before).push(v));
        assert(texts(out@) =~= all.take(i + 1));
        i += 1;
    }
    assert(all.take(i as int) =~= all);
    out
}

/// The message as it is sent upstream, once each recipient has its reverse alias.
pub fn prepare(job: &Job, sender: &str) -> (r: Outgoing)
    requires
        job@.is_resolved(),
    ensures
        texts(r.rcpts@) == job@.envelope_rcpts(),
        r.message@ == job@.outgoing_message(sender@),
{
    let map = collect_aliases(&job.rcpt_tos, &job.reverses);
    Outgoing {
        rcpts: envelope_of(&job.reverses),
        message: relay_message(job.data.as_slice(), &map, sender.to_owned()),
    }
}

/// The part of the relay that processes accepted messages.
pub struct RelayHandler {
    pub config: Config,
    pub sl: SimpleLoginClient,
}

impl RelayHandler {
    /// A handler with this configuration and client.
    pub fn new(config: Config, sl: SimpleLoginClient) -> (r: RelayHandler)
        ensures
            r.config == config,
            r.sl == sl,
    {
        RelayHandler { config, sl }
    }

    /// The lookup for the first recipient without a reverse alias.
    fn next_lookup(&self, mail_from: &str, rcpt_tos: &Vec<String>, done: usize) -> (r: Option<
        Lookup,
    >)
        ensures
            match r {
                Some(l) => done < rcpt_tos@.len() && l@ == self.sl@.started(
                    mail_from@,
                    rcpt_tos@[done as int]@,
                ),
                None => done >= rcpt_tos@.len(),
            },
    {
        if done < rcpt_tos.len() {
            Some(self.sl.get_reverse_alias(mail_from, rcpt_tos[done].as_str()))
        } else {
            None
        }
    }

    /// Takes a message that a client handed in, and starts the lookup for its first recipient.
    pub fn process(&self, mail_from: String, rcpt_tos: Vec<String>, data: Vec<u8>) -> (r: Job)
        ensures
            r@ == (JobView {
                mail_from: mail_from@,
                rcpt_tos: texts(rcpt_tos@),
                data: data@,
                reverses: Seq::empty(),
                lookup: None,
            }).with_next_lookup(self.sl@),
            r@.wf(),
    {
        let lookup = self.next_lookup(mail_from.as_str(), &rcpt_tos, 0);
        let r = Job { mail_from, rcpt_tos, data, reverses: Vec::new(), lookup };
        assert(texts(r.reverses@) =~= Seq::<Seq<char>>::empty());
        r
    }

    /// What the job's lookup asks for next; `None` where each recipient has its reverse alias.
    pub fn request(&self, job: &Job) -> (r: Option<ApiRequest>)
        ensures
            match r {
                Some(q) => job@.lookup is Some && q@ == self.sl@.request(job@.lookup->0),
                None => job@.lookup is None,
            },
    {
        match &job.lookup {
            Some(l) => Some(self.sl.request(l)),
            None => None,
        }
    }

    /// Takes a page of aliases for the job's lookup.
    pub fn take_page(&mut self, job: &mut Job, page: &Vec<AliasEntry>) -> (r: Result<
        (),
        LookupError,
    >)
        requires
            old(job)@.wf(),
            old(job)@.lookup matches Some(l) && l.phase matches LookupPhase::Paging(n) && n
                < u64::MAX,
        ensures
            final(job)@.wf(),
            final(job)@ == old(job)@.turned(page_view(page@)),
            final(self).config == old(self).config,
            final(self).sl@ == old(self).sl@.learned(old(job)@.lookup->0, page_view(page@)),
            r is Ok <==> page@.len() > 0,
            r matches Err(e) ==> e@ == LookupErrorView::AliasNotFound(old(job)@.mail_from),
    {
        match job.lookup.take() {
            Some(mut lookup) => {
                let r = self.sl.take_page(&mut lookup, page);
                job.lookup = Some(lookup);
                r
            },
            None => Ok(()),
        }
    }

    /// Takes the answer that names the reverse alias of the job's next recipient.
    pub fn take_contact(&self, job: &mut Job, reverse_alias: Option<String>) -> (r: Result<
        (),
        LookupError,
    >)
        requires
            old(job)@.wf(),
            old(job)@.lookup is Some,
        ensures
            final(job)@.wf(),
            match old(job)@.lookup->0.outcome(optional_text(reverse_alias)) {
                Ok(reverse) => r is Ok && final(job)@ == old(job)@.resolved_with(reverse, self.sl@),
                Err(e) => r is Err && r->Err_0@ == e && final(job)@ == old(job)@,
            },
    {
        let answer: Result<String, LookupError> = match &job.lookup {
            Some(lookup) => take_contact(lookup, reverse_alias),
            None => Ok(String::new()),
        };
        match answer {
            Ok(reverse) => {
                let ghost before = job.reverses@;
                let ghost v = reverse@;
                job.reverses.push(reverse);
                assert(texts(job.reverses@) =~= texts(before).push(v));
                job.lookup = self.next_lookup(
                    job.mail_from.as_str(),
                    &job.rcpt_tos,
                    job.reverses.len(),
                );
                Ok(())
            },
            Err(e) => Err(e),
        }
    }

    /// The dialogue that relays the job's message, once each recipient has its reverse alias. The
    /// upstream's user is the sender, in the envelope and in `From`.
    pub fn dialogue(&self, job: &Job) -> (r: Dialogue)
        requires
            job@.is_resolved(),
            has_credentials(self.config),
        ensures
            r.at == 0,
            exchange_views(r.steps@) == script(
                self.config@.upstream_starttls,
                self.config@.upstream_username->0,
                self.config@.upstream_password->0,
                job@.envelope_rcpts(),
                job@.outgoing_message(self.config@.upstream_username->0),
            ),
    {
        let empty: String = String::new();
        let sender: &String = match &self.config.upstream_username {
            Some(u) => u,
            None => &empty,
        };
        let out = prepare(job, sender.as_str());
        send_upstream(&self.config, &out.rcpts, out.message.as_slice())
    }
}

} // verus!
