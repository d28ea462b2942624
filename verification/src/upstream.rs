//! The client side of SMTP: relaying a message through the upstream server.
//!
//! The dialogue with the upstream is a list of exchanges, each a text to send and the kind of reply
//! that lets the dialogue go on. The program around it sends and receives.
use crate::auth::login_text;
use crate::chars::{
    chars_of, is_digit, is_space, lemma_nothing_to_trim, text_of, trim_end, trimmed, trimmed_end,
    CharClass,
};
use crate::codec::{
    base64_decoded, base64_encode, base64_encoded, base64_fits, is_base64_char, lossy_text,
    utf8_lossy,
};
use crate::config::Config;
use crate::dots::{data_payload, payload};
use crate::text::{begins_with, copy_range, push_all, texts};
use vstd::prelude::*;
use vstd::string::StringExecFns;
use vstd::utf8::encode_utf8;

verus! {

/// One exchange with the upstream.
pub struct Exchange {
    /// What is sent. Nothing is sent where it is empty.
    pub send: Vec<u8>,
    /// The character that the reply must begin with; `None` where any reply, or none, will do.
    pub want: Option<char>,
    /// The connection is upgraded to TLS after the reply.
    pub upgrade: bool,
}

/// What an [`Exchange`] holds.
#[verifier::ext_equal]
pub struct ExchangeView {
    pub send: Seq<u8>,
    pub want: Option<char>,
    pub upgrade: bool,
}

impl View for Exchange {
    type V = ExchangeView;

    open spec fn view(&self) -> ExchangeView {
        ExchangeView { send: self.send@, want: self.want, upgrade: self.upgrade }
    }
}

/// What a list of exchanges holds.
pub open spec fn exchange_views(steps: Seq<Exchange>) -> Seq<ExchangeView> {
    steps.map_values(|e: Exchange| e@)
}

/// A command and its line break.
pub open spec fn command_bytes(text: Seq<char>) -> Seq<u8> {
    encode_utf8(text) + seq![13u8, 10u8]
}

/// An exchange that sends a command.
pub open spec fn command(text: Seq<char>, want: char) -> ExchangeView {
    ExchangeView { send: command_bytes(text), want: Some(want), upgrade: false }
}

/// The exchanges before authentication: the greeting, `EHLO`, and the upgrade to TLS, after which
/// `EHLO` comes again.
pub open spec fn opening(starttls: bool) -> Seq<ExchangeView> {
    let greeting = ExchangeView { send: Seq::empty(), want: Some('2'), upgrade: false };
    let ehlo = command("EHLO localhost"@, '2');
    if starttls {
        let upgrade = ExchangeView {
            send: command_bytes("STARTTLS"@),
            want: Some('2'),
            upgrade: true,
        };
        seq![greeting, ehlo, upgrade, ehlo]
    } else {
        seq![greeting, ehlo]
    }
}

/// The exchanges of AUTH LOGIN.
pub open spec fn login(username: Seq<char>, password: Seq<char>) -> Seq<ExchangeView> {
    seq![
        command("AUTH LOGIN "@ + base64_encoded(encode_utf8(username)), '3'),
        command(base64_encoded(encode_utf8(password)), '2'),
    ]
}

/// The exchanges of the envelope: the sender, and each recipient in order.
pub open spec fn envelope(sender: Seq<char>, rcpts: Seq<Seq<char>>) -> Seq<ExchangeView> {
    seq![command("MAIL FROM:<"@ + sender + ">"@, '2')] + rcpts.map_values(
        |r: Seq<char>| command("RCPT TO:<"@ + r + ">"@, '2'),
    )
}

/// The exchanges of the message, and the leave-taking.
pub open spec fn delivery(message: Seq<u8>) -> Seq<ExchangeView> {
    seq![
        command("DATA"@, '3'),
        ExchangeView { send: payload(message), want: Some('2'), upgrade: false },
        ExchangeView { send: command_bytes("QUIT"@), want: None, upgrade: false },
    ]
}

/// The dialogue that relays a message. The envelope sender is the upstream's user.
pub open spec fn script(
    starttls: bool,
    username: Seq<char>,
    password: Seq<char>,
    rcpts: Seq<Seq<char>>,
    message: Seq<u8>,
) -> Seq<ExchangeView> {
    opening(starttls) + login(username, password) + envelope(username, rcpts) + delivery(message)
}

/// The reply lets the dialogue go on after the exchange.
pub open spec fn accepts(exchange: ExchangeView, reply: Seq<char>) -> bool {
    match exchange.want {
        Some(c) => reply.len() > 0 && reply[0] == c,
        None => true,
    }
}

/// A dialogue under way.
pub struct Dialogue {
    pub steps: Vec<Exchange>,
    /// The position of the exchange that comes next.
    pub at: usize,
}

/// An exchange that sends a command.
fn command_step(text: &str, want: char) -> (r: Exchange)
    ensures
        r@ == command(text@, want),
{
    let mut send: Vec<u8> = Vec::new();
    push_all(&mut send, text.as_bytes());
    send.push(13);
    send.push(10);
    assert(send@ =~= command_bytes(text@));
    Exchange { send, want: Some(want), upgrade: false }
}

/// A text in Base64 on a line of its own, as one answer of AUTH LOGIN. Decoding it as such an
/// answer gives the text back.
pub fn login_line(text: &str) -> (r: String)
    requires
        base64_fits(encode_utf8(text@)),
    ensures
        r@ == base64_encoded(encode_utf8(text@)),
        login_text(base64_decoded(trimmed(r@, CharClass::Whitespace))) == Some(text@),
{
    let r = base64_encode(text.as_bytes());
    proof {
        assert forall|i: int| 0 <= i < r@.len() implies !is_space(
            #[trigger] r@[i],
        ) by {
            assert(is_base64_char(r@[i]));
        }
        lemma_nothing_to_trim(r@, CharClass::Whitespace);
        vstd::utf8::encode_utf8_valid_utf8(text@);
        vstd::utf8::encode_utf8_decode_utf8(text@);
    }
    r
}

/// A text between two others.
fn enclosed(before: &str, inner: &str, after: &str) -> (r: String)
    ensures
        r@ == before@ + inner@ + after@,
{
    let mut r: String = before.to_owned();
    r.append(inner);
    r.append(after);
    r
}

/// The exchanges of AUTH LOGIN.
fn smtp_auth(username: &str, password: &str) -> (r: (Exchange, Exchange))
    requires
        base64_fits(encode_utf8(username@)),
        base64_fits(encode_utf8(password@)),
    ensures
        seq![r.0@, r.1@] == login(username@, password@),
{
    let user = login_line(username);
    let pass = login_line(password);
    let mut text: String = "AUTH LOGIN ".to_owned();
    text.append(user.as_str());
    let r = (command_step(text.as_str(), '3'), command_step(pass.as_str(), '2'));
    assert(seq![r.0@, r.1@] =~= login(username@, password@));
    r
}

/// The upstream's credentials are set and can be encoded.
pub open spec fn has_credentials(c: Config) -> bool {
    &&& c@.upstream_username is Some
    &&& c@.upstream_password is Some
    &&& base64_fits(encode_utf8(c@.upstream_username->0))
    &&& base64_fits(encode_utf8(c@.upstream_password->0))
}

/// Whether the Base64 encoding of the text fits in memory.
fn fits(text: &str) -> (r: bool)
    ensures
        r == base64_fits(encode_utf8(text@)),
{
    let n: u128 = text.as_bytes().len() as u128;
    (n + 2) / 3 * 4 <= isize::MAX as u128
}

/// Whether the upstream's credentials are set and can be encoded.
pub fn can_log_in(c: &Config) -> (r: bool)
    ensures
        r == has_credentials(*c),
{
    match (&c.upstream_username, &c.upstream_password) {
        (Some(username), Some(password)) => fits(username.as_str()) && fits(password.as_str()),
        _ => false,
    }
}

/// The dialogue that relays a message to the recipients.
pub fn send_upstream(c: &Config, rcpts: &Vec<String>, data: &[u8]) -> (r: Dialogue)
    requires
        has_credentials(*c),
    ensures
        r.at == 0,
        exchange_views(r.steps@) == script(
            c@.upstream_starttls,
            c@.upstream_username->0,
            c@.upstream_password->0,
            texts(rcpts@),
            data@,
        ),
{
    let empty: String = String::new();
    let username: &String = match &c.upstream_username {
        Some(u) => u,
        None => &empty,
    };
    let password: &String = match &c.upstream_password {
        Some(p) => p,
        None => &empty,
    };
    let mut steps: Vec<Exchange> = Vec::new();
    steps.push(Exchange { send: Vec::new(), want: Some('2'), upgrade: false });
    steps.push(command_step("EHLO localhost", '2'));
    if c.upstream_starttls {
        let mut upgrade = command_step("STARTTLS", '2');
        upgrade.upgrade = true;
        steps.push(upgrade);
        steps.push(command_step("EHLO localhost", '2'));
    }
    assert(exchange_views(steps@) =~= opening(c@.upstream_starttls));
    let (first, second) = smtp_auth(username.as_str(), password.as_str());
    let ghost logged = login(username@, password@);
    assert(first@ == logged[0] && second@ == logged[1]);
    steps.push(first);
    steps.push(second);
    assert(exchange_views(steps@) =~= opening(c@.upstream_starttls) + logged);
    steps.push(command_step(enclosed("MAIL FROM:<", username.as_str(), ">").as_str(), '2'));
    let ghost start = opening(c@.upstream_starttls) + logged + seq![
        command("MAIL FROM:<"@ + username@ + ">"@, '2'),
    ];
    assert(exchange_views(steps@) =~= start);
    let ghost named = texts(rcpts@).map_values(
        |r: Seq<char>| command("RCPT TO:<"@ + r + ">"@, '2'),
    );
    let mut i: usize = 0;
    assert(exchange_views(steps@) =~= start + named.take(0));
    while i < rcpts.len()
        invariant
            i <= rcpts.len(),
            named == texts(rcpts@).map_values(
                |r: Seq<char>| command("RCPT TO:<"@ + r + ">"@, '2'),
            ),
            exchange_views(steps@) == start + named.take(i as int),
        decreases rcpts.len() - i,
    {
        let ghost before = steps@;
        let step = command_step(enclosed("RCPT TO:<", rcpts[i].as_str(), ">").as_str(), '2');
        let ghost v = step@;
        assert(v == named[i as int]);
        steps.push(step);
        assert(exchange_views(steps@) =~= exchange_views(before).push(v));
        assert(exchange_views(steps@) =~= start + named.take(i + 1));
        i += 1;
    }
    assert(named.take(i as int) =~= named);
    let ghost before = steps@;
    steps.push(command_step("DATA", '3'));
    steps.push(Exchange { send: data_payload(data), want: Some('2'), upgrade: false });
    let mut quit = command_step("QUIT", '2');
    quit.want = None;
    steps.push(quit);
    assert(exchange_views(steps@) =~= exchange_views(before) + delivery(data@));
    assert(exchange_views(steps@) =~= script(
        c@.upstream_starttls,
        c@.upstream_username->0,
        c@.upstream_password->0,
        texts(rcpts@),
        data@,
    ));
    Dialogue { steps, at: 0 }
}

impl Dialogue {
    /// The exchange that comes next, if there is one.
    pub fn current(&self) -> (r: Option<&Exchange>)
        ensures
            match r {
                Some(e) => self.at < self.steps@.len() && *e == self.steps@[self.at as int],
                None => self.at >= self.steps@.len(),
            },
    {
        if self.at < self.steps.len() {
            Some(&self.steps[self.at])
        } else {
            None
        }
    }

    /// Takes the reply to the current exchange. The dialogue goes on to the next one if the reply
    /// lets it, and stays where it is otherwise.
    pub fn take_reply(&mut self, reply: &str) -> (r: bool)
        requires
            old(self).at < old(self).steps@.len(),
        ensures
            r == accepts(old(self).steps@[old(self).at as int]@, reply@),
            final(self).steps == old(self).steps,
            final(self).at == old(self).at + if r {
                1int
            } else {
                0
            },
    {
        let text = chars_of(reply);
        let ok: bool = match self.steps[self.at].want {
            Some(c) => text.len() > 0 && text[0] == c,
            None => true,
        };
        let total: usize = self.steps.len();
        if ok && self.at < total {
            self.at = self.at + 1;
        }
        ok
    }
}

/// A line of a reply, without its line break.
pub fn reply_line(bytes: &[u8]) -> (r: String)
    ensures
        r@ == trimmed_end(lossy_text(bytes@), CharClass::LineBreak),
{
    let text = chars_of(utf8_lossy(bytes).as_str());
    text_of(trim_end(text.as_slice(), CharClass::LineBreak).as_slice())
}

/// The first line of a reply says that more lines follow: a hyphen stands after the code.
pub open spec fn is_continued(first: Seq<u8>) -> bool {
    first.len() >= 4 && first[3] == 45
}

/// The line is the last of a reply that began with `first`: a space stands after the same code.
pub open spec fn is_last_of(first: Seq<u8>, line: Seq<u8>) -> bool {
    (first.take(3) + seq![32u8]).is_prefix_of(line)
}

/// Whether more lines follow the first line of a reply.
pub fn has_more_lines(first: &str) -> (r: bool)
    ensures
        r == is_continued(encode_utf8(first@)),
{
    let bytes = first.as_bytes();
    bytes.len() >= 4 && bytes[3] == 45
}

/// Whether the line is the last of a reply that began with `first`.
pub fn is_last_line(first: &str, line: &str) -> (r: bool)
    requires
        is_continued(encode_utf8(first@)),
    ensures
        r == is_last_of(encode_utf8(first@), encode_utf8(line@)),
{
    let mut mark: Vec<u8> = copy_range(first.as_bytes(), 0, 3);
    mark.push(32);
    assert(mark@ =~= encode_utf8(first@).take(3) + seq![32u8]);
    begins_with(line.as_bytes(), mark.as_slice())
}

/// A reply as its lines come in.
pub struct Reply {
    pub first: String,
    pub complete: bool,
}

impl Reply {
    /// Begins a reply with its first line.
    pub fn start(first: String) -> (r: Reply)
        ensures
            r.first == first,
            r.complete == !is_continued(encode_utf8(first@)),
    {
        let complete: bool = !has_more_lines(first.as_str());
        Reply { first, complete }
    }

    /// Takes another line of a reply that is not complete.
    pub fn add_line(&mut self, line: &str)
        requires
            !old(self).complete,
            is_continued(encode_utf8(old(self).first@)),
        ensures
            final(self).first == old(self).first,
            final(self).complete == is_last_of(encode_utf8(old(self).first@), encode_utf8(line@)),
    {
        self.complete = is_last_line(self.first.as_str(), line);
    }
}

/// The reply begins with a three-digit code.
pub open spec fn has_code(reply: Seq<char>) -> bool {
    reply.len() >= 3 && is_digit(reply[0]) && is_digit(reply[1]) && is_digit(reply[2])
}

/// Whether the reply begins with a three-digit code.
pub fn begins_with_code(reply: &str) -> (r: bool)
    ensures
        r == has_code(reply@),
{
    let s = chars_of(reply);
    s.len() >= 3 && '0' <= s[0] && s[0] <= '9' && '0' <= s[1] && s[1] <= '9' && '0' <= s[2] && s[2]
        <= '9'
}

} // verus!
