//! The server side of SMTP: what a client's line leads to.
//!
//! A session takes one line at a time and says which replies to send and what to do next. The
//! program around it reads the lines and sends the replies.
use crate::auth::{
    auth_plain, credentials_outcome, decode_login_step, login_text, plain_outcome,
    validate_credentials, AuthResult,
};
use crate::chars::{chars_of, same_text, text_of, trim, trim_end, trimmed, trimmed_end, CharClass};
use crate::codec::{base64_decoded, to_uppercase, uppercase};
use crate::dots::{ends_message, is_final_dot, unstuff, unstuffed_line};
use crate::text::{begins_with, copy_range, find, first_match, push_all, texts};
use vstd::prelude::*;
use vstd::utf8::encode_utf8;

verus! {

/// What a session waits for.
pub enum Phase {
    /// A command.
    Command,
    /// The user name of AUTH LOGIN.
    LoginUser,
    /// The password of AUTH LOGIN, for this user name.
    LoginPassword(String),
    /// A line of a message; what came of it so far.
    Data(Vec<u8>),
}

/// What a [`Phase`] holds.
pub enum PhaseView {
    Command,
    LoginUser,
    LoginPassword(Seq<char>),
    Data(Seq<u8>),
}

impl View for Phase {
    type V = PhaseView;

    open spec fn view(&self) -> PhaseView {
        match self {
            Phase::Command => PhaseView::Command,
            Phase::LoginUser => PhaseView::LoginUser,
            Phase::LoginPassword(user) => PhaseView::LoginPassword(user@),
            Phase::Data(data) => PhaseView::Data(data@),
        }
    }
}

/// A session with a client.
pub struct Session {
    /// The connection is encrypted.
    pub secure: bool,
    /// The client has authenticated itself.
    pub authed: bool,
    pub mail_from: String,
    pub rcpts: Vec<String>,
    pub phase: Phase,
}

/// What a [`Session`] holds.
#[verifier::ext_equal]
pub struct SessionView {
    pub secure: bool,
    pub authed: bool,
    pub mail_from: Seq<char>,
    pub rcpts: Seq<Seq<char>>,
    pub phase: PhaseView,
}

impl View for Session {
    type V = SessionView;

    open spec fn view(&self) -> SessionView {
        SessionView {
            secure: self.secure,
            authed: self.authed,
            mail_from: self.mail_from@,
            rcpts: texts(self.rcpts@),
            phase: self.phase@,
        }
    }
}

/// What follows the replies.
pub enum Next {
    /// The next line is read.
    Listen,
    /// The connection is closed.
    Close,
    /// The message is processed, the reply to it is sent, and the next line is read.
    Relay { mail_from: String, rcpts: Vec<String>, data: Vec<u8> },
}

/// What a [`Next`] holds.
pub enum NextView {
    Listen,
    Close,
    Relay { mail_from: Seq<char>, rcpts: Seq<Seq<char>>, data: Seq<u8> },
}

impl View for Next {
    type V = NextView;

    open spec fn view(&self) -> NextView {
        match self {
            Next::Listen => NextView::Listen,
            Next::Close => NextView::Close,
            Next::Relay { mail_from, rcpts, data } => NextView::Relay {
                mail_from: mail_from@,
                rcpts: texts(rcpts@),
                data: data@,
            },
        }
    }
}

/// What a line leads to: replies, each a line, and what follows them.
pub struct Step {
    pub replies: Vec<String>,
    pub next: Next,
}

/// What a [`Step`] holds.
pub struct StepView {
    pub replies: Seq<Seq<char>>,
    pub next: NextView,
}

impl View for Step {
    type V = StepView;

    open spec fn view(&self) -> StepView {
        StepView { replies: texts(self.replies@), next: self.next@ }
    }
}

/// One reply, after which the next line is read.
pub open spec fn reply(text: Seq<char>) -> StepView {
    StepView { replies: seq![text], next: NextView::Listen }
}

/// The address of `MAIL FROM` or `RCPT TO`: what follows the first colon, without spaces and angle
/// brackets around it.
pub open spec fn path_of(line: Seq<char>) -> Seq<char> {
    match first_match(line, seq![':']) {
        Some(i) => trimmed(trimmed(line.skip(i + 1), CharClass::Whitespace), CharClass::Angle),
        None => Seq::empty(),
    }
}

/// What follows the second space of a line.
pub open spec fn third_word(line: Seq<char>) -> Option<Seq<char>> {
    match first_match(line, seq![' ']) {
        Some(i) => {
            let rest = line.skip(i + 1);
            match first_match(rest, seq![' ']) {
                Some(j) => Some(rest.skip(j + 1)),
                None => None,
            }
        },
        None => None,
    }
}

/// The text of an answer of AUTH LOGIN; empty where it cannot be decoded.
pub open spec fn login_or_empty(encoded: Seq<char>) -> Seq<char> {
    match login_text(base64_decoded(trimmed(encoded, CharClass::Whitespace))) {
        Some(text) => text,
        None => Seq::empty(),
    }
}

/// A command as a client sends it.
pub enum Command {
    /// `EHLO` or `HELO`.
    Hello,
    /// `AUTH PLAIN`, with its argument.
    AuthPlain(String),
    /// `AUTH LOGIN`, with the user name where it comes along.
    AuthLogin(Option<String>),
    /// `AUTH` with any other mechanism.
    AuthOther,
    /// `QUIT`.
    Quit,
    /// `MAIL FROM`, with its address.
    MailFrom(String),
    /// `RCPT TO`, with its address.
    RcptTo(String),
    /// `DATA`.
    Data,
    /// Anything else.
    Unknown,
}

/// What a [`Command`] holds.
pub enum CommandView {
    Hello,
    AuthPlain(Seq<char>),
    AuthLogin(Option<Seq<char>>),
    AuthOther,
    Quit,
    MailFrom(Seq<char>),
    RcptTo(Seq<char>),
    Data,
    Unknown,
}

impl View for Command {
    type V = CommandView;

    open spec fn view(&self) -> CommandView {
        match self {
            Command::Hello => CommandView::Hello,
            Command::AuthPlain(arg) => CommandView::AuthPlain(arg@),
            Command::AuthLogin(user) => CommandView::AuthLogin(
                match user {
                    Some(u) => Some(u@),
                    None => None,
                },
            ),
            Command::AuthOther => CommandView::AuthOther,
            Command::Quit => CommandView::Quit,
            Command::MailFrom(path) => CommandView::MailFrom(path@),
            Command::RcptTo(path) => CommandView::RcptTo(path@),
            Command::Data => CommandView::Data,
            Command::Unknown => CommandView::Unknown,
        }
    }
}

/// The command of a line without its line break, where `upper` is the line in upper case.
pub open spec fn command_of(line: Seq<char>, upper: Seq<char>) -> CommandView {
    if "EHLO"@.is_prefix_of(upper) || "HELO"@.is_prefix_of(upper) {
        CommandView::Hello
    } else if "AUTH PLAIN"@.is_prefix_of(upper) {
        CommandView::AuthPlain(
            match third_word(line) {
                Some(arg) => arg,
                None => Seq::empty(),
            },
        )
    } else if upper == "AUTH LOGIN"@ || "AUTH LOGIN "@.is_prefix_of(upper) {
        CommandView::AuthLogin(third_word(line))
    } else if "AUTH "@.is_prefix_of(upper) {
        CommandView::AuthOther
    } else if upper == "QUIT"@ {
        CommandView::Quit
    } else if "MAIL FROM:"@.is_prefix_of(upper) {
        CommandView::MailFrom(path_of(line))
    } else if "RCPT TO:"@.is_prefix_of(upper) {
        CommandView::RcptTo(path_of(line))
    } else if upper == "DATA"@ {
        CommandView::Data
    } else {
        CommandView::Unknown
    }
}

impl SessionView {
    /// A session as it starts.
    pub open spec fn initial(secure: bool) -> SessionView {
        SessionView {
            secure,
            authed: false,
            mail_from: Seq::empty(),
            rcpts: Seq::empty(),
            phase: PhaseView::Command,
        }
    }

    /// The session after an authentication attempt, and the reply to it.
    pub open spec fn authenticated(self, result: AuthResult) -> (SessionView, StepView) {
        let waiting = SessionView { phase: PhaseView::Command, ..self };
        match result {
            AuthResult::Success => (
                SessionView { authed: true, ..waiting },
                reply("235 2.7.0 Authentication successful"@),
            ),
            AuthResult::Failure => (
                waiting,
                reply("535 5.7.8 Authentication credentials invalid"@),
            ),
            AuthResult::Unsupported => (
                waiting,
                reply("504 5.5.4 Unrecognized authentication type"@),
            ),
        }
    }

    /// The session after a command that needs authentication, and what it leads to.
    pub open spec fn mail_command(self, command: CommandView) -> (SessionView, StepView) {
        match command {
            CommandView::MailFrom(path) => (
                SessionView { mail_from: path, rcpts: Seq::empty(), ..self },
                reply("250 OK"@),
            ),
            CommandView::RcptTo(path) => (
                SessionView { rcpts: self.rcpts.push(path), ..self },
                reply("250 OK"@),
            ),
            CommandView::Data => if self.mail_from.len() == 0 || self.rcpts.len() == 0 {
                (self, reply("503 Bad sequence of commands"@))
            } else {
                (
                    SessionView { phase: PhaseView::Data(Seq::empty()), ..self },
                    reply("354 End data with <CR><LF>.<CR><LF>"@),
                )
            },
            _ => (self, reply("500 Error: command not recognized"@)),
        }
    }

    /// The session after a command, and what it leads to.
    pub open spec fn commanded(
        self,
        command: CommandView,
        user: Seq<char>,
        pass: Seq<char>,
    ) -> (SessionView, StepView) {
        match command {
            CommandView::Hello => (
                self,
                StepView {
                    replies: seq!["250-localhost"@, "250 AUTH LOGIN PLAIN"@],
                    next: NextView::Listen,
                },
            ),
            CommandView::AuthPlain(arg) => self.authenticated(
                plain_outcome(base64_decoded(trimmed(arg, CharClass::Whitespace)), user, pass),
            ),
            CommandView::AuthLogin(first) => if !self.secure {
                (
                    self,
                    reply("538 Encryption required for requested authentication mechanism"@),
                )
            } else {
                match first {
                    Some(v) => (
                        SessionView { phase: PhaseView::LoginPassword(login_or_empty(v)), ..self },
                        StepView {
                            replies: seq!["334 VXNlcm5hbWU6"@, "334 UGFzc3dvcmQ6"@],
                            next: NextView::Listen,
                        },
                    ),
                    None => (
                        SessionView { phase: PhaseView::LoginUser, ..self },
                        reply("334 VXNlcm5hbWU6"@),
                    ),
                }
            },
            CommandView::AuthOther => self.authenticated(AuthResult::Unsupported),
            CommandView::Quit => (
                self,
                StepView { replies: seq!["221 Bye"@], next: NextView::Close },
            ),
            _ => if !self.authed {
                (self, reply("530 5.7.0 Authentication required"@))
            } else {
                self.mail_command(command)
            },
        }
    }

    /// The session after a line of a message, and what it leads to.
    pub open spec fn data_line(self, so_far: Seq<u8>, line: Seq<u8>) -> (SessionView, StepView) {
        if is_final_dot(line) {
            (
                SessionView { phase: PhaseView::Command, ..self },
                StepView {
                    replies: Seq::empty(),
                    next: NextView::Relay {
                        mail_from: self.mail_from,
                        rcpts: self.rcpts,
                        data: so_far,
                    },
                },
            )
        } else {
            (
                SessionView { phase: PhaseView::Data(so_far + unstuffed_line(line)), ..self },
                StepView { replies: Seq::empty(), next: NextView::Listen },
            )
        }
    }

    /// The session after a line, which ends with its line break, and what it leads to. `user` and
    /// `pass` are the credentials that clients must present.
    pub open spec fn after(
        self,
        line: Seq<char>,
        user: Seq<char>,
        pass: Seq<char>,
    ) -> (SessionView, StepView) {
        match self.phase {
            PhaseView::Command => {
                let bare = trimmed_end(line, CharClass::LineBreak);
                self.commanded(command_of(bare, uppercase(bare)), user, pass)
            },
            PhaseView::LoginUser => (
                SessionView { phase: PhaseView::LoginPassword(login_or_empty(line)), ..self },
                reply("334 UGFzc3dvcmQ6"@),
            ),
            PhaseView::LoginPassword(name) => self.authenticated(
                credentials_outcome(name, login_or_empty(line), user, pass),
            ),
            PhaseView::Data(so_far) => self.data_line(so_far, encode_utf8(line)),
        }
    }
}

/// The address of `MAIL FROM` or `RCPT TO`.
pub fn extract_path(s: &str) -> (r: String)
    ensures
        r@ == path_of(s@),
{
    let line = chars_of(s);
    let colon: Vec<char> = vec![':'];
    assert(colon@ =~= seq![':']);
    match find(line.as_slice(), colon.as_slice()) {
        Some(i) => {
            let rest = copy_range(line.as_slice(), i + 1, line.len());
            assert(rest@ =~= s@.skip(i + 1));
            let bare = trim(rest.as_slice(), CharClass::Whitespace);
            text_of(trim(bare.as_slice(), CharClass::Angle).as_slice())
        },
        None => String::new(),
    }
}

/// What follows the second space of a line.
fn read_third_word(line: &[char]) -> (r: Option<String>)
    ensures
        match r {
            Some(w) => third_word(line@) == Some(w@),
            None => third_word(line@) is None,
        },
{
    let space: Vec<char> = vec![' '];
    assert(space@ =~= seq![' ']);
    match find(line, space.as_slice()) {
        Some(i) => {
            let rest = copy_range(line, i + 1, line.len());
            assert(rest@ =~= line@.skip(i + 1));
            match find(rest.as_slice(), space.as_slice()) {
                Some(j) => {
                    let word = copy_range(rest.as_slice(), j + 1, rest.len());
                    assert(word@ =~= rest@.skip(j + 1));
                    Some(text_of(word.as_slice()))
                },
                None => None,
            }
        },
        None => None,
    }
}

/// Whether the text begins with `start`.
fn text_begins(s: &[char], start: &str) -> (r: bool)
    ensures
        r == start@.is_prefix_of(s@),
{
    begins_with(s, chars_of(start).as_slice())
}

/// The command of a line without its line break, where `upper` is the line in upper case.
pub fn read_command(line: &str, upper: &str) -> (r: Command)
    ensures
        r@ == command_of(line@, upper@),
{
    let text = chars_of(line);
    let up = chars_of(upper);
    if text_begins(up.as_slice(), "EHLO") || text_begins(up.as_slice(), "HELO") {
        return Command::Hello;
    }
    if text_begins(up.as_slice(), "AUTH PLAIN") {
        return match read_third_word(text.as_slice()) {
            Some(arg) => Command::AuthPlain(arg),
            None => Command::AuthPlain(String::new()),
        };
    }
    if same_text(upper, "AUTH LOGIN") || text_begins(up.as_slice(), "AUTH LOGIN ") {
        return Command::AuthLogin(read_third_word(text.as_slice()));
    }
    if text_begins(up.as_slice(), "AUTH ") {
        return Command::AuthOther;
    }
    if same_text(upper, "QUIT") {
        return Command::Quit;
    }
    if text_begins(up.as_slice(), "MAIL FROM:") {
        return Command::MailFrom(extract_path(line));
    }
    if text_begins(up.as_slice(), "RCPT TO:") {
        return Command::RcptTo(extract_path(line));
    }
    if same_text(upper, "DATA") {
        return Command::Data;
    }
    Command::Unknown
}

/// The text of an answer of AUTH LOGIN; empty where it cannot be decoded.
fn login_answer_or_empty(encoded: &str) -> (r: String)
    ensures
        r@ == login_or_empty(encoded@),
{
    match decode_login_step(encoded) {
        Ok(text) => text,
        Err(_) => String::new(),
    }
}

/// One reply, after which the next line is read.
fn reply_with(text: &str) -> (r: Step)
    ensures
        r@ == reply(text@),
{
    let mut replies: Vec<String> = Vec::new();
    replies.push(text.to_owned());
    assert(texts(replies@) =~= seq![text@]);
    Step { replies, next: Next::Listen }
}

/// Two replies, after which the next line is read.
fn reply_with_two(first: &str, second: &str) -> (r: Step)
    ensures
        r@ == (StepView { replies: seq![first@, second@], next: NextView::Listen }),
{
    let mut replies: Vec<String> = Vec::new();
    replies.push(first.to_owned());
    replies.push(second.to_owned());
    assert(texts(replies@) =~= seq![first@, second@]);
    Step { replies, next: Next::Listen }
}

/// The leave-taking, after which the connection is closed.
fn farewell() -> (r: Step)
    ensures
        r@ == (StepView { replies: seq!["221 Bye"@], next: NextView::Close }),
{
    let mut step = reply_with("221 Bye");
    step.next = Next::Close;
    step
}

/// Copies of the strings.
fn copy_texts(v: &Vec<String>) -> (r: Vec<String>)
    ensures
        texts(r@) == texts(v@),
{
    let mut out: Vec<String> = Vec::new();
    let mut i: usize = 0;
    while i < v.len()
        invariant
            i <= v.len(),
            out.len() == i,
            forall|j: int| 0 <= j < i ==> (#[trigger] out@[j])@ == v@[j]@,
        decreases v.len() - i,
    {
        out.push(v[i].clone());
        i += 1;
    }
    assert(texts(out@) =~= texts(v@));
    out
}

/// The line that a server greets a client with.
pub fn greeting() -> (r: String)
    ensures
        r@ == "220 simplelogin-smtp-relay ESMTP"@,
{
    "220 simplelogin-smtp-relay ESMTP".to_owned()
}

impl Session {
    /// A session as it starts.
    pub fn new(secure: bool) -> (r: Session)
        ensures
            r@ == SessionView::initial(secure),
    {
        let r = Session {
            secure,
            authed: false,
            mail_from: String::new(),
            rcpts: Vec::new(),
            phase: Phase::Command,
        };
        assert(r@ =~= SessionView::initial(secure));
        r
    }

    /// Takes the result of an authentication attempt.
    pub fn take_auth_result(&mut self, result: AuthResult) -> (r: Step)
        ensures
            (final(self)@, r@) == old(self)@.authenticated(result),
    {
        self.phase = Phase::Command;
        match result {
            AuthResult::Success => {
                self.authed = true;
                reply_with("235 2.7.0 Authentication successful")
            },
            AuthResult::Failure => reply_with("535 5.7.8 Authentication credentials invalid"),
            AuthResult::Unsupported => reply_with("504 5.5.4 Unrecognized authentication type"),
        }
    }

    /// Takes a command that needs authentication.
    fn take_mail_command(&mut self, command: Command) -> (r: Step)
        ensures
            (final(self)@, r@) == old(self)@.mail_command(command@),
    {
        match command {
            Command::MailFrom(path) => {
                self.mail_from = path;
                self.rcpts = Vec::new();
                assert(texts(self.rcpts@) =~= Seq::<Seq<char>>::empty());
                reply_with("250 OK")
            },
            Command::RcptTo(path) => {
                let ghost before = self.rcpts@;
                let ghost v = path@;
                self.rcpts.push(path);
                assert(texts(self.rcpts@) =~= texts(before).push(v));
                reply_with("250 OK")
            },
            Command::Data => {
                if self.mail_from.as_str().is_empty() || self.rcpts.len() == 0 {
                    return reply_with("503 Bad sequence of commands");
                }
                self.phase = Phase::Data(Vec::new());
                assert(self.phase@ == PhaseView::Data(Seq::empty()));
                reply_with("354 End data with <CR><LF>.<CR><LF>")
            },
            _ => reply_with("500 Error: command not recognized"),
        }
    }

    /// Takes a command.
    pub fn take_command(&mut self, command: Command, user: &str, pass: &str) -> (r: Step)
        ensures
            (final(self)@, r@) == old(self)@.commanded(command@, user@, pass@),
    {
        match command {
            Command::Hello => reply_with_two("250-localhost", "250 AUTH LOGIN PLAIN"),
            Command::AuthPlain(arg) => {
                let result = auth_plain(arg.as_str(), user, pass);
                self.take_auth_result(result)
            },
            Command::AuthLogin(first) => {
                if !self.secure {
                    return reply_with(
                        "538 Encryption required for requested authentication mechanism",
                    );
                }
                match first {
                    Some(v) => {
                        self.phase = Phase::LoginPassword(login_answer_or_empty(v.as_str()));
                        reply_with_two("334 VXNlcm5hbWU6", "334 UGFzc3dvcmQ6")
                    },
                    None => {
                        self.phase = Phase::LoginUser;
                        reply_with("334 VXNlcm5hbWU6")
                    },
                }
            },
            Command::AuthOther => self.take_auth_result(AuthResult::Unsupported),
            Command::Quit => farewell(),
            other => {
                if !self.authed {
                    return reply_with("530 5.7.0 Authentication required");
                }
                self.take_mail_command(other)
            },
        }
    }

    /// Takes a line of a message.
    fn take_data_line(&mut self, mut so_far: Vec<u8>, line: &[u8]) -> (r: Step)
        ensures
            (final(self)@, r@) == old(self)@.data_line(so_far@, line@),
    {
        let ghost data = so_far@;
        let replies: Vec<String> = Vec::new();
        assert(texts(replies@) =~= Seq::<Seq<char>>::empty());
        if ends_message(line) {
            self.phase = Phase::Command;
            Step {
                replies,
                next: Next::Relay {
                    mail_from: self.mail_from.clone(),
                    rcpts: copy_texts(&self.rcpts),
                    data: so_far,
                },
            }
        } else {
            let bare = unstuff(line);
            push_all(&mut so_far, bare.as_slice());
            self.phase = Phase::Data(so_far);
            Step { replies, next: Next::Listen }
        }
    }

    /// Takes a line from the client, with its line break. `user` and `pass` are the credentials
    /// that clients must present.
    pub fn take_line(&mut self, line: &str, user: &str, pass: &str) -> (r: Step)
        ensures
            (final(self)@, r@) == old(self)@.after(line@, user@, pass@),
    {
        let mut phase: Phase = Phase::Command;
        std::mem::swap(&mut phase, &mut self.phase);
        match phase {
            Phase::Command => {
                let bare = text_of(
                    trim_end(chars_of(line).as_slice(), CharClass::LineBreak).as_slice(),
                );
                let upper = to_uppercase(bare.as_str());
                let command = read_command(bare.as_str(), upper.as_str());
                self.take_command(command, user, pass)
            },
            Phase::LoginUser => {
                self.phase = Phase::LoginPassword(login_answer_or_empty(line));
                reply_with("334 UGFzc3dvcmQ6")
            },
            Phase::LoginPassword(name) => {
                let given = login_answer_or_empty(line);
                let result = validate_credentials(name.as_str(), given.as_str(), user, pass);
                self.take_auth_result(result)
            },
            Phase::Data(so_far) => self.take_data_line(so_far, line.as_bytes()),
        }
    }
}

impl Session {
    /// Whether the session is over where the client's input ends. In the middle of AUTH LOGIN the
    /// missing line counts as an empty one.
    pub fn closes_at_end_of_input(&self) -> (r: bool)
        ensures
            r == (self@.phase is Command || self@.phase is Data),
    {
        match self.phase {
            Phase::Command => true,
            Phase::Data(_) => true,
            _ => false,
        }
    }
}

/// What follows the replies before the connection is encrypted.
#[derive(Clone, Copy, Debug, PartialEq, Eq, Structural)]
pub enum PlainNext {
    /// The next line is read.
    Listen,
    /// The connection is closed.
    Close,
    /// The connection is upgraded to TLS, and a session starts on it.
    Upgrade,
}

/// What a line leads to before the connection is encrypted.
pub struct PlainStep {
    pub replies: Vec<String>,
    pub next: PlainNext,
}

/// The replies, and what follows them, to a line without its line break before the connection is
/// encrypted, where `upper` is the line in upper case. Nothing but `STARTTLS`, a greeting and
/// `QUIT` is taken.
pub open spec fn plain_step(upper: Seq<char>) -> (Seq<Seq<char>>, PlainNext) {
    if upper == "STARTTLS"@ {
        (seq!["220 Ready to start TLS"@], PlainNext::Upgrade)
    } else if "EHLO"@.is_prefix_of(upper) || "HELO"@.is_prefix_of(upper) {
        (
            seq!["250-localhost"@, "250-STARTTLS"@, "250 AUTH LOGIN PLAIN"@],
            PlainNext::Listen,
        )
    } else if upper == "QUIT"@ {
        (seq!["221 Bye"@], PlainNext::Close)
    } else {
        (seq!["530 Must issue STARTTLS first"@], PlainNext::Listen)
    }
}

/// Takes a line, with its line break, before the connection is encrypted.
pub fn take_plain_line(line: &str) -> (r: PlainStep)
    ensures
        (texts(r.replies@), r.next) == plain_step(
            uppercase(trimmed_end(line@, CharClass::LineBreak)),
        ),
{
    let bare = text_of(trim_end(chars_of(line).as_slice(), CharClass::LineBreak).as_slice());
    let upper = to_uppercase(bare.as_str());
    let up = chars_of(upper.as_str());
    let mut replies: Vec<String> = Vec::new();
    let next: PlainNext;
    if same_text(upper.as_str(), "STARTTLS") {
        replies.push("220 Ready to start TLS".to_owned());
        next = PlainNext::Upgrade;
    } else if text_begins(up.as_slice(), "EHLO") || text_begins(up.as_slice(), "HELO") {
        replies.push("250-localhost".to_owned());
        replies.push("250-STARTTLS".to_owned());
        replies.push("250 AUTH LOGIN PLAIN".to_owned());
        next = PlainNext::Listen;
    } else if same_text(upper.as_str(), "QUIT") {
        replies.push("221 Bye".to_owned());
        next = PlainNext::Close;
    } else {
        replies.push("530 Must issue STARTTLS first".to_owned());
        next = PlainNext::Listen;
    }
    assert(texts(replies@) =~= plain_step(upper@).0);
    PlainStep { replies, next }
}

/// The exit code of a health check, given the first bytes that the relay sent: zero where they are
/// the beginning of a greeting.
pub fn health_code(received: &[u8]) -> (r: i32)
    ensures
        r == if received@.len() > 0 && received@[0] == 50 {
            0int
        } else {
            1
        },
{
    if received.len() > 0 && received[0] == 50 {
        0
    } else {
        1
    }
}

} // verus!
