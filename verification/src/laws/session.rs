//! Laws of the server side of SMTP.
use crate::auth::{plain_outcome, AuthResult};
use crate::chars::{trimmed, trimmed_end, CharClass};
use crate::codec::{ascii_upper, base64_decoded, uppercase};
use crate::dots::{is_final_dot, payload, read_back, unstuffed_line};
use crate::laws::dots::{completed, is_line, law_payload_reads_back, lemma_first_line};
use crate::session::{
    command_of, login_or_empty, path_of, plain_step, reply, CommandView, NextView, PhaseView,
    PlainNext, SessionView,
};
use vstd::prelude::*;
use vstd::utf8::{encode_utf8, is_ascii_chars};

verus! {

/// A message is only taken from an authenticated client that named a sender and a recipient, and
/// the steps of AUTH LOGIN only happen on an encrypted connection.
pub open spec fn is_sound(s: SessionView) -> bool {
    &&& s.phase is Data ==> s.authed && s.mail_from.len() > 0 && s.rcpts.len() > 0
    &&& s.phase is LoginUser || s.phase is LoginPassword ==> s.secure
}

/// The session after the lines.
pub open spec fn run(
    s: SessionView,
    lines: Seq<Seq<char>>,
    user: Seq<char>,
    pass: Seq<char>,
) -> SessionView
    decreases lines.len(),
{
    if lines.len() == 0 {
        s
    } else {
        run(s, lines.drop_last(), user, pass).after(lines.last(), user, pass).0
    }
}

/// The line authenticates the client of a session in this state: it is AUTH PLAIN with the right
/// credentials, or the right password after the right user name.
pub open spec fn authenticates(
    s: SessionView,
    line: Seq<char>,
    user: Seq<char>,
    pass: Seq<char>,
) -> bool {
    match s.phase {
        PhaseView::Command => {
            let bare = trimmed_end(line, CharClass::LineBreak);
            match command_of(bare, uppercase(bare)) {
                CommandView::AuthPlain(arg) => plain_outcome(
                    base64_decoded(trimmed(arg, CharClass::Whitespace)),
                    user,
                    pass,
                ) == AuthResult::Success,
                _ => false,
            }
        },
        PhaseView::LoginPassword(name) => name == user && login_or_empty(line) == pass,
        _ => false,
    }
}

/// A session is sound when it starts.
pub proof fn law_new_session_is_sound(secure: bool)
    ensures
        is_sound(SessionView::initial(secure)),
{
}

/// A sound session stays sound, whatever the client sends, and stays as secure as it is.
pub proof fn law_session_stays_sound(
    s: SessionView,
    line: Seq<char>,
    user: Seq<char>,
    pass: Seq<char>,
)
    requires
        is_sound(s),
    ensures
        is_sound(s.after(line, user, pass).0),
        s.after(line, user, pass).0.secure == s.secure,
{
}

/// A session is authenticated after a line if and only if it was before or the line authenticates
/// its client.
pub proof fn law_authentication_needs_credentials(
    s: SessionView,
    line: Seq<char>,
    user: Seq<char>,
    pass: Seq<char>,
)
    ensures
        s.after(line, user, pass).0.authed == (s.authed || authenticates(s, line, user, pass)),
{
}

/// Soundness and authentication over a whole session: after any lines the session is sound, and it
/// is authenticated only if one of the lines authenticated the client.
pub proof fn law_whole_session(
    secure: bool,
    lines: Seq<Seq<char>>,
    user: Seq<char>,
    pass: Seq<char>,
)
    ensures
        is_sound(run(SessionView::initial(secure), lines, user, pass)),
        run(SessionView::initial(secure), lines, user, pass).secure == secure,
        run(SessionView::initial(secure), lines, user, pass).authed <==> exists|i: int|
            0 <= i < lines.len() && authenticates(
                run(SessionView::initial(secure), #[trigger] lines.take(i), user, pass),
                lines[i],
                user,
                pass,
            ),
    decreases lines.len(),
{
    let start = SessionView::initial(secure);
    if lines.len() > 0 {
        let init = lines.drop_last();
        let n = lines.len() - 1;
        law_whole_session(secure, init, user, pass);
        let before = run(start, init, user, pass);
        law_session_stays_sound(before, lines.last(), user, pass);
        law_authentication_needs_credentials(before, lines.last(), user, pass);
        assert(lines.take(n) =~= init);
        assert forall|i: int| 0 <= i < n implies #[trigger] init.take(i) == lines.take(i) by {
            assert(init.take(i) =~= lines.take(i));
        }
        if before.authed {
            let i = choose|i: int|
                0 <= i < init.len() && authenticates(
                    run(start, #[trigger] init.take(i), user, pass),
                    init[i],
                    user,
                    pass,
                );
            assert(init.take(i) == lines.take(i));
            assert(init[i] == lines[i]);
        } else if authenticates(before, lines.last(), user, pass) {
            assert(authenticates(run(start, lines.take(n), user, pass), lines[n], user, pass));
        } else {
            assert forall|i: int| 0 <= i < lines.len() implies !authenticates(
                run(start, #[trigger] lines.take(i), user, pass),
                lines[i],
                user,
                pass,
            ) by {
                if i < n {
                    assert(init.take(i) == lines.take(i));
                    assert(init[i] == lines[i]);
                }
            }
        }
    }
}

/// A message is handed on only for an authenticated client, with the sender and the recipients
/// that it named, and only at the line that ends the message.
pub proof fn law_only_authenticated_clients_relay(
    s: SessionView,
    line: Seq<char>,
    user: Seq<char>,
    pass: Seq<char>,
)
    requires
        is_sound(s),
    ensures
        s.after(line, user, pass).1.next matches NextView::Relay { mail_from, rcpts, data } ==> {
            &&& s.authed
            &&& mail_from == s.mail_from && mail_from.len() > 0
            &&& rcpts == s.rcpts && rcpts.len() > 0
            &&& s.phase == PhaseView::Data(data)
            &&& is_final_dot(encode_utf8(line))
        },
{
}

/// Without encryption AUTH LOGIN is refused, and a session never gets to its steps.
pub proof fn law_login_needs_encryption(
    s: SessionView,
    first: Option<Seq<char>>,
    user: Seq<char>,
    pass: Seq<char>,
)
    requires
        is_sound(s),
        !s.secure,
    ensures
        !(s.phase is LoginUser) && !(s.phase is LoginPassword),
        s.commanded(CommandView::AuthLogin(first), user, pass) == (
            s,
            reply("538 Encryption required for requested authentication mechanism"@),
        ),
{
}

/// A client that has not authenticated itself is told so on every command but a greeting, an
/// authentication and `QUIT`, and the session stays as it is.
pub proof fn law_mail_needs_authentication(
    s: SessionView,
    command: CommandView,
    user: Seq<char>,
    pass: Seq<char>,
)
    requires
        !s.authed,
        command is MailFrom || command is RcptTo || command is Data || command is Unknown,
    ensures
        s.commanded(command, user, pass) == (s, reply("530 5.7.0 Authentication required"@)),
{
}

/// `AUTH` with a mechanism other than LOGIN and PLAIN is refused as such, before and after
/// authentication, and the session stays as it is.
pub proof fn law_other_mechanisms_are_refused(
    s: SessionView,
    line: Seq<char>,
    user: Seq<char>,
    pass: Seq<char>,
)
    requires
        s.phase is Command,
        ({
            let upper = uppercase(trimmed_end(line, CharClass::LineBreak));
            &&& "AUTH "@.is_prefix_of(upper)
            &&& !"AUTH PLAIN"@.is_prefix_of(upper)
            &&& upper != "AUTH LOGIN"@
            &&& !"AUTH LOGIN "@.is_prefix_of(upper)
        }),
    ensures
        s.after(line, user, pass) == (s, reply("504 5.5.4 Unrecognized authentication type"@)),
{
    let upper = uppercase(trimmed_end(line, CharClass::LineBreak));
    reveal_strlit("AUTH ");
    reveal_strlit("EHLO");
    reveal_strlit("HELO");
    assert(upper[0] == "AUTH "@[0]);
    if "EHLO"@.is_prefix_of(upper) {
        assert(upper[0] == "EHLO"@[0]);
    }
    if "HELO"@.is_prefix_of(upper) {
        assert(upper[0] == "HELO"@[0]);
    }
}

/// `MAIL FROM` and `RCPT TO` are known by their first characters, in any letter case, whatever
/// characters the address holds.
pub proof fn law_addresses_may_hold_any_character(line: Seq<char>)
    ensures
        line.len() >= 10 && is_ascii_chars(line.take(10)) && line.take(10).map_values(
            |c: char| ascii_upper(c),
        ) == "MAIL FROM:"@ ==> command_of(line, uppercase(line)) == CommandView::MailFrom(
            path_of(line),
        ),
        line.len() >= 8 && is_ascii_chars(line.take(8)) && line.take(8).map_values(
            |c: char| ascii_upper(c),
        ) == "RCPT TO:"@ ==> command_of(line, uppercase(line)) == CommandView::RcptTo(
            path_of(line),
        ),
{
    let upper = uppercase(line);
    lemma_uppercase_begins(line, 10);
    lemma_uppercase_begins(line, 8);
    reveal_strlit("MAIL FROM:");
    reveal_strlit("RCPT TO:");
    if line.len() >= 10 && is_ascii_chars(line.take(10)) && line.take(10).map_values(
        |c: char| ascii_upper(c),
    ) == "MAIL FROM:"@ {
        assert(upper.take(10) == "MAIL FROM:"@);
        assert("MAIL FROM:"@ =~= upper.subrange(0, 10));
        assert("MAIL FROM:"@.is_prefix_of(upper));
        assert(upper[0] == "MAIL FROM:"@[0]);
        lemma_not_an_earlier_command(upper, 'M');
    }
    if line.len() >= 8 && is_ascii_chars(line.take(8)) && line.take(8).map_values(
        |c: char| ascii_upper(c),
    ) == "RCPT TO:"@ {
        assert(upper.take(8) == "RCPT TO:"@);
        assert("RCPT TO:"@ =~= upper.subrange(0, 8));
        assert("RCPT TO:"@.is_prefix_of(upper));
        assert(upper[0] == "RCPT TO:"@[0]);
        lemma_not_an_earlier_command(upper, 'R');
        if "MAIL FROM:"@.is_prefix_of(upper) {
            assert(upper[0] == "MAIL FROM:"@[0]);
        }
    }
}

/// A text that begins with another character is none of these commands.
proof fn lemma_not_an_earlier_command(upper: Seq<char>, first: char)
    requires
        upper.len() > 0,
        upper[0] == first,
        first == 'M' || first == 'R',
    ensures
        !"EHLO"@.is_prefix_of(upper),
        !"HELO"@.is_prefix_of(upper),
        !"AUTH PLAIN"@.is_prefix_of(upper),
        upper != "AUTH LOGIN"@,
        !"AUTH LOGIN "@.is_prefix_of(upper),
        !"AUTH "@.is_prefix_of(upper),
        upper != "QUIT"@,
{
    reveal_strlit("EHLO");
    reveal_strlit("HELO");
    reveal_strlit("AUTH PLAIN");
    reveal_strlit("AUTH LOGIN");
    reveal_strlit("AUTH LOGIN ");
    reveal_strlit("AUTH ");
    reveal_strlit("QUIT");
    if "EHLO"@.is_prefix_of(upper) {
        assert(upper[0] == "EHLO"@[0]);
    }
    if "HELO"@.is_prefix_of(upper) {
        assert(upper[0] == "HELO"@[0]);
    }
    if "AUTH PLAIN"@.is_prefix_of(upper) {
        assert(upper[0] == "AUTH PLAIN"@[0]);
    }
    if "AUTH LOGIN "@.is_prefix_of(upper) {
        assert(upper[0] == "AUTH LOGIN "@[0]);
    }
    if "AUTH "@.is_prefix_of(upper) {
        assert(upper[0] == "AUTH "@[0]);
    }
}

/// The beginning of a text changes its letter case by itself, as long as it is ASCII.
pub proof fn lemma_uppercase_begins(s: Seq<char>, n: int)
    ensures
        0 <= n <= s.len() && is_ascii_chars(s.take(n)) ==> n <= uppercase(s).len() && uppercase(
            s,
        ).take(n) == s.take(n).map_values(|c: char| ascii_upper(c)),
{
    let all = s.map_values(|c: char| ascii_upper(c));
    if 0 <= n <= s.len() && is_ascii_chars(s.take(n)) {
        assert(all.take(n) =~= s.take(n).map_values(|c: char| ascii_upper(c)));
    }
}

/// Before the connection is encrypted only `STARTTLS` leads to a session.
pub proof fn law_only_starttls_leads_on(upper: Seq<char>)
    ensures
        plain_step(upper).1 == PlainNext::Upgrade <==> upper == "STARTTLS"@,
{
}

/// The bytes of the lines.
pub open spec fn wire(lines: Seq<Seq<char>>) -> Seq<u8>
    decreases lines.len(),
{
    if lines.len() == 0 {
        Seq::empty()
    } else {
        encode_utf8(lines[0]) + wire(lines.skip(1))
    }
}

/// The first message that the lines make the session hand on.
pub open spec fn handed_on(
    s: SessionView,
    lines: Seq<Seq<char>>,
    user: Seq<char>,
    pass: Seq<char>,
) -> Option<NextView>
    decreases lines.len(),
{
    if lines.len() == 0 {
        None
    } else {
        let (t, step) = s.after(lines[0], user, pass);
        if step.next is Relay {
            Some(step.next)
        } else {
            handed_on(t, lines.skip(1), user, pass)
        }
    }
}

/// The lines of a message, as they are read back, are handed on after what came before them.
proof fn lemma_message_is_handed_on(
    s: SessionView,
    lines: Seq<Seq<char>>,
    so_far: Seq<u8>,
    user: Seq<char>,
    pass: Seq<char>,
)
    requires
        s.phase == PhaseView::Data(so_far),
        forall|i: int| 0 <= i < lines.len() ==> is_line(encode_utf8(#[trigger] lines[i])),
        read_back(wire(lines)) is Some,
    ensures
        handed_on(s, lines, user, pass) == Some(
            NextView::Relay {
                mail_from: s.mail_from,
                rcpts: s.rcpts,
                data: so_far + read_back(wire(lines))->0,
            },
        ),
    decreases lines.len(),
{
    if lines.len() == 0 {
        crate::text::lemma_first_match(wire(lines), seq![10u8]);
    } else {
        let line = encode_utf8(lines[0]);
        let rest = lines.skip(1);
        assert(is_line(line));
        lemma_first_line(line, wire(rest));
        if is_final_dot(line) {
            assert(so_far + Seq::<u8>::empty() =~= so_far);
        } else {
            let t = s.after(lines[0], user, pass).0;
            assert forall|i: int| 0 <= i < rest.len() implies is_line(
                encode_utf8(#[trigger] rest[i]),
            ) by {
                assert(rest[i] == lines[i + 1]);
            }
            lemma_message_is_handed_on(t, rest, so_far + unstuffed_line(line), user, pass);
            assert(so_far + unstuffed_line(line) + read_back(wire(rest))->0 =~= so_far + (
            unstuffed_line(line) + read_back(wire(rest))->0));
        }
    }
}

/// A message that a client sends after `DATA` by the transparency rule is handed on as it was,
/// with CRLF after it where it did not end with it.
pub proof fn law_message_arrives_as_sent(
    s: SessionView,
    message: Seq<u8>,
    lines: Seq<Seq<char>>,
    user: Seq<char>,
    pass: Seq<char>,
)
    requires
        s.phase == PhaseView::Data(Seq::empty()),
        forall|i: int| 0 <= i < lines.len() ==> is_line(encode_utf8(#[trigger] lines[i])),
        wire(lines) == payload(message),
    ensures
        handed_on(s, lines, user, pass) == Some(
            NextView::Relay {
                mail_from: s.mail_from,
                rcpts: s.rcpts,
                data: completed(message),
            },
        ),
{
    law_payload_reads_back(message);
    lemma_message_is_handed_on(s, lines, Seq::empty(), user, pass);
    assert(Seq::<u8>::empty() + completed(message) =~= completed(message));
}

} // verus!
