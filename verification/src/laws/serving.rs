//! Laws of serving a client, from its lines and what it is told: commands in any letter case,
//! addresses, whole transactions.
use crate::auth::{plain_outcome, AuthResult};
use crate::chars::{trimmed, trimmed_end, CharClass};
use crate::codec::{ascii_upper, base64_decoded, uppercase};
use crate::dots::payload;
use crate::laws::basics::{law_first_position, law_trimmed, law_trimmed_end};
use crate::laws::dots::{completed, is_line};
use crate::laws::mail::{is_trimmed, lemma_trimmed_around};
use crate::laws::mailboxes::is_blank;
use crate::laws::session::{
    handed_on, law_message_arrives_as_sent, lemma_uppercase_begins, run, wire,
};
use crate::session::{
    command_of, extract_path, greeting, health_code, login_or_empty, path_of, take_plain_line,
    third_word, CommandView, NextView, PhaseView, PlainNext, PlainStep, Session, SessionView, Step,
    StepView,
};
use crate::text::{first_match, texts};
use vstd::prelude::*;
use vstd::utf8::{encode_utf8, is_ascii_chars};

verus! {

/// The line begins with the word, in any letter case.
pub open spec fn begins(line: Seq<char>, word: Seq<char>) -> bool {
    &&& line.len() >= word.len()
    &&& forall|i: int|
        0 <= i < word.len() ==> (#[trigger] line[i]) as u32 <= 127 && ascii_upper(line[i])
            == word[i]
}

/// The line is the word, in any letter case.
pub open spec fn is_word(line: Seq<char>, word: Seq<char>) -> bool {
    line.len() == word.len() && begins(line, word)
}

/// The upper case of a line begins as the line does.
proof fn lemma_begins(line: Seq<char>, word: Seq<char>)
    requires
        begins(line, word),
    ensures
        word.is_prefix_of(uppercase(line)),
        line.len() == word.len() ==> uppercase(line) == word,
{
    let n = word.len() as int;
    let start = line.take(n);
    assert(is_ascii_chars(start)) by {
        assert forall|i: int| 0 <= i < start.len() implies '\0' <= #[trigger] start[i]
            <= '\u{7f}' by {
            assert(start[i] == line[i]);
        }
    }
    lemma_uppercase_begins(line, n);
    let upper = uppercase(line);
    assert(upper.take(n) =~= word) by {
        assert forall|i: int| 0 <= i < n implies upper.take(n)[i] == word[i] by {
            assert(start[i] == line[i]);
            assert(start.map_values(|c: char| ascii_upper(c))[i] == ascii_upper(line[i]));
        }
    }
    assert(word =~= upper.subrange(0, n));
    if line.len() == word.len() {
        assert(start =~= line);
        assert(upper =~= line.map_values(|c: char| ascii_upper(c)));
        assert(upper.take(n) =~= upper);
    }
}

/// In an ASCII line nothing but its beginning makes its upper case begin with a word.
proof fn lemma_begins_only(line: Seq<char>, word: Seq<char>)
    requires
        is_ascii_chars(line),
        word.is_prefix_of(uppercase(line)),
    ensures
        begins(line, word),
        uppercase(line).len() == line.len(),
{
    let upper = uppercase(line);
    assert(upper == line.map_values(|c: char| ascii_upper(c)));
    assert forall|i: int| 0 <= i < word.len() implies (#[trigger] line[i]) as u32 <= 127
        && ascii_upper(line[i]) == word[i] by {
        assert(upper[i] == ascii_upper(line[i]));
        assert(upper[i] == word[i]);
    }
}

/// The first letters of two words tell them apart.
proof fn lemma_apart(line: Seq<char>, a: Seq<char>, b: Seq<char>, i: int)
    requires
        begins(line, a),
        0 <= i < a.len(),
        i < b.len(),
        a[i] != b[i],
    ensures
        !b.is_prefix_of(uppercase(line)),
        uppercase(line) != b,
{
    lemma_begins(line, a);
    let upper = uppercase(line);
    assert(upper[i] == a[i]);
    if b.is_prefix_of(upper) {
        assert(upper[i] == b[i]);
    }
}

/// The first letters of the words that commands begin with.
proof fn lemma_letters()
    ensures
        "EHLO"@.len() == 4 && "EHLO"@[0] == 'E',
        "HELO"@.len() == 4 && "HELO"@[0] == 'H',
        "AUTH PLAIN"@.len() == 10 && "AUTH PLAIN"@[0] == 'A' && "AUTH PLAIN"@[5] == 'P',
        "AUTH LOGIN"@.len() == 10 && "AUTH LOGIN"@[0] == 'A' && "AUTH LOGIN"@[5] == 'L',
        "AUTH LOGIN "@.len() == 11 && "AUTH LOGIN "@[0] == 'A' && "AUTH LOGIN "@[5] == 'L',
        "AUTH "@.len() == 5 && "AUTH "@[0] == 'A',
        "QUIT"@.len() == 4 && "QUIT"@[0] == 'Q',
        "MAIL FROM:"@.len() == 10 && "MAIL FROM:"@[0] == 'M',
        "RCPT TO:"@.len() == 8 && "RCPT TO:"@[0] == 'R',
        "DATA"@.len() == 4 && "DATA"@[0] == 'D',
        "STARTTLS"@.len() == 8 && "STARTTLS"@[0] == 'S',
{
    reveal_strlit("EHLO");
    reveal_strlit("HELO");
    reveal_strlit("AUTH PLAIN");
    reveal_strlit("AUTH LOGIN");
    reveal_strlit("AUTH LOGIN ");
    reveal_strlit("AUTH ");
    reveal_strlit("QUIT");
    reveal_strlit("MAIL FROM:");
    reveal_strlit("RCPT TO:");
    reveal_strlit("DATA");
    reveal_strlit("STARTTLS");
}

/// Commands are known by their first characters, in any letter case, whatever follows them.
#[verifier::rlimit(40)]
pub proof fn law_commands(line: Seq<char>)
    ensures
        begins(line, "EHLO"@) || begins(line, "HELO"@) ==> command_of(line, uppercase(line))
            == CommandView::Hello,
        begins(line, "AUTH PLAIN"@) ==> command_of(line, uppercase(line)) == CommandView::AuthPlain(
            match third_word(line) {
                Some(arg) => arg,
                None => Seq::empty(),
            },
        ),
        is_word(line, "AUTH LOGIN"@) || begins(line, "AUTH LOGIN "@) ==> command_of(
            line,
            uppercase(line),
        ) == CommandView::AuthLogin(third_word(line)),
        is_word(line, "QUIT"@) ==> command_of(line, uppercase(line)) == CommandView::Quit,
        begins(line, "MAIL FROM:"@) ==> command_of(line, uppercase(line)) == CommandView::MailFrom(
            path_of(line),
        ),
        begins(line, "RCPT TO:"@) ==> command_of(line, uppercase(line)) == CommandView::RcptTo(
            path_of(line),
        ),
        is_word(line, "DATA"@) ==> command_of(line, uppercase(line)) == CommandView::Data,
{
    lemma_letters();
    if begins(line, "EHLO"@) {
        lemma_begins(line, "EHLO"@);
    }
    if begins(line, "HELO"@) {
        lemma_begins(line, "HELO"@);
    }
    if begins(line, "AUTH PLAIN"@) {
        lemma_begins(line, "AUTH PLAIN"@);
        lemma_apart(line, "AUTH PLAIN"@, "EHLO"@, 0);
        lemma_apart(line, "AUTH PLAIN"@, "HELO"@, 0);
    }
    if is_word(line, "AUTH LOGIN"@) {
        lemma_begins(line, "AUTH LOGIN"@);
        lemma_apart(line, "AUTH LOGIN"@, "EHLO"@, 0);
        lemma_apart(line, "AUTH LOGIN"@, "HELO"@, 0);
        lemma_apart(line, "AUTH LOGIN"@, "AUTH PLAIN"@, 5);
    }
    if begins(line, "AUTH LOGIN "@) {
        lemma_begins(line, "AUTH LOGIN "@);
        lemma_apart(line, "AUTH LOGIN "@, "EHLO"@, 0);
        lemma_apart(line, "AUTH LOGIN "@, "HELO"@, 0);
        lemma_apart(line, "AUTH LOGIN "@, "AUTH PLAIN"@, 5);
    }
    if is_word(line, "QUIT"@) {
        lemma_begins(line, "QUIT"@);
        lemma_not_these(line, "QUIT"@);
    }
    if begins(line, "MAIL FROM:"@) {
        lemma_begins(line, "MAIL FROM:"@);
        lemma_not_these(line, "MAIL FROM:"@);
        lemma_apart(line, "MAIL FROM:"@, "QUIT"@, 0);
    }
    if begins(line, "RCPT TO:"@) {
        lemma_begins(line, "RCPT TO:"@);
        lemma_not_these(line, "RCPT TO:"@);
        lemma_apart(line, "RCPT TO:"@, "QUIT"@, 0);
        lemma_apart(line, "RCPT TO:"@, "MAIL FROM:"@, 0);
    }
    if is_word(line, "DATA"@) {
        lemma_begins(line, "DATA"@);
        lemma_not_these(line, "DATA"@);
        lemma_apart(line, "DATA"@, "QUIT"@, 0);
        lemma_apart(line, "DATA"@, "MAIL FROM:"@, 0);
        lemma_apart(line, "DATA"@, "RCPT TO:"@, 0);
    }
}

/// A word with another first letter is no greeting and no authentication.
proof fn lemma_not_these(line: Seq<char>, word: Seq<char>)
    requires
        begins(line, word),
        word.len() > 0,
        word[0] != 'E' && word[0] != 'H' && word[0] != 'A',
    ensures
        !"EHLO"@.is_prefix_of(uppercase(line)),
        !"HELO"@.is_prefix_of(uppercase(line)),
        !"AUTH PLAIN"@.is_prefix_of(uppercase(line)),
        uppercase(line) != "AUTH LOGIN"@,
        !"AUTH LOGIN "@.is_prefix_of(uppercase(line)),
        !"AUTH "@.is_prefix_of(uppercase(line)),
{
    lemma_letters();
    lemma_apart(line, word, "EHLO"@, 0);
    lemma_apart(line, word, "HELO"@, 0);
    lemma_apart(line, word, "AUTH PLAIN"@, 0);
    lemma_apart(line, word, "AUTH LOGIN"@, 0);
    lemma_apart(line, word, "AUTH LOGIN "@, 0);
    lemma_apart(line, word, "AUTH "@, 0);
}

/// An ASCII line that is none of the commands is unknown.
pub proof fn law_other_lines_are_unknown(line: Seq<char>)
    requires
        is_ascii_chars(line),
        !begins(line, "EHLO"@),
        !begins(line, "HELO"@),
        !begins(line, "AUTH "@),
        !is_word(line, "QUIT"@),
        !begins(line, "MAIL FROM:"@),
        !begins(line, "RCPT TO:"@),
        !is_word(line, "DATA"@),
    ensures
        command_of(line, uppercase(line)) == CommandView::Unknown,
{
    reveal_strlit("AUTH PLAIN");
    reveal_strlit("AUTH LOGIN");
    reveal_strlit("AUTH LOGIN ");
    reveal_strlit("AUTH ");
    let upper = uppercase(line);
    if "EHLO"@.is_prefix_of(upper) {
        lemma_begins_only(line, "EHLO"@);
    }
    if "HELO"@.is_prefix_of(upper) {
        lemma_begins_only(line, "HELO"@);
    }
    if "AUTH "@.is_prefix_of(upper) {
        lemma_begins_only(line, "AUTH "@);
    }
    if "AUTH PLAIN"@.is_prefix_of(upper) {
        assert forall|i: int| 0 <= i < 5 implies "AUTH "@[i] == upper[i] by {
            assert("AUTH PLAIN"@[i] == upper[i]);
        }
        assert("AUTH "@ =~= upper.subrange(0, 5));
    }
    if "AUTH LOGIN "@.is_prefix_of(upper) {
        assert forall|i: int| 0 <= i < 5 implies "AUTH "@[i] == upper[i] by {
            assert("AUTH LOGIN "@[i] == upper[i]);
        }
        assert("AUTH "@ =~= upper.subrange(0, 5));
    }
    if upper == "AUTH LOGIN"@ {
        assert("AUTH "@ =~= upper.subrange(0, 5));
    }
    if upper == "QUIT"@ {
        assert("QUIT"@ =~= upper.subrange(0, upper.len() as int));
        assert("QUIT"@.is_prefix_of(upper));
        lemma_begins_only(line, "QUIT"@);
    }
    if "MAIL FROM:"@.is_prefix_of(upper) {
        lemma_begins_only(line, "MAIL FROM:"@);
    }
    if "RCPT TO:"@.is_prefix_of(upper) {
        lemma_begins_only(line, "RCPT TO:"@);
    }
    if upper == "DATA"@ {
        assert("DATA"@ =~= upper.subrange(0, upper.len() as int));
        assert("DATA"@.is_prefix_of(upper));
        lemma_begins_only(line, "DATA"@);
    }
}

/// Every character is an angle bracket.
pub open spec fn are_brackets(s: Seq<char>) -> bool {
    forall|i: int| 0 <= i < s.len() ==> CharClass::Angle.has(#[trigger] s[i])
}

/// The address of a command is what follows the first colon, without blanks around it and then
/// without angle brackets around it.
pub proof fn law_paths(
    start: Seq<char>,
    lead: Seq<char>,
    open: Seq<char>,
    address: Seq<char>,
    close: Seq<char>,
    trail: Seq<char>,
)
    requires
        !start.contains(':'),
        is_blank(lead),
        is_blank(trail),
        are_brackets(open),
        are_brackets(close),
        is_trimmed(address, CharClass::Angle),
        (open + address + close).len() > 0,
        is_trimmed(open + address + close, CharClass::Whitespace),
    ensures
        path_of(start + seq![':'] + (lead + (open + address + close) + trail)) == address,
{
    let inner = open + address + close;
    let rest = lead + inner + trail;
    let line = start + seq![':'] + rest;
    law_first_position(line, ':');
    assert(line[start.len() as int] == ':');
    assert(first_match(line, seq![':']) == Some(start.len() as int)) by {
        let i = first_match(line, seq![':'])->0;
        if i < start.len() {
            assert(line[i] == start[i]);
        }
    }
    assert(line.skip(start.len() as int + 1) =~= rest);
    lemma_trimmed_around(lead, inner, trail, CharClass::Whitespace);
    if address.len() > 0 {
        lemma_trimmed_around(open, address, close, CharClass::Angle);
    } else {
        let at = law_trimmed(inner, CharClass::Angle);
        if at.0 < at.1 {
            if at.0 < open.len() {
                assert(inner[at.0] == open[at.0]);
            } else {
                assert(inner[at.0] == close[at.0 - open.len()]);
            }
        }
        assert(trimmed(inner, CharClass::Angle) =~= address);
    }
}

/// A line without a colon names no address, and neither does one with nothing but blanks behind
/// its first colon.
pub proof fn law_no_path(line: Seq<char>, start: Seq<char>, blank: Seq<char>)
    requires
        !line.contains(':'),
        !start.contains(':'),
        is_blank(blank),
    ensures
        path_of(line).len() == 0,
        path_of(start + seq![':'] + blank).len() == 0,
{
    law_first_position(line, ':');
    let all = start + seq![':'] + blank;
    law_first_position(all, ':');
    assert(all[start.len() as int] == ':');
    let i = first_match(all, seq![':'])->0;
    if i < start.len() {
        assert(all[i] == start[i]);
    }
    assert(all.skip(start.len() as int + 1) =~= blank);
    let at = law_trimmed(blank, CharClass::Whitespace);
    if at.0 < at.1 {
        assert(CharClass::Whitespace.has(blank[at.0]));
    }
}

/// The argument of a command is what follows its second space, other spaces included.
pub proof fn law_third_words(a: Seq<char>, b: Seq<char>, c: Seq<char>)
    requires
        !a.contains(' '),
        !b.contains(' '),
    ensures
        third_word(a + seq![' '] + b + seq![' '] + c) == Some(c),
        third_word(a + seq![' '] + b) is None,
        third_word(a) is None,
{
    let all = a + seq![' '] + b + seq![' '] + c;
    let rest = b + seq![' '] + c;
    lemma_space(a, rest);
    assert(all =~= a + seq![' '] + rest);
    lemma_space(b, c);
    lemma_space(a, b);
    law_first_position(a, ' ');
    law_first_position(b, ' ');
}

/// The first space behind a text without spaces.
proof fn lemma_space(a: Seq<char>, rest: Seq<char>)
    requires
        !a.contains(' '),
    ensures
        first_match(a + seq![' '] + rest, seq![' ']) == Some(a.len() as int),
        (a + seq![' '] + rest).skip(a.len() as int + 1) == rest,
{
    let all = a + seq![' '] + rest;
    law_first_position(all, ' ');
    assert(all[a.len() as int] == ' ');
    let i = first_match(all, seq![' '])->0;
    if i < a.len() {
        assert(all[i] == a[i]);
    }
    assert(all.skip(a.len() as int + 1) =~= rest);
}

/// The line that names a sender.
pub open spec fn mail_line(address: Seq<char>) -> Seq<char> {
    "MAIL FROM:<"@ + address + ">\r\n"@
}

/// The line that names a recipient.
pub open spec fn rcpt_line(address: Seq<char>) -> Seq<char> {
    "RCPT TO:<"@ + address + ">\r\n"@
}

/// A line loses its line break and nothing else.
proof fn lemma_bare(text: Seq<char>)
    requires
        text.len() > 0 ==> text.last() != '\r' && text.last() != '\n',
    ensures
        trimmed_end(text + seq!['\r', '\n'], CharClass::LineBreak) == text,
{
    let line = text + seq!['\r', '\n'];
    let n = law_trimmed_end(line, CharClass::LineBreak);
    if n < text.len() {
        assert(CharClass::LineBreak.has(line[text.len() - 1]));
        assert(line[text.len() - 1] == text.last());
    }
    if n > text.len() {
        assert(CharClass::LineBreak.has(line[n - 1]));
    }
    assert(n == text.len());
    assert(line.take(n) =~= text);
}

/// What the lines of an envelope say.
proof fn lemma_envelope_lines(address: Seq<char>)
    requires
        is_trimmed(address, CharClass::Angle),
    ensures
        ({
            let m = trimmed_end(mail_line(address), CharClass::LineBreak);
            let r = trimmed_end(rcpt_line(address), CharClass::LineBreak);
            &&& command_of(m, uppercase(m)) == CommandView::MailFrom(address)
            &&& command_of(r, uppercase(r)) == CommandView::RcptTo(address)
        }),
{
    reveal_strlit("MAIL FROM:<");
    reveal_strlit("RCPT TO:<");
    reveal_strlit("MAIL FROM:");
    reveal_strlit("RCPT TO:");
    reveal_strlit(">\r\n");
    let none = Seq::<char>::empty();
    let m = "MAIL FROM:<"@ + address + seq!['>'];
    let r = "RCPT TO:<"@ + address + seq!['>'];
    assert(mail_line(address) =~= m + seq!['\r', '\n']);
    assert(rcpt_line(address) =~= r + seq!['\r', '\n']);
    lemma_bare(m);
    lemma_bare(r);
    assert(begins(m, "MAIL FROM:"@)) by {
        assert forall|i: int| 0 <= i < "MAIL FROM:"@.len() implies (#[trigger] m[i]) as u32 <= 127
            && ascii_upper(m[i]) == "MAIL FROM:"@[i] by {
            assert(m[i] == "MAIL FROM:<"@[i]);
        }
    }
    assert(begins(r, "RCPT TO:"@)) by {
        assert forall|i: int| 0 <= i < "RCPT TO:"@.len() implies (#[trigger] r[i]) as u32 <= 127
            && ascii_upper(r[i]) == "RCPT TO:"@[i] by {
            assert(r[i] == "RCPT TO:<"@[i]);
        }
    }
    law_commands(m);
    law_commands(r);
    let open = seq!['<'];
    let close = seq!['>'];
    let inner = open + address + close;
    assert(inner[0] == '<' && inner.last() == '>');
    assert(!CharClass::Whitespace.has('<') && !CharClass::Whitespace.has('>'));
    let mail = seq!['M', 'A', 'I', 'L', ' ', 'F', 'R', 'O', 'M'];
    let rcpt = seq!['R', 'C', 'P', 'T', ' ', 'T', 'O'];
    assert(m =~= mail + seq![':'] + (none + inner + none));
    assert(r =~= rcpt + seq![':'] + (none + inner + none));
    law_paths(mail, none, open, address, close, none);
    law_paths(rcpt, none, open, address, close, none);
}

/// Lines one after the other.
proof fn lemma_run_push(
    s: SessionView,
    lines: Seq<Seq<char>>,
    line: Seq<char>,
    user: Seq<char>,
    pass: Seq<char>,
)
    ensures
        run(s, lines.push(line), user, pass) == run(s, lines, user, pass).after(
            line,
            user,
            pass,
        ).0,
{
    assert(lines.push(line).drop_last() =~= lines);
}

/// The lines that name a sender and recipients.
pub open spec fn envelope_lines(sender: Seq<char>, rcpts: Seq<Seq<char>>) -> Seq<Seq<char>> {
    seq![mail_line(sender)] + rcpts.map_values(|r: Seq<char>| rcpt_line(r))
}

/// Each recipient that an authenticated client names is noted, however many there are: after
/// `MAIL FROM` and any number of `RCPT TO`, each of which is answered `250 OK`, the session has
/// that sender and exactly those recipients, in order.
pub proof fn law_recipients_add_up(
    s: SessionView,
    sender: Seq<char>,
    rcpts: Seq<Seq<char>>,
    user: Seq<char>,
    pass: Seq<char>,
)
    requires
        s.phase is Command,
        s.authed,
        is_trimmed(sender, CharClass::Angle),
        forall|i: int| 0 <= i < rcpts.len() ==> is_trimmed(#[trigger] rcpts[i], CharClass::Angle),
    ensures
        run(s, envelope_lines(sender, rcpts), user, pass) == (SessionView {
            mail_from: sender,
            rcpts,
            ..s
        }),
        forall|i: int|
            0 <= i < envelope_lines(sender, rcpts).len() ==> run(
                s,
                #[trigger] envelope_lines(sender, rcpts).take(i),
                user,
                pass,
            ).after(envelope_lines(sender, rcpts)[i], user, pass).1 == (StepView {
                replies: seq!["250 OK"@],
                next: NextView::Listen,
            }),
    decreases rcpts.len(),
{
    let lines = envelope_lines(sender, rcpts);
    if rcpts.len() == 0 {
        lemma_envelope_lines(sender);
        assert(lines =~= Seq::empty().push(mail_line(sender)));
        lemma_run_push(s, Seq::empty(), mail_line(sender), user, pass);
        assert(run(s, Seq::empty(), user, pass) == s);
        assert forall|i: int| 0 <= i < lines.len() implies run(
            s,
            #[trigger] lines.take(i),
            user,
            pass,
        ).after(lines[i], user, pass).1 == (StepView {
            replies: seq!["250 OK"@],
            next: NextView::Listen,
        }) by {
            assert(lines.take(i) =~= Seq::empty());
        }
        assert(rcpts =~= Seq::empty());
    } else {
        let init = rcpts.drop_last();
        let last = rcpts.last();
        let n = rcpts.len() - 1;
        assert(is_trimmed(rcpts[n], CharClass::Angle));
        assert forall|i: int| 0 <= i < init.len() implies is_trimmed(
            #[trigger] init[i],
            CharClass::Angle,
        ) by {
            assert(init[i] == rcpts[i]);
        }
        law_recipients_add_up(s, sender, init, user, pass);
        let before = envelope_lines(sender, init);
        lemma_envelope_lines(last);
        assert(lines =~= before.push(rcpt_line(last)));
        lemma_run_push(s, before, rcpt_line(last), user, pass);
        assert(init.push(last) =~= rcpts);
        assert forall|i: int| 0 <= i < lines.len() implies run(
            s,
            #[trigger] lines.take(i),
            user,
            pass,
        ).after(lines[i], user, pass).1 == (StepView {
            replies: seq!["250 OK"@],
            next: NextView::Listen,
        }) by {
            if i < before.len() {
                assert(lines.take(i) =~= before.take(i));
                assert(lines[i] == before[i]);
            } else {
                assert(lines.take(i) =~= before);
            }
        }
    }
}

/// What lines that hand nothing on lead to does not keep later lines from it.
proof fn lemma_handed_on_later(
    s: SessionView,
    a: Seq<Seq<char>>,
    b: Seq<Seq<char>>,
    user: Seq<char>,
    pass: Seq<char>,
)
    requires
        forall|i: int|
            0 <= i < a.len() ==> !(run(s, #[trigger] a.take(i), user, pass).after(
                a[i],
                user,
                pass,
            ).1.next is Relay),
    ensures
        handed_on(s, a + b, user, pass) == handed_on(run(s, a, user, pass), b, user, pass),
    decreases a.len(),
{
    if a.len() == 0 {
        assert(a + b =~= b);
    } else {
        let first = a[0];
        let rest = a.skip(1);
        assert(a.take(0) =~= Seq::empty());
        let t = s.after(first, user, pass).0;
        assert forall|i: int| 0 <= i < rest.len() implies !(run(
            t,
            #[trigger] rest.take(i),
            user,
            pass,
        ).after(rest[i], user, pass).1.next is Relay) by {
            lemma_run_first(s, a.take(i + 1), user, pass);
            assert(a.take(i + 1).skip(1) =~= rest.take(i));
            assert(a.take(i + 1)[0] == first);
            assert(rest[i] == a[i + 1]);
        }
        lemma_handed_on_later(t, rest, b, user, pass);
        lemma_run_first(s, a, user, pass);
        assert((a + b).skip(1) =~= rest + b);
        assert(!(run(s, a.take(0), user, pass).after(a[0], user, pass).1.next is Relay));
    }
}

/// Lines taken from the first on.
proof fn lemma_run_first(s: SessionView, lines: Seq<Seq<char>>, user: Seq<char>, pass: Seq<char>)
    requires
        lines.len() > 0,
    ensures
        run(s, lines, user, pass) == run(
            s.after(lines[0], user, pass).0,
            lines.skip(1),
            user,
            pass,
        ),
    decreases lines.len(),
{
    let t = s.after(lines[0], user, pass).0;
    if lines.len() == 1 {
        assert(lines.drop_last() =~= Seq::empty());
        assert(lines.skip(1) =~= Seq::empty());
        assert(run(s, lines.drop_last(), user, pass) == s);
    } else {
        lemma_run_first(s, lines.drop_last(), user, pass);
        assert(lines.drop_last().skip(1) =~= lines.skip(1).drop_last());
        assert(lines.skip(1).last() == lines.last());
    }
}

/// A whole transaction: what an authenticated client names and sends is handed on, with that
/// sender, every one of the recipients in order, and the message as it was, with CRLF after it
/// where it did not end with it.
pub proof fn law_transactions(
    s: SessionView,
    sender: Seq<char>,
    rcpts: Seq<Seq<char>>,
    message: Seq<u8>,
    lines: Seq<Seq<char>>,
    user: Seq<char>,
    pass: Seq<char>,
)
    requires
        s.phase is Command,
        s.authed,
        sender.len() > 0,
        rcpts.len() > 0,
        is_trimmed(sender, CharClass::Angle),
        forall|i: int| 0 <= i < rcpts.len() ==> is_trimmed(#[trigger] rcpts[i], CharClass::Angle),
        forall|i: int| 0 <= i < lines.len() ==> is_line(encode_utf8(#[trigger] lines[i])),
        wire(lines) == payload(message),
    ensures
        handed_on(
            s,
            envelope_lines(sender, rcpts) + seq!["DATA\r\n"@] + lines,
            user,
            pass,
        ) == Some(NextView::Relay { mail_from: sender, rcpts, data: completed(message) }),
{
    let start = envelope_lines(sender, rcpts);
    let data = "DATA\r\n"@;
    law_recipients_add_up(s, sender, rcpts, user, pass);
    let t = run(s, start, user, pass);
    reveal_strlit("DATA\r\n");
    reveal_strlit("DATA");
    let word = seq!['D', 'A', 'T', 'A'];
    assert(data =~= word + seq!['\r', '\n']);
    lemma_bare(word);
    assert(is_word(word, "DATA"@));
    law_commands(word);
    let a = start.push(data);
    lemma_run_push(s, start, data, user, pass);
    let u = run(s, a, user, pass);
    assert(u.phase == PhaseView::Data(Seq::empty()));
    assert forall|i: int| 0 <= i < a.len() implies !(run(
        s,
        #[trigger] a.take(i),
        user,
        pass,
    ).after(a[i], user, pass).1.next is Relay) by {
        if i < start.len() {
            assert(a.take(i) =~= start.take(i));
            assert(a[i] == start[i]);
        } else {
            assert(a.take(i) =~= start);
        }
    }
    lemma_handed_on_later(s, a, lines, user, pass);
    assert(start + seq![data] + lines =~= a + lines);
    law_message_arrives_as_sent(u, message, lines, user, pass);
}

/// The replies of a step are these, and the next line is read.
pub open spec fn answers(r: Step, replies: Seq<Seq<char>>) -> bool {
    texts(r.replies@) == replies && r.next is Listen
}

/// Nothing of the session changes.
pub open spec fn stays(a: SessionView, b: SessionView) -> bool {
    a.authed == b.authed && a.secure == b.secure && a.mail_from == b.mail_from && a.rcpts == b.rcpts
        && a.phase == b.phase
}

/// What a line leads to where a command is awaited: what the client is told, and what the session
/// keeps of it.
#[verifier::rlimit(60)]
pub proof fn law_take_line(s: &mut Session, line: &str, user: &str, pass: &str, r: Step)
    requires
        call_ensures(Session::take_line, (s, line, user, pass), r),
        old(s).phase is Command,
    ensures
        ({
            let bare = trimmed_end(line@, CharClass::LineBreak);
            let was = old(s)@;
            let now = final(s)@;
            &&& begins(bare, "EHLO"@) || begins(bare, "HELO"@) ==> stays(was, now) && answers(
                r,
                seq!["250-localhost"@, "250 AUTH LOGIN PLAIN"@],
            )
            &&& is_word(bare, "QUIT"@) ==> stays(was, now) && texts(r.replies@) == seq![
                "221 Bye"@,
            ] && r.next is Close
            &&& begins(bare, "MAIL FROM:"@) && was.authed ==> {
                &&& now.mail_from == path_of(bare) && now.rcpts.len() == 0 && now.authed
                &&& now.phase is Command && now.secure == was.secure
                &&& answers(r, seq!["250 OK"@])
            }
            &&& begins(bare, "RCPT TO:"@) && was.authed ==> {
                &&& now.rcpts == was.rcpts.push(path_of(bare)) && now.mail_from == was.mail_from
                &&& now.authed && now.phase is Command && now.secure == was.secure
                &&& answers(r, seq!["250 OK"@])
            }
            &&& is_word(bare, "DATA"@) && was.authed && was.mail_from.len() > 0 && was.rcpts.len()
                > 0 ==> {
                &&& now.mail_from == was.mail_from && now.rcpts == was.rcpts && now.authed
                &&& now.phase == PhaseView::Data(Seq::empty()) && now.secure == was.secure
                &&& answers(r, seq!["354 End data with <CR><LF>.<CR><LF>"@])
            }
            &&& is_word(bare, "DATA"@) && was.authed && (was.mail_from.len() == 0
                || was.rcpts.len() == 0) ==> stays(was, now) && answers(
                r,
                seq!["503 Bad sequence of commands"@],
            )
            &&& !was.authed && (begins(bare, "MAIL FROM:"@) || begins(bare, "RCPT TO:"@) || is_word(
                bare,
                "DATA"@,
            )) ==> stays(was, now) && answers(r, seq!["530 5.7.0 Authentication required"@])
            &&& (is_word(bare, "AUTH LOGIN"@) || begins(bare, "AUTH LOGIN "@)) && !was.secure
                ==> stays(was, now) && answers(
                r,
                seq!["538 Encryption required for requested authentication mechanism"@],
            )
            &&& (is_word(bare, "AUTH LOGIN"@) || begins(bare, "AUTH LOGIN "@)) && was.secure
                && third_word(bare) is None ==> {
                &&& now.phase is LoginUser && now.authed == was.authed && now.mail_from
                    == was.mail_from && now.rcpts == was.rcpts && now.secure
                &&& answers(r, seq!["334 VXNlcm5hbWU6"@])
            }
            &&& (is_word(bare, "AUTH LOGIN"@) || begins(bare, "AUTH LOGIN "@)) && was.secure
                && third_word(bare) is Some ==> {
                &&& now.phase == PhaseView::LoginPassword(login_or_empty(third_word(bare)->0))
                &&& now.authed == was.authed && now.mail_from == was.mail_from && now.rcpts
                    == was.rcpts && now.secure
                &&& answers(r, seq!["334 VXNlcm5hbWU6"@, "334 UGFzc3dvcmQ6"@])
            }
            &&& begins(bare, "AUTH PLAIN"@) ==> {
                let arg = match third_word(bare) {
                    Some(arg) => arg,
                    None => Seq::empty(),
                };
                let right = plain_outcome(
                    base64_decoded(trimmed(arg, CharClass::Whitespace)),
                    user@,
                    pass@,
                ) == AuthResult::Success;
                &&& now.authed == (was.authed || right) && now.phase is Command && now.mail_from
                    == was.mail_from && now.rcpts == was.rcpts && now.secure == was.secure
                &&& right ==> answers(r, seq!["235 2.7.0 Authentication successful"@])
                &&& !right ==> answers(r, seq!["535 5.7.8 Authentication credentials invalid"@])
            }
        }),
{
    let bare = trimmed_end(line@, CharClass::LineBreak);
    law_commands(bare);
    assert(old(s)@.phase is Command);
    let step = r@;
    assert(step.replies == texts(r.replies@));
    if begins(bare, "AUTH PLAIN"@) {
        let arg = match third_word(bare) {
            Some(arg) => arg,
            None => Seq::empty(),
        };
        crate::laws::auth::law_other_input_is_a_failure(
            base64_decoded(trimmed(arg, CharClass::Whitespace)),
            user@,
            pass@,
        );
    }
}

/// A line that is no command, to an authenticated client and to any other.
pub proof fn law_unknown_lines(s: &mut Session, line: &str, user: &str, pass: &str, r: Step)
    requires
        call_ensures(Session::take_line, (s, line, user, pass), r),
        old(s).phase is Command,
        ({
            let bare = trimmed_end(line@, CharClass::LineBreak);
            &&& is_ascii_chars(bare)
            &&& !begins(bare, "EHLO"@) && !begins(bare, "HELO"@) && !begins(bare, "AUTH "@)
            &&& !is_word(bare, "QUIT"@) && !is_word(bare, "DATA"@)
            &&& !begins(bare, "MAIL FROM:"@) && !begins(bare, "RCPT TO:"@)
        }),
    ensures
        stays(old(s)@, final(s)@),
        old(s).authed ==> answers(r, seq!["500 Error: command not recognized"@]),
        !old(s).authed ==> answers(r, seq!["530 5.7.0 Authentication required"@]),
{
    law_other_lines_are_unknown(trimmed_end(line@, CharClass::LineBreak));
    assert(old(s)@.phase is Command);
    assert(r@.replies == texts(r.replies@));
}

/// What the answers of AUTH LOGIN lead to: the first is the user name and the second the password;
/// the client is authenticated if and only if both are the expected ones.
pub proof fn law_login_steps(s: &mut Session, line: &str, user: &str, pass: &str, r: Step)
    requires
        call_ensures(Session::take_line, (s, line, user, pass), r),
    ensures
        old(s).phase is LoginUser || old(s).phase is LoginPassword ==> final(s)@.mail_from
            == old(s)@.mail_from && final(s)@.rcpts == old(s)@.rcpts && final(s)@.secure
            == old(s)@.secure,
        old(s).phase is LoginUser ==> {
            &&& final(s)@.phase == PhaseView::LoginPassword(login_or_empty(line@))
            &&& final(s)@.authed == old(s)@.authed
            &&& answers(r, seq!["334 UGFzc3dvcmQ6"@])
        },
        old(s)@.phase matches PhaseView::LoginPassword(name) ==> {
            let right = name == user@ && login_or_empty(line@) == pass@;
            &&& final(s)@.phase is Command
            &&& final(s)@.authed == (old(s)@.authed || right)
            &&& right ==> answers(r, seq!["235 2.7.0 Authentication successful"@])
            &&& !right ==> answers(r, seq!["535 5.7.8 Authentication credentials invalid"@])
        },
{
    assert(r@.replies == texts(r.replies@));
}

/// What the lines of a message lead to: each is added to the message, without the dot that it was
/// sent with, and the line with a single dot hands the message on.
pub proof fn law_message_lines(
    s: &mut Session,
    so_far: Seq<u8>,
    line: &str,
    user: &str,
    pass: &str,
    r: Step,
)
    requires
        call_ensures(Session::take_line, (s, line, user, pass), r),
        old(s)@.phase == PhaseView::Data(so_far),
    ensures
        r.replies@.len() == 0,
        final(s)@.mail_from == old(s)@.mail_from && final(s)@.rcpts == old(s)@.rcpts,
        final(s)@.authed == old(s)@.authed && final(s)@.secure == old(s)@.secure,
        ({
            let bytes = encode_utf8(line@);
            let last = bytes == seq![46u8, 13u8, 10u8] || bytes == seq![46u8, 10u8];
            &&& last ==> final(s)@.phase is Command && r.next@ == (NextView::Relay {
                mail_from: old(s)@.mail_from,
                rcpts: old(s)@.rcpts,
                data: so_far,
            })
            &&& !last && seq![46u8, 46u8].is_prefix_of(bytes) ==> r.next is Listen
                && final(s)@.phase == PhaseView::Data(so_far + bytes.skip(1))
            &&& !last && !seq![46u8, 46u8].is_prefix_of(bytes) ==> r.next is Listen
                && final(s)@.phase == PhaseView::Data(so_far + bytes)
        }),
{
    let bytes = encode_utf8(line@);
    let two = seq![46u8, 46u8];
    assert(r@.replies == texts(r.replies@));
    assert(r@.replies.len() == 0);
    assert(r@.next == r.next@);
    if two.is_prefix_of(bytes) {
        assert(bytes[0] == two[0] && bytes[1] == two[1]);
    } else if bytes.len() >= 2 && bytes[0] == 46 && bytes[1] == 46 {
        assert(two =~= bytes.subrange(0, 2));
        assert(two.is_prefix_of(bytes));
    }
}

/// What a client is told before the connection is encrypted.
pub proof fn law_plain_lines(line: &str, r: PlainStep)
    requires
        call_ensures(take_plain_line, (line,), r),
    ensures
        ({
            let bare = trimmed_end(line@, CharClass::LineBreak);
            &&& is_word(bare, "STARTTLS"@) ==> texts(r.replies@) == seq![
                "220 Ready to start TLS"@,
            ] && r.next == PlainNext::Upgrade
            &&& begins(bare, "EHLO"@) || begins(bare, "HELO"@) ==> texts(r.replies@) == seq![
                "250-localhost"@,
                "250-STARTTLS"@,
                "250 AUTH LOGIN PLAIN"@,
            ] && r.next == PlainNext::Listen
            &&& is_word(bare, "QUIT"@) ==> texts(r.replies@) == seq!["221 Bye"@] && r.next
                == PlainNext::Close
            &&& is_ascii_chars(bare) && !is_word(bare, "STARTTLS"@) && !begins(bare, "EHLO"@)
                && !begins(bare, "HELO"@) && !is_word(bare, "QUIT"@) ==> texts(r.replies@) == seq![
                "530 Must issue STARTTLS first"@,
            ] && r.next == PlainNext::Listen
        }),
{
    lemma_letters();
    let bare = trimmed_end(line@, CharClass::LineBreak);
    let upper = uppercase(bare);
    if is_word(bare, "STARTTLS"@) {
        lemma_begins(bare, "STARTTLS"@);
    }
    if begins(bare, "EHLO"@) {
        lemma_begins(bare, "EHLO"@);
        lemma_apart(bare, "EHLO"@, "STARTTLS"@, 0);
    }
    if begins(bare, "HELO"@) {
        lemma_begins(bare, "HELO"@);
        lemma_apart(bare, "HELO"@, "STARTTLS"@, 0);
    }
    if is_word(bare, "QUIT"@) {
        lemma_begins(bare, "QUIT"@);
        lemma_apart(bare, "QUIT"@, "STARTTLS"@, 0);
        lemma_apart(bare, "QUIT"@, "EHLO"@, 0);
        lemma_apart(bare, "QUIT"@, "HELO"@, 0);
    }
    if is_ascii_chars(bare) {
        if upper == "STARTTLS"@ {
            assert("STARTTLS"@ =~= upper.subrange(0, upper.len() as int));
            assert("STARTTLS"@.is_prefix_of(upper));
            lemma_begins_only(bare, "STARTTLS"@);
        }
        if "EHLO"@.is_prefix_of(upper) {
            lemma_begins_only(bare, "EHLO"@);
        }
        if "HELO"@.is_prefix_of(upper) {
            lemma_begins_only(bare, "HELO"@);
        }
        if upper == "QUIT"@ {
            assert("QUIT"@ =~= upper.subrange(0, upper.len() as int));
            assert("QUIT"@.is_prefix_of(upper));
            lemma_begins_only(bare, "QUIT"@);
        }
    }
}

/// What the other functions give back: a session starts without authentication, sender and
/// recipients, and waits for a command; it may end between commands and in a message; the relay is
/// healthy if it greets with a `2`.
pub proof fn law_session_functions(
    secure: bool,
    s: Session,
    t: &Session,
    ends: bool,
    hello: String,
    received: &[u8],
    code: i32,
    line: &str,
    path: String,
)
    ensures
        call_ensures(Session::new, (secure,), s) ==> s.secure == secure && !s.authed
            && s.mail_from@.len() == 0 && s.rcpts@.len() == 0 && s.phase is Command,
        call_ensures(Session::closes_at_end_of_input, (t,), ends) ==> (ends <==> t.phase is Command
            || t.phase is Data),
        call_ensures(greeting, (), hello) ==> hello@ == "220 simplelogin-smtp-relay ESMTP"@,
        call_ensures(health_code, (received,), code) ==> (code == 0 <==> received@.len() > 0
            && received@[0] == 50) && (code == 0 || code == 1),
        call_ensures(extract_path, (line,), path) ==> path@ == path_of(line@),
{
    if call_ensures(Session::new, (secure,), s) {
        assert(s@.rcpts.len() == s.rcpts@.len());
        assert(s@.phase is Command);
    }
}

} // verus!
