//! Laws of address headers.
use crate::chars::{trimmed, trimmed_start, CharClass};
use crate::mail::{
    angle_mailbox, commented_mailbox, display_name_of, entry_mailbox, formatted, header_mailboxes,
    is_bare_address, is_delimiter, is_special, present, replaced, replacement, single_mailbox,
    AddressView, MailboxView,
};
use crate::quoting::{
    closing, enclosed_len, entries, escaped, is_quoted_string, lemma_closing, lemma_token_len,
    outside, pair_len, token_len, unescaped,
};
use crate::text::{joined, last_index, lemma_first_match_is, matches_at};
use vstd::prelude::*;

verus! {

/// Neither the first nor the last character of the text is in the class.
pub open spec fn is_trimmed(s: Seq<char>, class: CharClass) -> bool {
    s.len() > 0 ==> !class.has(s[0]) && !class.has(s.last())
}

/// No comma stands outside quoted strings and comments, and each of these is closed.
pub open spec fn is_closed(s: Seq<char>) -> bool
    decreases s.len(),
{
    s.len() == 0 || {
        &&& s[0] != ','
        &&& s[0] == '"' || s[0] == '(' ==> enclosed_len(s) is Some
        &&& 0 < token_len(s) <= s.len()
        &&& is_closed(s.skip(token_len(s)))
    }
}

/// The written form of the mailbox shows where its address begins and ends: nothing in the address
/// looks like an enclosed address.
pub open spec fn shows_address(m: MailboxView) -> bool {
    if m.display_name.len() == 0 {
        &&& m.address.len() > 0
        &&& angle_mailbox(m.address) is None
        &&& commented_mailbox(m.address) is None
    } else {
        &&& !m.address.contains('<')
        &&& !m.address.contains('>')
    }
}

/// Reading keeps the whole display name: it is written between quotes, or has no blanks around it.
pub open spec fn keeps_name(name: Seq<char>) -> bool {
    is_quoted(name) || is_trimmed(name, CharClass::Whitespace)
}

/// A mailbox whose written form shows where its parts begin and end. A colon would make the header
/// one for the strict parser.
pub open spec fn is_plain(m: MailboxView) -> bool {
    &&& is_trimmed(m.address, CharClass::Whitespace)
    &&& !m.address.contains(':')
    &&& !m.display_name.contains(':')
    &&& shows_address(m)
    &&& keeps_name(m.display_name)
}

/// No comma stands outside quoted strings and comments, and nothing in `rest` closes one of these
/// that the text opens.
pub open spec fn is_closed_before(s: Seq<char>, rest: Seq<char>) -> bool
    decreases s.len(),
{
    s.len() == 0 || {
        &&& s[0] != ','
        &&& s[0] == '"' && enclosed_len(s) is None ==> !rest.contains('"')
        &&& s[0] == '(' && enclosed_len(s) is None ==> !rest.contains(')')
        &&& 0 < token_len(s) <= s.len()
        &&& is_closed_before(s.skip(token_len(s)), rest)
    }
}

/// The mailboxes as a header.
pub open spec fn written(boxes: Seq<MailboxView>) -> Seq<char> {
    joined(
        boxes.map_values(|m: MailboxView| formatted(m.display_name, m.address)),
        ", "@,
    )
}

/// Mailboxes that can be told apart in a list: what opens in an address is closed in it, or by
/// nothing after it.
pub open spec fn are_apart(boxes: Seq<MailboxView>) -> bool {
    forall|i: int|
        0 <= i < boxes.len() ==> is_closed_before(
            (#[trigger] boxes[i]).address,
            written(boxes.skip(i + 1)),
        )
}

/// Plain mailboxes that can be told apart in a list.
pub open spec fn are_plain(boxes: Seq<MailboxView>) -> bool {
    &&& forall|i: int| 0 <= i < boxes.len() ==> is_plain(#[trigger] boxes[i])
    &&& are_apart(boxes)
}

/// The mailboxes with the addresses that stand for their own.
pub open spec fn with_replacements(
    boxes: Seq<MailboxView>,
    aliases: Map<Seq<char>, Seq<char>>,
) -> Seq<MailboxView> {
    boxes.map_values(|m: MailboxView| with_replacement(m, aliases))
}

/// The name is written between quotes.
pub open spec fn is_quoted(name: Seq<char>) -> bool {
    exists|i: int| 0 <= i < name.len() && is_special(#[trigger] name[i])
}

/// The mailbox with the address that stands for its own.
pub open spec fn with_replacement(
    m: MailboxView,
    aliases: Map<Seq<char>, Seq<char>>,
) -> MailboxView {
    MailboxView {
        display_name: m.display_name,
        address: replacement(m.address, aliases),
    }
}

/// Trimming takes away what stands around a trimmed text.
pub proof fn lemma_trimmed_around(before: Seq<char>, s: Seq<char>, after: Seq<char>, class: CharClass)
    requires
        s.len() > 0,
        is_trimmed(s, class),
        forall|i: int| 0 <= i < before.len() ==> class.has(#[trigger] before[i]),
        forall|i: int| 0 <= i < after.len() ==> class.has(#[trigger] after[i]),
    ensures
        trimmed(before + s + after, class) == s,
    decreases before.len() + after.len(),
{
    let all = before + s + after;
    if before.len() > 0 {
        assert(all[0] == before[0]);
        assert(all.skip(1) =~= before.skip(1) + s + after);
        lemma_trimmed_around(before.skip(1), s, after, class);
    } else {
        assert(all =~= s + after);
        assert(all[0] == s[0]);
        assert(trimmed_start(all, class) == all);
        if after.len() > 0 {
            assert(all.last() == after.last());
            assert(all.drop_last() =~= s + after.drop_last());
            let less = Seq::<char>::empty() + s + after.drop_last();
            assert(less =~= s + after.drop_last());
            lemma_trimmed_around(Seq::empty(), s, after.drop_last(), class);
            assert(less[0] == s[0]);
            assert(trimmed_start(less, class) == less);
        } else {
            assert(all =~= s);
        }
    }
}

/// An element with none of its kind after it is the last of them.
pub proof fn lemma_last_index_is(s: Seq<char>, x: char, i: int)
    requires
        0 <= i < s.len(),
        s[i] == x,
        forall|j: int| i < j < s.len() ==> #[trigger] s[j] != x,
    ensures
        last_index(s, x) == Some(i),
    decreases s.len(),
{
    if i < s.len() - 1 {
        assert(s[s.len() - 1] != x);
        lemma_last_index_is(s.drop_last(), x, i);
    }
}

/// A text without the element has no last position of it.
pub proof fn lemma_no_last_index(s: Seq<char>, x: char)
    requires
        !s.contains(x),
    ensures
        last_index(s, x) is None,
    decreases s.len(),
{
    if s.len() > 0 {
        assert(s[s.len() - 1] != x);
        assert forall|i: int| 0 <= i < s.drop_last().len() implies s.drop_last()[i] != x by {
            assert(s[i] != x);
        }
        lemma_no_last_index(s.drop_last(), x);
    }
}

/// An address in angle brackets is found, whatever stands before it.
proof fn lemma_angle_mailbox(before: Seq<char>, addr: Seq<char>)
    requires
        is_trimmed(addr, CharClass::Whitespace),
        !addr.contains('<'),
        !addr.contains('>'),
    ensures
        angle_mailbox(before + seq!['<'] + addr + seq!['>']) == Some(
            MailboxView {
                display_name: display_name_of(before),
                address: addr,
            },
        ),
{
    let text = before + seq!['<'] + addr + seq!['>'];
    let start = before.len() as int;
    let n = addr.len() as int;
    assert forall|j: int| start < j < text.len() implies #[trigger] text[j] != '<' by {
        if j <= start + n {
            assert(text[j] == addr[j - start - 1]);
        }
    }
    lemma_last_index_is(text, '<', start);
    let rest = text.skip(start + 1);
    assert(rest =~= addr + seq!['>']);
    assert(rest.subrange(n, n + 1) =~= seq!['>']);
    assert forall|j: int| 0 <= j < n implies !matches_at(rest, seq!['>'], j) by {
        if matches_at(rest, seq!['>'], j) {
            assert(rest.subrange(j, j + 1)[0] == addr[j]);
        }
    }
    lemma_first_match_is(rest, seq!['>'], n);
    assert(text.take(start) =~= before);
    assert(text.subrange(start + 1, start + 1 + n) =~= addr);
    if n > 0 {
        lemma_trimmed_around(Seq::empty(), addr, Seq::empty(), CharClass::Whitespace);
        assert(Seq::<char>::empty() + addr + Seq::empty() =~= addr);
    }
}

/// Escaping is undone.
pub proof fn lemma_unescaped_escaped(s: Seq<char>)
    ensures
        unescaped(escaped(s)) == s,
    decreases s.len(),
{
    let e = escaped(s);
    if s.len() > 0 {
        let rest = s.skip(1);
        lemma_unescaped_escaped(rest);
        if s[0] == '\\' || s[0] == '"' {
            assert(pair_len(e) == 2 && e[1] == s[0]);
            assert(e.skip(2) =~= escaped(rest));
        } else {
            assert(pair_len(e) == 1 && e[0] == s[0]);
            assert(e.skip(1) =~= escaped(rest));
        }
        assert(unescaped(e) =~= s);
    } else {
        assert(unescaped(e) =~= s);
    }
}

/// The first quote after an escaped text is the one that closes it.
pub proof fn lemma_closing_escaped(s: Seq<char>, rest: Seq<char>)
    ensures
        closing(escaped(s) + seq!['"'] + rest, '"') == Some(escaped(s).len() as int),
    decreases s.len(),
{
    let all = escaped(s) + seq!['"'] + rest;
    if s.len() > 0 {
        let tail = escaped(s.skip(1));
        lemma_closing_escaped(s.skip(1), rest);
        if s[0] == '\\' || s[0] == '"' {
            assert(all[0] == '\\' && pair_len(all) == 2);
            assert(all.skip(2) =~= tail + seq!['"'] + rest);
        } else {
            assert(all[0] == s[0] && pair_len(all) == 1);
            assert(all.skip(1) =~= tail + seq!['"'] + rest);
        }
    } else {
        assert(all[0] == '"');
    }
}

/// A text that begins with an escaped name between quotes begins with a quoted string.
pub proof fn lemma_quoted_name(name: Seq<char>, rest: Seq<char>)
    ensures
        enclosed_len(seq!['"'] + escaped(name) + seq!['"'] + rest) == Some(
            escaped(name).len() as int + 2,
        ),
{
    let all = seq!['"'] + escaped(name) + seq!['"'] + rest;
    lemma_closing_escaped(name, rest);
    assert(all[0] == '"');
    assert(all.skip(1) =~= escaped(name) + seq!['"'] + rest);
}

/// Escaping brings nothing in but backslashes.
pub proof fn lemma_escaped_holds_no(s: Seq<char>, x: char)
    requires
        !s.contains(x),
        x != '\\',
    ensures
        !escaped(s).contains(x),
    decreases s.len(),
{
    if s.len() > 0 {
        let rest = s.skip(1);
        assert(s[0] != x);
        assert forall|i: int| 0 <= i < rest.len() implies rest[i] != x by {
            assert(rest[i] == s[i + 1]);
        }
        lemma_escaped_holds_no(rest, x);
        let e = escaped(s);
        let tail = escaped(rest);
        let n = e.len() - tail.len();
        assert forall|i: int| 0 <= i < e.len() implies e[i] != x by {
            if i >= n {
                assert(e[i] == tail[i - n]);
            }
        }
    }
}

/// The closing mark stays where it is when the text goes on.
proof fn lemma_closing_prefix(a: Seq<char>, b: Seq<char>, mark: char)
    requires
        closing(a, mark) is Some,
    ensures
        closing(a + b, mark) == closing(a, mark),
    decreases a.len(),
{
    assert((a + b)[0] == a[0]);
    if a[0] != mark {
        let n = pair_len(a);
        if a[0] == '\\' && a.len() == 1 {
            assert(closing(a.skip(1), mark) is None);
        }
        assert(pair_len(a + b) == n);
        assert((a + b).skip(n) =~= a.skip(n) + b);
        lemma_closing_prefix(a.skip(n), b, mark);
    }
}

/// What a text begins with stays the same when the text goes on, if it is closed.
proof fn lemma_token_prefix(a: Seq<char>, b: Seq<char>)
    requires
        a.len() > 0,
        a[0] == '"' || a[0] == '(' ==> enclosed_len(a) is Some,
        0 < token_len(a) <= a.len(),
    ensures
        token_len(a + b) == token_len(a),
        (a + b).skip(token_len(a)) == a.skip(token_len(a)) + b,
        enclosed_len(a + b) == enclosed_len(a),
{
    assert((a + b)[0] == a[0]);
    assert((a + b).skip(1) =~= a.skip(1) + b);
    if a[0] == '"' {
        lemma_closing_prefix(a.skip(1), b, '"');
    } else if a[0] == '(' {
        lemma_closing_prefix(a.skip(1), b, ')');
    }
    assert((a + b).skip(token_len(a)) =~= a.skip(token_len(a)) + b);
}

/// Closed texts put together are closed.
proof fn lemma_closed_concat(a: Seq<char>, b: Seq<char>)
    requires
        is_closed(a),
        is_closed(b),
    ensures
        is_closed(a + b),
    decreases a.len(),
{
    if a.len() > 0 {
        lemma_token_prefix(a, b);
        lemma_closed_concat(a.skip(token_len(a)), b);
    } else {
        assert(a + b =~= b);
    }
}

/// A text of ordinary characters is closed.
proof fn lemma_ordinary_is_closed(s: Seq<char>)
    requires
        !is_quoted(s),
    ensures
        is_closed(s),
    decreases s.len(),
{
    if s.len() > 0 {
        assert(!is_special(s[0]));
        let rest = s.skip(1);
        assert(!is_quoted(rest)) by {
            if is_quoted(rest) {
                let i = choose|i: int| 0 <= i < rest.len() && is_special(#[trigger] rest[i]);
                assert(is_special(s[i + 1]));
            }
        }
        lemma_ordinary_is_closed(rest);
        assert(token_len(s) == 1);
    }
}

/// One character that opens nothing and separates nothing is closed.
proof fn lemma_one_is_closed(c: char)
    requires
        c != ',' && c != '"' && c != '(',
    ensures
        is_closed(seq![c]),
{
    let s = seq![c];
    assert(token_len(s) == 1);
    assert(s.skip(1).len() == 0);
    assert(is_closed(s.skip(1)));
}

/// What a text does not close stays open before one that does not hold the mark.
proof fn lemma_stays_open(a: Seq<char>, b: Seq<char>, mark: char)
    requires
        closing(a, mark) is None,
        !b.contains(mark),
    ensures
        closing(a + b, mark) is None,
    decreases a.len(),
{
    let all = a + b;
    if a.len() == 0 {
        assert(all =~= b);
        lemma_closing(b, mark);
    } else {
        assert(all[0] == a[0]);
        let n = pair_len(all);
        let rest = all.skip(n);
        if n <= a.len() {
            assert(rest =~= a.skip(n) + b);
            lemma_stays_open(a.skip(n), b, mark);
        } else {
            lemma_closing(rest, mark);
            if closing(rest, mark) is Some {
                let i = closing(rest, mark)->0;
                assert(b[n + i - a.len()] == mark);
            }
        }
    }
}

/// A text after one that it closes nothing of: what stands outside in it stands outside in both.
proof fn lemma_outside_after(a: Seq<char>, b: Seq<char>)
    requires
        is_closed_before(a, b),
    ensures
        outside(a + b, ',') == match outside(b, ',') {
            Some(i) => Some(i + a.len()),
            None => None,
        },
    decreases a.len(),
{
    let all = a + b;
    if a.len() > 0 {
        let n = token_len(a);
        assert(all[0] == a[0]);
        assert(all.skip(1) =~= a.skip(1) + b);
        if enclosed_len(a) is Some || !(a[0] == '"' || a[0] == '(') {
            lemma_token_prefix(a, b);
        } else {
            lemma_stays_open(a.skip(1), b, if a[0] == '"' { '"' } else { ')' });
        }
        assert(token_len(all) == n);
        assert(all.skip(n) =~= a.skip(n) + b);
        lemma_outside_after(a.skip(n), b);
    } else {
        assert(all =~= b);
    }
}

/// A closed text closes all that it opens, whatever follows it.
pub proof fn lemma_closed_before(s: Seq<char>, rest: Seq<char>)
    requires
        is_closed(s),
    ensures
        is_closed_before(s, rest),
    decreases s.len(),
{
    if s.len() > 0 {
        lemma_closed_before(s.skip(token_len(s)), rest);
    }
}

/// What stands outside in a text behind a closed one is what stands outside in it alone.
pub proof fn lemma_outside_after_closed(a: Seq<char>, b: Seq<char>)
    requires
        is_closed(a),
    ensures
        outside(a + b, ',') == match outside(b, ',') {
            Some(i) => Some(i + a.len()),
            None => None,
        },
{
    lemma_closed_before(a, b);
    lemma_outside_after(a, b);
}

/// What one text does not close, another does not that holds no mark but those of the first.
proof fn lemma_closed_before_less(s: Seq<char>, rest: Seq<char>, less: Seq<char>)
    requires
        is_closed_before(s, rest),
        less.contains('"') ==> rest.contains('"'),
        less.contains(')') ==> rest.contains(')'),
    ensures
        is_closed_before(s, less),
    decreases s.len(),
{
    if s.len() > 0 {
        lemma_closed_before_less(s.skip(token_len(s)), rest, less);
    }
}

/// Without a comma outside, nothing is missing where nothing follows.
proof fn lemma_closed_before_nothing(s: Seq<char>)
    requires
        outside(s, ',') is None,
    ensures
        is_closed_before(s, Seq::empty()),
    decreases s.len(),
{
    if s.len() > 0 {
        lemma_token_len(s);
        lemma_closed_before_nothing(s.skip(token_len(s)));
    }
}

/// What stands before the angle brackets of a written mailbox with a name.
spec fn written_name(name: Seq<char>) -> Seq<char> {
    if is_quoted(name) {
        seq!['"'] + escaped(name) + seq!['"', ' ']
    } else {
        name + seq![' ']
    }
}

/// How a mailbox is written.
proof fn lemma_written(m: MailboxView)
    ensures
        m.display_name.len() > 0 ==> formatted(m.display_name, m.address) == written_name(
            m.display_name,
        ) + seq!['<'] + m.address + seq!['>'],
        m.display_name.len() == 0 ==> formatted(m.display_name, m.address) == m.address,
{
    reveal_strlit("\"");
    reveal_strlit("\" <");
    reveal_strlit(" <");
    reveal_strlit(">");
    if m.display_name.len() > 0 {
        assert(formatted(m.display_name, m.address) =~= written_name(m.display_name) + seq!['<']
            + m.address + seq!['>']);
    }
}

/// The name of a plain mailbox is found where it was written.
proof fn lemma_name_reads_back(m: MailboxView)
    requires
        is_plain(m),
        m.display_name.len() > 0,
    ensures
        display_name_of(written_name(m.display_name)) == m.display_name,
{
    let name = m.display_name;
    assert(CharClass::Whitespace.has(' '));
    let none = Seq::<char>::empty();
    if is_quoted(name) {
        let bare = seq!['"'] + escaped(name) + seq!['"'];
        assert(!CharClass::Whitespace.has('"'));
        assert(written_name(name) =~= none + bare + seq![' ']);
        lemma_trimmed_around(none, bare, seq![' '], CharClass::Whitespace);
        lemma_quoted_name(name, none);
        assert(seq!['"'] + escaped(name) + seq!['"'] + none =~= bare);
        assert(is_quoted_string(bare));
        assert(bare.subrange(1, bare.len() - 1) =~= escaped(name));
        lemma_unescaped_escaped(name);
    } else {
        assert(!is_special(name[0]) && !is_special(name[name.len() - 1]));
        assert(written_name(name) =~= none + name + seq![' ']);
        lemma_trimmed_around(none, name, seq![' '], CharClass::Whitespace);
        lemma_trimmed_around(none, name, none, CharClass::Quote);
        assert(none + name + none =~= name);
    }
}

/// What stands before the address of a written mailbox is closed.
proof fn lemma_written_name_is_closed(name: Seq<char>)
    ensures
        is_closed(written_name(name) + seq!['<']),
{
    let before = written_name(name);
    lemma_one_is_closed(' ');
    lemma_one_is_closed('<');
    if is_quoted(name) {
        lemma_quoted_name(name, seq![' ']);
        assert(seq!['"'] + escaped(name) + seq!['"'] + seq![' '] =~= before);
        assert(before.skip(escaped(name).len() as int + 2) =~= seq![' ']);
    } else {
        lemma_ordinary_is_closed(name);
        lemma_closed_concat(name, seq![' ']);
    }
    lemma_closed_concat(before, seq!['<']);
}

/// Where the first entry of a written list ends: a comma after it is the first outside.
proof fn lemma_first_entry(m: MailboxView, lead: Seq<char>, more: Seq<char>, follows: bool)
    requires
        is_closed_before(m.address, more),
        lead == seq![' '] || lead.len() == 0,
        !follows ==> more.len() == 0,
    ensures
        ({
            let form = lead + formatted(m.display_name, m.address);
            if follows {
                outside(form + seq![',', ' '] + more, ',') == Some(form.len() as int)
            } else {
                outside(form, ',') is None
            }
        }),
{
    let form = lead + formatted(m.display_name, m.address);
    let tail = if follows {
        seq![',', ' '] + more
    } else {
        Seq::empty()
    };
    let end = if m.display_name.len() > 0 {
        seq!['>'] + tail
    } else {
        tail
    };
    let name = written_name(m.display_name) + seq!['<'];
    let before = if m.display_name.len() > 0 {
        lead + name
    } else {
        lead
    };
    lemma_written(m);
    lemma_one_is_closed(' ');
    assert(is_closed(Seq::<char>::empty()));
    if m.display_name.len() > 0 {
        lemma_written_name_is_closed(m.display_name);
        if lead.len() == 0 {
            assert(before =~= name);
        } else {
            lemma_closed_concat(lead, name);
        }
    } else if lead.len() == 0 {
        assert(before =~= Seq::empty());
    }
    assert forall|x: char| (x == '"' || x == ')') && #[trigger] end.contains(
        x,
    ) implies more.contains(x) by {
        let i = choose|i: int| 0 <= i < end.len() && end[i] == x;
        let k = end.len() - more.len();
        assert(i >= k);
        assert(more[i - k] == x);
    }
    lemma_closed_before_less(m.address, more, end);
    lemma_outside_after(m.address, end);
    lemma_outside_after_closed(before, m.address + end);
    assert(before + (m.address + end) =~= form + tail);
    if follows {
        assert(form + tail =~= form + seq![',', ' '] + more);
        assert(tail[0] == ',');
        assert(outside(tail, ',') == Some(0int));
        if m.display_name.len() > 0 {
            assert(token_len(end) == 1);
            assert(end.skip(1) =~= tail);
            assert(outside(end, ',') == Some(1int));
        }
    } else {
        assert(form + tail =~= form);
        lemma_one_is_closed('>');
        lemma_outside_after_closed(seq!['>'], tail);
        assert(outside(tail, ',') is None);
    }
}

/// The entries of a written list: the written forms of its mailboxes, each but the first behind a
/// blank.
proof fn lemma_entries_written(boxes: Seq<MailboxView>, lead: Seq<char>)
    requires
        boxes.len() > 0,
        are_apart(boxes),
        lead == seq![' '] || lead.len() == 0,
    ensures
        entries(lead + written(boxes)) == Seq::new(
            boxes.len(),
            |i: int|
                (if i == 0 {
                    lead
                } else {
                    seq![' ']
                }) + formatted(boxes[i].display_name, boxes[i].address),
        ),
    decreases boxes.len(),
{
    reveal_strlit(", ");
    assert(", "@ =~= seq![',', ' ']);
    let forms = boxes.map_values(|m: MailboxView| formatted(m.display_name, m.address));
    let first = lead + forms[0];
    let all = lead + written(boxes);
    let rest = boxes.skip(1);
    let want = Seq::new(
        boxes.len(),
        |i: int|
            (if i == 0 {
                lead
            } else {
                seq![' ']
            }) + formatted(boxes[i].display_name, boxes[i].address),
    );
    assert(boxes[0] == boxes.first());
    assert(is_closed_before(boxes[0].address, written(boxes.skip(1))));
    if boxes.len() == 1 {
        assert(rest =~= Seq::empty());
        assert(written(rest) =~= Seq::empty());
        lemma_first_entry(boxes[0], lead, written(rest), false);
        assert(written(boxes) =~= forms[0]);
        assert(all =~= first);
        assert(entries(all) =~= want);
    } else {
        lemma_first_entry(boxes[0], lead, written(rest), true);
        assert(forms.skip(1) =~= rest.map_values(
            |m: MailboxView| formatted(m.display_name, m.address),
        ));
        assert(written(boxes) =~= forms[0] + seq![',', ' '] + written(rest));
        assert(all =~= first + seq![',', ' '] + written(rest));
        assert forall|i: int| 0 <= i < rest.len() implies is_closed_before(
            (#[trigger] rest[i]).address,
            written(rest.skip(i + 1)),
        ) by {
            assert(rest[i] == boxes[i + 1]);
            assert(rest.skip(i + 1) =~= boxes.skip(i + 1 + 1));
        }
        lemma_entries_written(rest, seq![' ']);
        assert(all.take(first.len() as int) =~= first);
        assert(all.skip(first.len() as int + 1) =~= seq![' '] + written(rest));
        let tail = entries(seq![' '] + written(rest));
        assert(entries(all) == seq![first] + tail);
        assert forall|i: int| 0 <= i < want.len() implies want[i] == (seq![first] + tail)[i] by {
            if i > 0 {
                assert(tail[i - 1] == seq![' '] + formatted(
                    rest[i - 1].display_name,
                    rest[i - 1].address,
                ));
            }
        }
        assert(entries(all) =~= want);
    }
}

/// A plain mailbox reads back from how it is written, also behind a blank.
pub proof fn lemma_entry_reads_back(m: MailboxView)
    requires
        is_plain(m),
    ensures
        formatted(m.display_name, m.address).len() > 0,
        is_trimmed(formatted(m.display_name, m.address), CharClass::Whitespace),
        entry_mailbox(formatted(m.display_name, m.address)) == Some(m),
        entry_mailbox(seq![' '] + formatted(m.display_name, m.address)) == Some(m),
{
    let form = formatted(m.display_name, m.address);
    let none = Seq::<char>::empty();
    lemma_written(m);
    assert(is_trimmed(form, CharClass::Whitespace)) by {
        if m.display_name.len() > 0 {
            assert(form.last() == '>');
            assert(form[0] == written_name(m.display_name)[0]);
        }
    }
    assert(form.len() > 0);
    assert(CharClass::Whitespace.has(' '));
    lemma_trimmed_around(none, form, none, CharClass::Whitespace);
    lemma_trimmed_around(seq![' '], form, none, CharClass::Whitespace);
    assert(none + form + none =~= form);
    assert(seq![' '] + form + none =~= seq![' '] + form);
    if m.display_name.len() > 0 {
        lemma_angle_mailbox(written_name(m.display_name), m.address);
        lemma_name_reads_back(m);
    } else {
        assert(m.display_name =~= none);
    }
}

/// The written form of a plain mailbox holds no colon.
proof fn lemma_written_holds_no_colon(m: MailboxView)
    requires
        is_plain(m),
    ensures
        !formatted(m.display_name, m.address).contains(':'),
{
    let form = formatted(m.display_name, m.address);
    let name = m.display_name;
    lemma_written(m);
    assert forall|i: int| 0 <= i < form.len() implies form[i] != ':' by {
        if name.len() > 0 {
            let before = written_name(name);
            lemma_escaped_holds_no(name, ':');
            if i < before.len() {
                assert(form[i] == before[i]);
                if is_quoted(name) {
                    assert(0 < i <= escaped(name).len() ==> before[i] == escaped(name)[i - 1]);
                } else {
                    assert(i < name.len() ==> before[i] == name[i]);
                }
            } else if before.len() < i <= before.len() + m.address.len() {
                assert(form[i] == m.address[i - before.len() - 1]);
            }
        }
    }
}

/// A join of parts with separators, none of which hold the element, does not hold it.
pub proof fn lemma_joined_holds_no(parts: Seq<Seq<char>>, sep: Seq<char>, x: char)
    requires
        forall|i: int| 0 <= i < parts.len() ==> !(#[trigger] parts[i]).contains(x),
        !sep.contains(x),
    ensures
        !joined(parts, sep).contains(x),
    decreases parts.len(),
{
    if parts.len() > 1 {
        let rest = parts.skip(1);
        assert forall|i: int| 0 <= i < rest.len() implies !(#[trigger] rest[i]).contains(x) by {
            assert(rest[i] == parts[i + 1]);
        }
        lemma_joined_holds_no(rest, sep, x);
        let all = joined(parts, sep);
        let tail = joined(rest, sep);
        assert(!parts[0].contains(x));
        assert forall|i: int| 0 <= i < all.len() implies all[i] != x by {
            if i < parts[0].len() {
                assert(all[i] == parts[0][i]);
            } else if i < parts[0].len() + sep.len() {
                assert(all[i] == sep[i - parts[0].len()]);
            } else {
                assert(all[i] == tail[i - parts[0].len() - sep.len()]);
            }
        }
    } else if parts.len() == 1 {
        assert(!parts[0].contains(x));
    }
}

/// Where nothing is missing, what is present is everything.
pub proof fn lemma_all_present(s: Seq<Option<MailboxView>>, t: Seq<MailboxView>)
    requires
        s.len() == t.len(),
        forall|i: int| 0 <= i < s.len() ==> #[trigger] s[i] == Some(t[i]),
    ensures
        present(s) == t,
    decreases s.len(),
{
    if s.len() > 0 {
        lemma_all_present(s.drop_last(), t.drop_last());
        assert(s[s.len() - 1] == Some(t[t.len() - 1]));
        assert(present(s) =~= t);
    } else {
        assert(present(s) =~= t);
    }
}

/// A join ends as the last part does.
pub proof fn lemma_last_of_joined(parts: Seq<Seq<char>>, sep: Seq<char>)
    requires
        parts.len() > 0,
        parts.last().len() > 0,
    ensures
        joined(parts, sep).len() > 0,
        joined(parts, sep).last() == parts.last().last(),
    decreases parts.len(),
{
    if parts.len() > 1 {
        assert(parts.skip(1).last() == parts.last());
        lemma_last_of_joined(parts.skip(1), sep);
    }
}

/// The header that is written for plain mailboxes neither begins nor ends with a blank.
pub proof fn lemma_header_is_trimmed(boxes: Seq<MailboxView>, aliases: Map<Seq<char>, Seq<char>>)
    requires
        forall|i: int|
            0 <= i < boxes.len() ==> is_plain(with_replacement(#[trigger] boxes[i], aliases)),
    ensures
        is_trimmed(replaced(boxes, aliases), CharClass::Whitespace),
        trimmed_start(replaced(boxes, aliases), CharClass::Whitespace) == replaced(boxes, aliases),
{
    if boxes.len() > 0 {
        let n = boxes.len() - 1;
        let m = with_replacement(boxes[0], aliases);
        let z = with_replacement(boxes[n], aliases);
        assert(is_plain(m) && is_plain(z));
        lemma_entry_reads_back(m);
        lemma_entry_reads_back(z);
        let forms = boxes.map_values(
            |m: MailboxView| formatted(m.display_name, replacement(m.address, aliases)),
        );
        assert(forms.last() == formatted(z.display_name, z.address));
        lemma_last_of_joined(forms, ", "@);
        assert(replaced(boxes, aliases)[0] == formatted(m.display_name, m.address)[0]);
    }
}

/// The header that is written for mailboxes with reverse aliases reads back as the same mailboxes,
/// in the same order and with the same display names, each with the address that stands for its
/// own.
pub proof fn law_replaced_header_reads_back(
    boxes: Seq<MailboxView>,
    aliases: Map<Seq<char>, Seq<char>>,
    parsed: Option<Seq<AddressView>>,
)
    requires
        are_plain(with_replacements(boxes, aliases)),
    ensures
        header_mailboxes(replaced(boxes, aliases), parsed) == with_replacements(boxes, aliases),
{
    reveal_strlit(", ");
    assert(", "@ =~= seq![',', ' ']);
    let news = with_replacements(boxes, aliases);
    let forms = boxes.map_values(
        |m: MailboxView| formatted(m.display_name, replacement(m.address, aliases)),
    );
    let header = replaced(boxes, aliases);
    assert(header == joined(forms, seq![',', ' ']));
    assert forall|i: int| 0 <= i < forms.len() implies !(#[trigger] forms[i]).contains(':')
        && entry_mailbox(forms[i]) == Some(news[i]) && entry_mailbox(seq![' '] + forms[i]) == Some(
        news[i],
    ) by {
        assert(is_plain(news[i]));
        lemma_written_holds_no_colon(news[i]);
        lemma_entry_reads_back(news[i]);
    }
    lemma_joined_holds_no(forms, seq![',', ' '], ':');
    if forms.len() == 0 {
        assert(header =~= Seq::empty());
        assert(entries(header) =~= seq![header]);
        let found = entries(header).map_values(|p: Seq<char>| entry_mailbox(p));
        assert(found.drop_last() =~= Seq::empty());
        assert(trimmed(header, CharClass::Whitespace) == header);
        assert(found.last() is None);
        assert(present(found.drop_last()) =~= Seq::empty());
        assert(present(found) =~= Seq::empty());
        assert(news =~= Seq::empty());
    } else {
        assert(news.map_values(|m: MailboxView| formatted(m.display_name, m.address)) =~= forms);
        assert(header =~= Seq::empty() + written(news));
        lemma_entries_written(news, Seq::empty());
        let parts = entries(header);
        assert forall|i: int| 0 <= i < parts.len() implies entry_mailbox(#[trigger] parts[i])
            == Some(news[i]) by {
            assert(entry_mailbox(forms[i]) == Some(news[i]));
            if i > 0 {
                assert(parts[i] == seq![' '] + forms[i]);
            } else {
                assert(parts[i] =~= forms[i]);
            }
        }
        let found = entries(header).map_values(|p: Seq<char>| entry_mailbox(p));
        assert forall|i: int| 0 <= i < found.len() implies #[trigger] found[i] == Some(
            news[i],
        ) by {
            assert(found[i] == entry_mailbox(parts[i]));
        }
        lemma_all_present(found, news);
    }
}

/// A plain mailbox whose address holds no comma outside reads back as the only one of a header.
pub proof fn law_one_mailbox_reads_back(m: MailboxView, parsed: Option<Seq<AddressView>>)
    requires
        is_plain(m),
        outside(m.address, ',') is None,
    ensures
        header_mailboxes(formatted(m.display_name, m.address), parsed) == seq![m],
{
    let boxes = seq![m];
    let none = Map::<Seq<char>, Seq<char>>::empty();
    assert(with_replacement(m, none) == m);
    assert(with_replacements(boxes, none) =~= boxes);
    lemma_closed_before_nothing(m.address);
    assert(written(boxes.skip(1)) =~= Seq::empty());
    law_replaced_header_reads_back(boxes, none, parsed);
    let forms = boxes.map_values(
        |m: MailboxView| formatted(m.display_name, replacement(m.address, none)),
    );
    assert(forms.len() == 1 && forms[0] == formatted(m.display_name, m.address));
}

/// A plain mailbox with a display name reads back from how it is written.
pub proof fn law_written_mailbox_reads_back(m: MailboxView, parsed: Option<Seq<AddressView>>)
    requires
        is_plain(m),
        m.display_name.len() > 0,
    ensures
        single_mailbox(formatted(m.display_name, m.address), parsed) == m,
{
    lemma_written(m);
    lemma_angle_mailbox(written_name(m.display_name), m.address);
    lemma_name_reads_back(m);
}

/// An address that has no reverse alias stays as it is.
pub proof fn law_unmapped_addresses_stay(address: Seq<char>, aliases: Map<Seq<char>, Seq<char>>)
    requires
        !aliases.contains_key(address),
    ensures
        replacement(address, aliases) == address,
{
}

/// A reverse alias that is a bare address stands for the address itself.
pub proof fn law_bare_reverse_alias_is_used(
    address: Seq<char>,
    aliases: Map<Seq<char>, Seq<char>>,
)
    requires
        aliases.contains_key(address),
        is_bare_address(aliases[address]),
    ensures
        replacement(address, aliases) == aliases[address],
{
    let reverse = aliases[address];
    assert(!reverse.contains('<')) by {
        assert forall|i: int| 0 <= i < reverse.len() implies reverse[i] != '<' by {
            assert(!is_delimiter(reverse[i]));
        }
    }
    lemma_no_last_index(reverse, '<');
}

/// Of a reverse alias with a name of its own, the address between the angle brackets is used.
pub proof fn law_named_reverse_alias_gives_its_address(
    address: Seq<char>,
    aliases: Map<Seq<char>, Seq<char>>,
    before: Seq<char>,
    inner: Seq<char>,
)
    requires
        aliases.contains_key(address),
        aliases[address] == before + seq!['<'] + inner + seq!['>'],
        is_trimmed(inner, CharClass::Whitespace),
        !inner.contains('<'),
        !inner.contains('>'),
    ensures
        replacement(address, aliases) == inner,
{
    lemma_angle_mailbox(before, inner);
}

} // verus!
