//! Laws of reading address headers: what each form of an entry stands for, and that nothing of a
//! list is lost.
use crate::chars::{trimmed, CharClass};
use crate::laws::basics::{law_first_position, law_joined_goes_on, law_last_position, law_trimmed};
use crate::laws::mail::{
    is_closed, is_trimmed, lemma_last_index_is, lemma_no_last_index, lemma_trimmed_around,
    lemma_unescaped_escaped,
};
use crate::laws::quoting::{law_enclosed_texts_are_skipped, law_escapes_are_undone};
use crate::mail::{
    address_list, angle_mailbox, commented_mailbox, display_name_of, entry_mailbox, flattened,
    format_addr, formatted, header_mailboxes, is_special, mailbox_views, members, opaque_mailbox,
    parse_addresses, parse_single_addr, present, replace_addresses, replaced, replacement,
    single_mailbox, AddressView, Mailbox, MailboxView,
};
use crate::map::AliasMap;
use crate::quoting::{
    closing, enclosed_len, entries, escaped, is_quoted_string, lemma_outside, lemma_token_len,
    outside, token_len, unescaped,
};
use crate::text::{first_match, joined, last_index, lemma_first_match_is, matches_at, pieces};
use vstd::prelude::*;

verus! {

/// Every character is white space.
pub open spec fn is_blank(s: Seq<char>) -> bool {
    forall|i: int| 0 <= i < s.len() ==> CharClass::Whitespace.has(#[trigger] s[i])
}

/// Closed texts are the entries of the list that they make up with commas between them, whatever
/// blanks they begin or end with.
pub proof fn law_closed_texts_are_entries(parts: Seq<Seq<char>>)
    requires
        parts.len() > 0,
        forall|i: int| 0 <= i < parts.len() ==> is_closed(#[trigger] parts[i]),
    ensures
        entries(joined(parts, seq![','])) == parts,
    decreases parts.len(),
{
    let s = joined(parts, seq![',']);
    let first = parts[0];
    let none = Seq::<char>::empty();
    assert(is_closed(parts[0]));
    if parts.len() == 1 {
        crate::laws::mail::lemma_outside_after_closed(first, none);
        assert(first + none =~= first);
        assert(entries(s) =~= parts);
    } else {
        let more = parts.skip(1);
        let rest = joined(more, seq![',']);
        assert forall|i: int| 0 <= i < more.len() implies is_closed(#[trigger] more[i]) by {
            assert(more[i] == parts[i + 1]);
        }
        law_closed_texts_are_entries(more);
        let after = seq![','] + rest;
        assert(s =~= first + after);
        assert(outside(after, ',') == Some(0int));
        crate::laws::mail::lemma_outside_after_closed(first, after);
        assert(s.take(first.len() as int) =~= first);
        assert(s.skip(first.len() as int + 1) =~= rest);
        assert(entries(s) =~= parts);
    }
}

/// What is present among options are the values of those that hold one, in order.
pub proof fn law_present<A>(s: Seq<Option<A>>)
    ensures
        present(s) == s.filter(|o: Option<A>| o is Some).map_values(|o: Option<A>| o->0),
    decreases s.len(),
{
    reveal(Seq::filter);
    let some = |o: Option<A>| o is Some;
    let value = |o: Option<A>| o->0;
    if s.len() > 0 {
        law_present(s.drop_last());
        let before = s.drop_last().filter(some);
        if s.last() is Some {
            assert(s.filter(some) =~= before.push(s.last()));
            assert(s.filter(some).map_values(value) =~= before.map_values(value).push(s.last()->0));
        }
        assert(present(s) =~= s.filter(some).map_values(value));
    } else {
        assert(present(s) =~= s.filter(some).map_values(value));
    }
}

/// A header without a colon that is closed texts with commas between them has, in order, the
/// mailbox of each text that has one.
pub proof fn law_list_is_read_entry_by_entry(
    parts: Seq<Seq<char>>,
    parsed: Option<Seq<AddressView>>,
)
    requires
        parts.len() > 0,
        forall|i: int| 0 <= i < parts.len() ==> is_closed(#[trigger] parts[i]),
        !joined(parts, seq![',']).contains(':'),
    ensures
        header_mailboxes(joined(parts, seq![',']), parsed) == parts.map_values(
            |p: Seq<char>| entry_mailbox(p),
        ).filter(|o: Option<MailboxView>| o is Some).map_values(|o: Option<MailboxView>| o->0),
{
    law_closed_texts_are_entries(parts);
    law_present(parts.map_values(|p: Seq<char>| entry_mailbox(p)));
}

/// The mailboxes of a header without a colon are those of its entries that have one, in order,
/// whatever it holds.
pub proof fn law_lists_are_their_entries(header: Seq<char>, parsed: Option<Seq<AddressView>>)
    requires
        !header.contains(':'),
    ensures
        header_mailboxes(header, parsed) == entries(header).map_values(
            |p: Seq<char>| entry_mailbox(p),
        ).filter(|o: Option<MailboxView>| o is Some).map_values(|o: Option<MailboxView>| o->0),
{
    law_present(entries(header).map_values(|p: Seq<char>| entry_mailbox(p)));
}

/// An address that has a reverse alias is replaced by the address of that alias; any other stays.
pub proof fn law_replacements(address: Seq<char>, aliases: Map<Seq<char>, Seq<char>>)
    ensures
        aliases.contains_key(address) ==> replacement(address, aliases) == single_mailbox(
            aliases[address],
            address_list(aliases[address]),
        ).address,
        !aliases.contains_key(address) ==> replacement(address, aliases) == address,
{
}

/// Blanks around an entry change nothing.
pub proof fn law_blanks_around_entries(lead: Seq<char>, s: Seq<char>, trail: Seq<char>)
    requires
        is_blank(lead),
        is_blank(trail),
        is_trimmed(s, CharClass::Whitespace),
    ensures
        s.len() > 0 ==> trimmed(lead + s + trail, CharClass::Whitespace) == s,
        s.len() > 0 ==> entry_mailbox(lead + s + trail) == entry_mailbox(s),
        entry_mailbox(lead + trail) is None,
{
    let all = lead + s + trail;
    if s.len() > 0 {
        lemma_trimmed_around(lead, s, trail, CharClass::Whitespace);
        let none = Seq::<char>::empty();
        lemma_trimmed_around(none, s, none, CharClass::Whitespace);
        assert(none + s + none =~= s);
    }
    let blank = lead + trail;
    let at = law_trimmed(blank, CharClass::Whitespace);
    if at.0 < at.1 {
        if at.0 < lead.len() {
            assert(blank[at.0] == lead[at.0]);
        } else {
            assert(blank[at.0] == trail[at.0 - lead.len()]);
        }
    }
    assert(trimmed(blank, CharClass::Whitespace).len() == 0);
}

/// An entry without angle brackets and comments is an address without a name.
pub proof fn law_bare_entry(address: Seq<char>)
    requires
        address.len() > 0,
        is_trimmed(address, CharClass::Whitespace),
        !address.contains('<'),
        !address.contains('('),
    ensures
        entry_mailbox(address) == Some(
            MailboxView { display_name: Seq::empty(), address },
        ),
{
    let none = Seq::<char>::empty();
    law_blanks_around_entries(none, address, none);
    assert(none + address + none =~= address);
    lemma_no_last_index(address, '<');
    lemma_outside(address, '(');
}

/// The address of an entry stands between its last opening angle bracket and the first closing one
/// after it, without blanks around it. What stands before is for the name, and what follows is for
/// nobody.
pub proof fn law_angle_entry(
    before: Seq<char>,
    lead: Seq<char>,
    address: Seq<char>,
    trail: Seq<char>,
    rest: Seq<char>,
)
    requires
        is_blank(lead),
        is_blank(trail),
        is_trimmed(address, CharClass::Whitespace),
        !address.contains('<'),
        !address.contains('>'),
        !rest.contains('<'),
    ensures
        angle_mailbox(before + seq!['<'] + (lead + address + trail) + seq!['>'] + rest) == Some(
            MailboxView { display_name: display_name_of(before), address },
        ),
{
    let inner = lead + address + trail;
    let text = before + seq!['<'] + inner + seq!['>'] + rest;
    let start = before.len() as int;
    let n = inner.len() as int;
    assert(!CharClass::Whitespace.has('<') && !CharClass::Whitespace.has('>'));
    assert forall|j: int| 0 <= j < n implies inner[j] != '<' && inner[j] != '>' by {
        if j < lead.len() {
            assert(inner[j] == lead[j]);
        } else if j < lead.len() + address.len() {
            assert(inner[j] == address[j - lead.len()]);
        } else {
            assert(inner[j] == trail[j - lead.len() - address.len()]);
        }
    }
    assert forall|j: int| start < j < text.len() implies #[trigger] text[j] != '<' by {
        if j <= start + n {
            assert(text[j] == inner[j - start - 1]);
        } else if j > start + n + 1 {
            assert(text[j] == rest[j - start - n - 2]);
        }
    }
    lemma_last_index_is(text, '<', start);
    let tail = text.skip(start + 1);
    assert(tail =~= inner + seq!['>'] + rest);
    assert(tail.subrange(n, n + 1) =~= seq!['>']);
    assert forall|j: int| 0 <= j < n implies !matches_at(tail, seq!['>'], j) by {
        if matches_at(tail, seq!['>'], j) {
            assert(tail.subrange(j, j + 1)[0] == inner[j]);
        }
    }
    lemma_first_match_is(tail, seq!['>'], n);
    assert(text.take(start) =~= before);
    assert(text.subrange(start + 1, start + 1 + n) =~= inner);
    if address.len() > 0 {
        lemma_trimmed_around(lead, address, trail, CharClass::Whitespace);
    } else {
        law_blanks_around_entries(lead, address, trail);
        assert(inner =~= lead + trail);
        let at = law_trimmed(inner, CharClass::Whitespace);
        if at.0 < at.1 {
            if at.0 < lead.len() {
                assert(inner[at.0] == lead[at.0]);
            } else {
                assert(inner[at.0] == trail[at.0 - lead.len()]);
            }
        }
        assert(trimmed(inner, CharClass::Whitespace) =~= address);
    }
}

/// A name without quotes stands before an address as it is, whatever blanks are around it.
pub proof fn law_plain_name(lead: Seq<char>, name: Seq<char>, trail: Seq<char>)
    requires
        is_blank(lead),
        is_blank(trail),
        is_trimmed(name, CharClass::Whitespace),
        !name.contains('"'),
    ensures
        display_name_of(lead + name + trail) == name,
{
    let all = lead + name + trail;
    if name.len() > 0 {
        lemma_trimmed_around(lead, name, trail, CharClass::Whitespace);
        assert(name[0] != '"');
    } else {
        let at = law_trimmed(all, CharClass::Whitespace);
        if at.0 < at.1 {
            if at.0 < lead.len() {
                assert(all[at.0] == lead[at.0]);
            } else {
                assert(all[at.0] == trail[at.0 - lead.len()]);
            }
        }
        assert(trimmed(all, CharClass::Whitespace) =~= name);
    }
    assert forall|i: int| 0 <= i < name.len() implies !CharClass::Quote.has(#[trigger] name[i]) by {
        assert(name.contains(name[i]));
    }
    crate::chars::lemma_nothing_to_trim(name, CharClass::Quote);
}

/// A quoted name stands for what it quotes, with its escapes undone, whatever it holds.
pub proof fn law_quoted_name(lead: Seq<char>, name: Seq<char>, trail: Seq<char>)
    requires
        is_blank(lead),
        is_blank(trail),
    ensures
        display_name_of(lead + (seq!['"'] + escaped(name) + seq!['"']) + trail) == name,
{
    let none = Seq::<char>::empty();
    let text = seq!['"'] + escaped(name) + seq!['"'];
    assert(!CharClass::Whitespace.has('"'));
    assert(text[0] == '"' && text.last() == '"');
    lemma_trimmed_around(lead, text, trail, CharClass::Whitespace);
    crate::laws::mail::lemma_closing_escaped(name, none);
    assert(text.skip(1) =~= escaped(name) + seq!['"'] + none);
    assert(is_quoted_string(text));
    assert(text.subrange(1, text.len() - 1) =~= escaped(name));
    lemma_unescaped_escaped(name);
}

/// A name with quotes that do not make it one quoted string loses those around it, and no others.
pub proof fn law_half_quoted_name(
    lead: Seq<char>,
    open: Seq<char>,
    name: Seq<char>,
    close: Seq<char>,
    trail: Seq<char>,
)
    requires
        is_blank(lead),
        is_blank(trail),
        forall|i: int| 0 <= i < open.len() ==> #[trigger] open[i] == '"',
        forall|i: int| 0 <= i < close.len() ==> #[trigger] close[i] == '"',
        name.len() > 0,
        is_trimmed(name, CharClass::Quote),
        is_trimmed(open + name + close, CharClass::Whitespace),
        !is_quoted_string(open + name + close),
    ensures
        display_name_of(lead + (open + name + close) + trail) == name,
{
    let inner = open + name + close;
    lemma_trimmed_around(lead, inner, trail, CharClass::Whitespace);
    lemma_trimmed_around(open, name, close, CharClass::Quote);
}

/// A comment names the address before it where the entry ends with it and has an address. It is
/// the first comment outside quoted strings, with its escapes undone and without blanks around it.
pub proof fn law_comments_name_what_stands_before(s: Seq<char>)
    ensures
        match outside(s, '(') {
            Some(i) => {
                let address = trimmed(s.take(i), CharClass::Whitespace);
                let ends = enclosed_len(s.skip(i)) == Some(s.len() - i);
                &&& commented_mailbox(s) is Some <==> address.len() > 0 && ends
                &&& commented_mailbox(s) matches Some(m) ==> m.address == address && m.display_name
                    == trimmed(
                    unescaped(s.skip(i + 1).drop_last()),
                    CharClass::Whitespace,
                )
            },
            None => commented_mailbox(s) is None,
        },
{
    lemma_outside(s, '(');
    if outside(s, '(') is Some && commented_mailbox(s) is Some {
        let i = outside(s, '(')->0;
        lemma_token_len(s.skip(i));
        assert(s.skip(i + 1).drop_last() =~= s.subrange(i + 1, s.len() - 1));
    }
}

/// Where the comment is not at the end of the entry, or nothing stands before it, or it is not
/// closed, an entry without angle brackets is an address as it is.
pub proof fn law_other_comments_name_nobody(s: Seq<char>)
    requires
        s.len() > 0,
        is_trimmed(s, CharClass::Whitespace),
        !s.contains('<'),
        !s.contains('"'),
        s.last() != ')' || s[0] == '(',
    ensures
        entry_mailbox(s) == Some(MailboxView { display_name: Seq::empty(), address: s }),
{
    let none = Seq::<char>::empty();
    law_blanks_around_entries(none, s, none);
    assert(none + s + none =~= s);
    lemma_no_last_index(s, '<');
    lemma_outside(s, '(');
    if commented_mailbox(s) is Some {
        let i = outside(s, '(')->0;
        let tail = s.skip(i);
        lemma_token_len(tail);
        crate::quoting::lemma_closing(tail.skip(1), ')');
        let k = closing(tail.skip(1), ')')->0;
        assert(tail.skip(1)[k] == ')');
        assert(k + 2 == tail.len());
        assert(tail.skip(1)[k] == s[s.len() - 1]);
        if s[0] == '(' {
            assert(i == 0);
            assert(s.take(0).len() == 0);
        }
    }
}

/// An address with a comment behind it: the comment is the name.
#[verifier::rlimit(40)]
pub proof fn law_commented_entry(address: Seq<char>, gap: Seq<char>, comment: Seq<char>)
    requires
        address.len() > 0,
        is_trimmed(address, CharClass::Whitespace),
        !address.contains('"'),
        !address.contains('('),
        !address.contains('<'),
        is_blank(gap),
        !comment.contains('\\'),
        !comment.contains(')'),
        !comment.contains('<'),
    ensures
        entry_mailbox(address + gap + seq!['('] + comment + seq![')']) == Some(
            MailboxView { display_name: trimmed(comment, CharClass::Whitespace), address },
        ),
{
    let none = Seq::<char>::empty();
    let start = address + gap;
    let enclosed = seq!['('] + comment + seq![')'];
    let text = address + gap + seq!['('] + comment + seq![')'];
    let n = start.len() as int;
    assert(text =~= start + enclosed);
    assert(!CharClass::Whitespace.has(')') && !CharClass::Whitespace.has('"')
        && !CharClass::Whitespace.has('(') && !CharClass::Whitespace.has('<'));
    assert(text[0] == address[0]);
    assert(text.last() == ')');
    assert(trimmed(text, CharClass::Whitespace) == text) by {
        law_blanks_around_entries(none, text, none);
        assert(none + text + none =~= text);
    }
    assert forall|i: int| 0 <= i < start.len() implies start[i] != '"' && start[i] != '('
        && start[i] != '<' by {
        if i < address.len() {
            assert(start[i] == address[i]);
        } else {
            assert(start[i] == gap[i - address.len()]);
        }
    }
    assert forall|i: int| 0 <= i < text.len() implies text[i] != '<' by {
        if i < n {
            assert(text[i] == start[i]);
        } else if i > n && i < text.len() - 1 {
            assert(text[i] == comment[i - n - 1]);
        }
    }
    lemma_no_last_index(text, '<');
    assert(angle_mailbox(text) is None);
    assert(outside(text, '(') == Some(n)) by {
        assert(enclosed[0] == '(');
        assert(outside(enclosed, '(') == Some(0int));
        lemma_outside_behind(start, enclosed, '(');
    }
    assert(text.take(n) =~= start);
    assert(text.skip(n) =~= enclosed);
    assert(trimmed(start, CharClass::Whitespace) == address) by {
        lemma_trimmed_around(none, address, gap, CharClass::Whitespace);
        assert(none + address + gap =~= start);
    }
    assert(enclosed_len(enclosed) == Some(comment.len() as int + 2)) by {
        law_enclosed_texts_are_skipped('(', comment, none, ' ');
        assert(seq!['('] + comment + seq![')'] + none =~= enclosed);
    }
    assert(text.subrange(n + 1, text.len() - 1) =~= comment);
    assert(unescaped(comment) == comment) by {
        law_escapes_are_undone(comment, ' ', none);
    }
    assert(commented_mailbox(text) == Some(
        MailboxView { display_name: trimmed(comment, CharClass::Whitespace), address },
    ));
}

/// Behind a text in which nothing opens, and which does not hold the character, the search finds
/// what it finds in the rest.
proof fn lemma_outside_behind(a: Seq<char>, b: Seq<char>, x: char)
    requires
        !a.contains('"'),
        !a.contains('('),
        !a.contains(x),
    ensures
        outside(a + b, x) == match outside(b, x) {
            Some(i) => Some(i + a.len()),
            None => None,
        },
    decreases a.len(),
{
    let all = a + b;
    if a.len() > 0 {
        assert(a[0] != '"' && a[0] != '(' && a[0] != x);
        let less = a.skip(1);
        assert forall|i: int| 0 <= i < less.len() implies less[i] != '"' && less[i] != '('
            && less[i] != x by {
            assert(less[i] == a[i + 1]);
        }
        lemma_outside_behind(less, b, x);
        assert(all[0] == a[0]);
        assert(token_len(all) == 1);
        assert(all.skip(1) =~= less + b);
    } else {
        assert(all =~= b);
    }
}

/// An address in angle brackets goes before any comment; a comment counts only where there is no
/// such address.
pub proof fn law_forms_of_an_entry(s: Seq<char>)
    requires
        s.len() > 0,
        is_trimmed(s, CharClass::Whitespace),
    ensures
        angle_mailbox(s) is Some ==> entry_mailbox(s) == angle_mailbox(s),
        angle_mailbox(s) is None && commented_mailbox(s) is Some ==> entry_mailbox(s)
            == commented_mailbox(s),
        angle_mailbox(s) is None && commented_mailbox(s) is None ==> entry_mailbox(s) == Some(
            MailboxView { display_name: Seq::empty(), address: s },
        ),
        angle_mailbox(s) is Some <==> exists|i: int, j: int|
            0 <= i < j < s.len() && s[i] == '<' && s[j] == '>' && forall|k: int|
                i < k < s.len() ==> s[k] != '<',
{
    let none = Seq::<char>::empty();
    law_blanks_around_entries(none, s, none);
    assert(none + s + none =~= s);
    law_last_position(s, '<');
    if last_index(s, '<') is Some {
        let i = last_index(s, '<')->0;
        let tail = s.skip(i + 1);
        law_first_position(tail, '>');
        if first_match(tail, seq!['>']) is Some {
            let n = first_match(tail, seq!['>'])->0;
            assert(s[i + 1 + n] == '>');
        }
        if exists|a: int, j: int|
            0 <= a < j < s.len() && s[a] == '<' && s[j] == '>' && forall|k: int|
                a < k < s.len() ==> s[k] != '<' {
            let (a, j) = choose|a: int, j: int|
                0 <= a < j < s.len() && s[a] == '<' && s[j] == '>' && forall|k: int|
                    a < k < s.len() ==> s[k] != '<';
            assert(a == i);
            assert(tail[j - i - 1] == '>');
        }
    }
}

/// The mailboxes of parsed entries, one entry after the other: a single mailbox, or all members of
/// a group.
pub proof fn law_groups_are_flattened(list: Seq<AddressView>)
    ensures
        flattened(list) == list.map_values(
            |a: AddressView|
                match a {
                    AddressView::Single(m) => seq![m],
                    AddressView::Group(g) => g,
                },
        ).flatten(),
    decreases list.len(),
{
    let each = |a: AddressView|
        match a {
            AddressView::Single(m) => seq![m],
            AddressView::Group(g) => g,
        };
    let all = list.map_values(each);
    if list.len() > 0 {
        let init = list.drop_last();
        law_groups_are_flattened(init);
        assert(all.drop_last() =~= init.map_values(each));
        all.drop_last().lemma_flatten_push(all.last());
        assert(all.drop_last().push(all.last()) =~= all);
        assert(members(list.last()) == all.last());
    } else {
        assert(all.flatten() =~= flattened(list));
    }
}

/// A header with a colon has the mailboxes that the strict parser read; where that refused it, each
/// text between two commas that is not blank is an address.
pub proof fn law_headers_with_a_colon(header: Seq<char>, parsed: Option<Seq<AddressView>>)
    requires
        header.contains(':'),
    ensures
        parsed matches Some(list) ==> header_mailboxes(header, parsed) == list.map_values(
            |a: AddressView|
                match a {
                    AddressView::Single(m) => seq![m],
                    AddressView::Group(g) => g,
                },
        ).flatten(),
        parsed is None ==> header_mailboxes(header, parsed) == pieces(header, seq![',']).map_values(
            |p: Seq<char>| trimmed(p, CharClass::Whitespace),
        ).filter(|p: Seq<char>| p.len() > 0).map_values(
            |p: Seq<char>| MailboxView { display_name: Seq::empty(), address: p },
        ),
{
    if parsed is Some {
        law_groups_are_flattened(parsed->0);
    } else {
        lemma_opaque(pieces(header, seq![',']));
    }
}

/// The texts that are not blank, as addresses.
proof fn lemma_opaque(parts: Seq<Seq<char>>)
    ensures
        present(parts.map_values(|part: Seq<char>| opaque_mailbox(part))) == parts.map_values(
            |p: Seq<char>| trimmed(p, CharClass::Whitespace),
        ).filter(|p: Seq<char>| p.len() > 0).map_values(
            |p: Seq<char>| MailboxView { display_name: Seq::empty(), address: p },
        ),
    decreases parts.len(),
{
    reveal(Seq::filter);
    let found = parts.map_values(|part: Seq<char>| opaque_mailbox(part));
    let bare = parts.map_values(|p: Seq<char>| trimmed(p, CharClass::Whitespace));
    let kept = |p: Seq<char>| p.len() > 0;
    let boxed = |p: Seq<char>| MailboxView { display_name: Seq::empty(), address: p };
    if parts.len() > 0 {
        let init = parts.drop_last();
        lemma_opaque(init);
        assert(found.drop_last() =~= init.map_values(|part: Seq<char>| opaque_mailbox(part)));
        assert(bare.drop_last() =~= init.map_values(
            |p: Seq<char>| trimmed(p, CharClass::Whitespace),
        ));
        let before = bare.drop_last().filter(kept);
        assert(found.last() == opaque_mailbox(parts.last()));
        assert(bare.last() == trimmed(parts.last(), CharClass::Whitespace));
        if bare.last().len() > 0 {
            assert(bare.filter(kept).map_values(boxed) =~= before.map_values(boxed).push(
                boxed(bare.last()),
            ));
        }
        assert(present(found) =~= bare.filter(kept).map_values(boxed));
    } else {
        assert(present(found) =~= bare.filter(kept).map_values(boxed));
    }
}

/// A text that stands for one mailbox: an address in angle brackets, with what stands before it for
/// its name; else the first mailbox that the strict parser read; else the text without blanks.
pub proof fn law_single_mailbox(
    before: Seq<char>,
    address: Seq<char>,
    rest: Seq<char>,
    text: Seq<char>,
    parsed: Option<Seq<AddressView>>,
)
    requires
        is_trimmed(address, CharClass::Whitespace),
        !address.contains('<'),
        !address.contains('>'),
        !rest.contains('<'),
        !text.contains('<'),
    ensures
        single_mailbox(before + seq!['<'] + address + seq!['>'] + rest, parsed) == (MailboxView {
            display_name: display_name_of(before),
            address,
        }),
        parsed is Some && parsed->0.len() > 0 ==> match parsed->0[0] {
            AddressView::Single(m) => single_mailbox(text, parsed) == m,
            AddressView::Group(g) => single_mailbox(text, parsed) == if g.len() > 0 {
                g[0]
            } else {
                MailboxView {
                    display_name: Seq::empty(),
                    address: trimmed(text, CharClass::Whitespace),
                }
            },
        },
        parsed is None || parsed->0.len() == 0 ==> single_mailbox(text, parsed) == (MailboxView {
            display_name: Seq::empty(),
            address: trimmed(text, CharClass::Whitespace),
        }),
{
    let none = Seq::<char>::empty();
    law_angle_entry(before, none, address, none, rest);
    assert(none + address + none =~= address);
    lemma_no_last_index(text, '<');
}

/// The characters that a name is quoted for.
pub open spec fn specials() -> Seq<char> {
    seq!['(', ')', '<', '>', '@', ',', ';', ':', '\\', '"', '.', '[', ']']
}

/// A mailbox without a name is written as its address. A name is written before the address, which
/// stands in angle brackets. A name with a special character is written between quotes.
pub proof fn law_written_forms(name: Seq<char>, address: Seq<char>)
    ensures
        name.len() == 0 ==> formatted(name, address) == address,
        name.len() > 0 && (forall|i: int|
            0 <= i < name.len() ==> !specials().contains(#[trigger] name[i])) ==> formatted(
            name,
            address,
        ) == name + seq![' ', '<'] + address + seq!['>'],
        (exists|i: int| 0 <= i < name.len() && specials().contains(#[trigger] name[i]))
            ==> formatted(name, address) == seq!['"'] + escaped(name) + seq!['"', ' ', '<']
            + address + seq!['>'],
{
    reveal_strlit("\"");
    reveal_strlit("\" <");
    reveal_strlit(" <");
    reveal_strlit(">");
    assert("\""@ =~= seq!['"']);
    assert("\" <"@ =~= seq!['"', ' ', '<']);
    assert(" <"@ =~= seq![' ', '<']);
    assert(">"@ =~= seq!['>']);
    let all = specials();
    assert(all.len() == 13);
    assert forall|c: char| #[trigger] is_special(c) == all.contains(c) by {
        if is_special(c) {
            assert(all[0] == c || all[1] == c || all[2] == c || all[3] == c || all[4] == c
                || all[5] == c || all[6] == c || all[7] == c || all[8] == c || all[9] == c
                || all[10] == c || all[11] == c || all[12] == c);
        }
        if all.contains(c) {
            let i = choose|i: int| 0 <= i < all.len() && all[i] == c;
        }
    }
    if exists|i: int| 0 <= i < name.len() && all.contains(#[trigger] name[i]) {
        let i = choose|i: int| 0 <= i < name.len() && all.contains(#[trigger] name[i]);
        assert(is_special(name[i]));
    }
    if forall|i: int| 0 <= i < name.len() ==> !all.contains(#[trigger] name[i]) {
        assert forall|i: int| 0 <= i < name.len() implies !is_special(#[trigger] name[i]) by {
            assert(!all.contains(name[i]));
        }
    }
}

/// Mailboxes are written one after the other, with a comma and a blank between each two, each with
/// the address that stands for its own; none is left out.
pub proof fn law_mailboxes_are_written_in_order(
    boxes: Seq<MailboxView>,
    m: MailboxView,
    aliases: Map<Seq<char>, Seq<char>>,
)
    ensures
        replaced(Seq::empty(), aliases) == Seq::<char>::empty(),
        replaced(boxes.push(m), aliases) == if boxes.len() == 0 {
            formatted(m.display_name, replacement(m.address, aliases))
        } else {
            replaced(boxes, aliases) + seq![',', ' '] + formatted(
                m.display_name,
                replacement(m.address, aliases),
            )
        },
{
    reveal_strlit(", ");
    assert(", "@ =~= seq![',', ' ']);
    let write = |m: MailboxView| formatted(m.display_name, replacement(m.address, aliases));
    let forms = boxes.map_values(write);
    assert(boxes.push(m).map_values(write) =~= forms.push(write(m)));
    law_joined_goes_on(forms, write(m), ", "@);
    assert(Seq::<MailboxView>::empty().map_values(write).len() == 0);
    assert(replaced(Seq::empty(), aliases) =~= Seq::<char>::empty());
}

/// A text that is an address and nothing else to a list: no blanks around it, and none of the
/// characters that separate, open or close anything.
pub open spec fn is_plain_text(s: Seq<char>) -> bool {
    &&& s.len() > 0
    &&& is_trimmed(s, CharClass::Whitespace)
    &&& !s.contains(',')
    &&& !s.contains(':')
    &&& !s.contains('<')
    &&& !s.contains('(')
    &&& !s.contains('"')
}

/// Plain addresses with commas between them, and any blanks around each, are so many mailboxes
/// without names, in order.
pub proof fn law_plain_addresses_are_mailboxes(
    addresses: Seq<Seq<char>>,
    leads: Seq<Seq<char>>,
    trails: Seq<Seq<char>>,
    parsed: Option<Seq<AddressView>>,
)
    requires
        addresses.len() > 0,
        leads.len() == addresses.len(),
        trails.len() == addresses.len(),
        forall|i: int| 0 <= i < addresses.len() ==> is_plain_text(#[trigger] addresses[i]),
        forall|i: int| 0 <= i < leads.len() ==> is_blank(#[trigger] leads[i]),
        forall|i: int| 0 <= i < trails.len() ==> is_blank(#[trigger] trails[i]),
    ensures
        header_mailboxes(
            joined(
                Seq::new(addresses.len(), |i: int| leads[i] + addresses[i] + trails[i]),
                seq![','],
            ),
            parsed,
        ) == addresses.map_values(
            |a: Seq<char>| MailboxView { display_name: Seq::empty(), address: a },
        ),
{
    let parts = Seq::new(addresses.len(), |i: int| leads[i] + addresses[i] + trails[i]);
    let want = addresses.map_values(
        |a: Seq<char>| MailboxView { display_name: Seq::empty(), address: a },
    );
    assert(!CharClass::Whitespace.has(',') && !CharClass::Whitespace.has(':')
        && !CharClass::Whitespace.has('(') && !CharClass::Whitespace.has('"'));
    assert forall|i: int| 0 <= i < parts.len() implies is_closed(#[trigger] parts[i])
        && !parts[i].contains(':') && entry_mailbox(parts[i]) == Some(want[i]) by {
        let a = addresses[i];
        assert(is_plain_text(a) && is_blank(leads[i]) && is_blank(trails[i]));
        assert forall|j: int| 0 <= j < parts[i].len() implies parts[i][j] != ',' && parts[i][j]
            != ':' && parts[i][j] != '(' && parts[i][j] != '"' by {
            if j < leads[i].len() {
                assert(parts[i][j] == leads[i][j]);
            } else if j < leads[i].len() + a.len() {
                assert(parts[i][j] == a[j - leads[i].len()]);
            } else {
                assert(parts[i][j] == trails[i][j - leads[i].len() - a.len()]);
            }
        }
        crate::laws::lists::lemma_nothing_opens(parts[i]);
        law_blanks_around_entries(leads[i], a, trails[i]);
        law_bare_entry(a);
    }
    crate::laws::mail::lemma_joined_holds_no(parts, seq![','], ':');
    law_closed_texts_are_entries(parts);
    let found = parts.map_values(|p: Seq<char>| entry_mailbox(p));
    assert forall|i: int| 0 <= i < found.len() implies #[trigger] found[i] == Some(want[i]) by {
        assert(entry_mailbox(parts[i]) == Some(want[i]));
    }
    crate::laws::mail::lemma_all_present(found, want);
}

/// What the functions give back: mailboxes as the strict parser's or the list's, and a header of
/// the same mailboxes with their addresses replaced.
pub proof fn law_list_functions(
    header: &str,
    aliases: &AliasMap,
    boxes: Vec<Mailbox>,
    new: String,
    addresses: Seq<Seq<char>>,
)
    requires
        call_ensures(parse_addresses, (header,), boxes),
        call_ensures(replace_addresses, (header, aliases), new),
        addresses.len() > 0,
        forall|i: int| 0 <= i < addresses.len() ==> is_plain_text(#[trigger] addresses[i]),
        header@ == joined(addresses, seq![',']),
    ensures
        boxes@.len() == addresses.len(),
        forall|i: int|
            0 <= i < boxes@.len() ==> (#[trigger] boxes@[i]).address@ == addresses[i]
                && boxes@[i].display_name@.len() == 0,
        new@ == joined(
            addresses.map_values(|a: Seq<char>| replacement(a, aliases@)),
            seq![',', ' '],
        ),
{
    reveal_strlit(", ");
    assert(", "@ =~= seq![',', ' ']);
    let none = Seq::new(addresses.len(), |i: int| Seq::<char>::empty());
    law_plain_addresses_are_mailboxes(addresses, none, none, address_list(header@));
    assert(Seq::new(addresses.len(), |i: int| none[i] + addresses[i] + none[i]) =~= addresses) by {
        assert forall|i: int| 0 <= i < addresses.len() implies none[i] + addresses[i] + none[i]
            == addresses[i] by {
            assert(none[i] + addresses[i] + none[i] =~= addresses[i]);
        }
    }
    let found = mailbox_views(boxes@);
    let want = addresses.map_values(
        |a: Seq<char>| MailboxView { display_name: Seq::empty(), address: a },
    );
    assert(found == want);
    assert forall|i: int| 0 <= i < boxes@.len() implies (#[trigger] boxes@[i]).address@
        == addresses[i] && boxes@[i].display_name@.len() == 0 by {
        assert(found[i] == boxes@[i]@);
        assert(want[i].address == addresses[i]);
    }
    assert(want.map_values(
        |m: MailboxView| formatted(m.display_name, replacement(m.address, aliases@)),
    ) =~= addresses.map_values(|a: Seq<char>| replacement(a, aliases@)));
}

/// What the functions for one mailbox give back.
pub proof fn law_single_functions(
    name: &str,
    address: &str,
    written: String,
    read: (String, String),
)
    requires
        call_ensures(format_addr, (name, address), written),
        name@.len() > 0,
        crate::laws::mail::is_plain(MailboxView { display_name: name@, address: address@ }),
        exists|text: &str| text@ == written@ && #[trigger] call_ensures(
            parse_single_addr,
            (text,),
            read,
        ),
    ensures
        read.0@ == name@,
        read.1@ == address@,
{
    crate::laws::mail::law_written_mailbox_reads_back(
        MailboxView { display_name: name@, address: address@ },
        address_list(written@),
    );
}

} // verus!
