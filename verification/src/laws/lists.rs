//! Laws of lists of mailboxes: a header whose addresses are replaced is the same list to whoever
//! reads it, but for the addresses.
use crate::chars::{lemma_nothing_to_trim, trimmed, trimmed_end, trimmed_start, CharClass};
use crate::laws::breaks::{
    lacks, lemma_entries_lack, lemma_entry_lacks, lemma_last_index, lemma_part_lacks,
    lemma_trim_lacks,
};
use crate::laws::mail::{
    are_apart, is_closed, is_closed_before, is_plain, is_trimmed, keeps_name,
    law_replaced_header_reads_back, lemma_closed_before, lemma_no_last_index, shows_address,
    with_replacement, with_replacements, written,
};
use crate::mail::{
    angle_mailbox, commented_mailbox, display_name_of, entry_mailbox, header_mailboxes,
    listed_mailboxes, present, replaced, replacement, AddressView, MailboxView,
};
use crate::quoting::{entries, lemma_outside, outside, token_len, unescaped};
use crate::text::{first_match, last_index, lemma_first_match, matches_at};
use vstd::prelude::*;

verus! {

/// Trimming leaves nothing to trim at the end.
proof fn lemma_end_is_trimmed(s: Seq<char>, class: CharClass)
    ensures
        trimmed_end(s, class).len() > 0 ==> !class.has(trimmed_end(s, class).last())
            && trimmed_end(s, class)[0] == s[0],
    decreases s.len(),
{
    if s.len() > 0 && class.has(s.last()) {
        lemma_end_is_trimmed(s.drop_last(), class);
    }
}

/// Trimming leaves nothing to trim at the start.
proof fn lemma_start_is_trimmed(s: Seq<char>, class: CharClass)
    ensures
        trimmed_start(s, class).len() > 0 ==> !class.has(trimmed_start(s, class)[0]),
    decreases s.len(),
{
    if s.len() > 0 && class.has(s[0]) {
        lemma_start_is_trimmed(s.skip(1), class);
    }
}

/// A text that was trimmed is trimmed.
proof fn lemma_is_trimmed(s: Seq<char>, class: CharClass)
    ensures
        is_trimmed(trimmed(s, class), class),
{
    lemma_start_is_trimmed(s, class);
    lemma_end_is_trimmed(trimmed_start(s, class), class);
}

/// Nothing after its last position is the element.
proof fn lemma_none_after_last_index(s: Seq<char>, x: char)
    ensures
        last_index(s, x) matches Some(i) ==> forall|j: int| i < j < s.len() ==> s[j] != x,
    decreases s.len(),
{
    if s.len() > 0 && s.last() != x {
        let init = s.drop_last();
        lemma_none_after_last_index(init, x);
        if last_index(s, x) is Some {
            let i = last_index(s, x)->0;
            lemma_last_index(init, x);
            assert forall|j: int| i < j < s.len() implies s[j] != x by {
                if j < init.len() {
                    assert(init[j] == s[j]);
                }
            }
        }
    }
}

/// A text without parentheses holds no comment.
proof fn lemma_no_comment(s: Seq<char>)
    requires
        !s.contains('('),
    ensures
        commented_mailbox(s) is None,
{
    lemma_outside(s, '(');
}

/// A text without angle brackets holds no address in them.
proof fn lemma_no_angle(s: Seq<char>)
    requires
        !s.contains('<'),
    ensures
        angle_mailbox(s) is None,
{
    lemma_no_last_index(s, '<');
}

/// A text in which nothing opens and nothing separates is closed.
pub proof fn lemma_nothing_opens(s: Seq<char>)
    requires
        !s.contains('"'),
        !s.contains('('),
        !s.contains(','),
    ensures
        is_closed(s),
    decreases s.len(),
{
    if s.len() > 0 {
        assert(s[0] != '"' && s[0] != '(' && s[0] != ',');
        assert(token_len(s) == 1);
        assert(s.skip(1) =~= s.subrange(1, s.len() as int));
        lemma_part_lacks(s, 1, s.len() as int, '"');
        lemma_part_lacks(s, 1, s.len() as int, '(');
        lemma_part_lacks(s, 1, s.len() as int, ',');
        lemma_nothing_opens(s.skip(1));
    }
}

/// The address in angle brackets is trimmed and holds no angle brackets.
proof fn lemma_angle_address(text: Seq<char>)
    ensures
        angle_mailbox(text) matches Some(m) ==> is_trimmed(m.address, CharClass::Whitespace)
            && !m.address.contains('<') && !m.address.contains('>'),
{
    lemma_last_index(text, '<');
    lemma_none_after_last_index(text, '<');
    if last_index(text, '<') is Some {
        let start = last_index(text, '<')->0;
        let rest = text.skip(start + 1);
        lemma_first_match(rest, seq!['>']);
        if first_match(rest, seq!['>']) is Some {
            let len = first_match(rest, seq!['>'])->0;
            let inner = text.subrange(start + 1, start + 1 + len);
            assert forall|j: int| 0 <= j < inner.len() implies inner[j] != '<' && inner[j]
                != '>' by {
                assert(inner[j] == text[start + 1 + j]);
                if inner[j] == '>' {
                    assert(rest.subrange(j, j + 1) =~= seq!['>']);
                    assert(matches_at(rest, seq!['>'], j));
                }
            }
            lemma_is_trimmed(inner, CharClass::Whitespace);
            lemma_trim_lacks(inner, CharClass::Whitespace, '<');
            lemma_trim_lacks(inner, CharClass::Whitespace, '>');
        }
    }
}

/// A display name before an address is trimmed where no quotes stand in it.
proof fn lemma_name_is_trimmed(text: Seq<char>)
    requires
        !text.contains('"'),
    ensures
        is_trimmed(display_name_of(text), CharClass::Whitespace),
{
    let bare = trimmed(text, CharClass::Whitespace);
    lemma_is_trimmed(text, CharClass::Whitespace);
    lemma_trim_lacks(text, CharClass::Whitespace, '"');
    assert forall|i: int| 0 <= i < bare.len() implies !CharClass::Quote.has(#[trigger] bare[i]) by {
        assert(bare.contains(bare[i]));
    }
    lemma_nothing_to_trim(bare, CharClass::Quote);
}

/// What is known of the mailbox of an entry. Its address is trimmed. Its name is trimmed where the
/// entry holds no quotes. Its address is shown where the entry holds no comments either, unless
/// neither is there.
proof fn lemma_entry_is_plain(part: Seq<char>)
    ensures
        entry_mailbox(part) matches Some(m) ==> is_trimmed(m.address, CharClass::Whitespace),
        !part.contains('"') ==> (entry_mailbox(part) matches Some(m) ==> keeps_name(
            m.display_name,
        )),
        !part.contains('"') && !part.contains('(') ==> (entry_mailbox(part) matches Some(m) ==> (
        m.display_name.len() + m.address.len() > 0 ==> shows_address(m))),
{
    let bare = trimmed(part, CharClass::Whitespace);
    lemma_is_trimmed(part, CharClass::Whitespace);
    lemma_angle_address(bare);
    if bare.len() > 0 && angle_mailbox(bare) is None && outside(bare, '(') is Some {
        let i = outside(bare, '(')->0;
        lemma_is_trimmed(bare.take(i), CharClass::Whitespace);
        lemma_is_trimmed(unescaped(bare.subrange(i + 1, bare.len() - 1)), CharClass::Whitespace);
    }
    if !part.contains('"') {
        lemma_trim_lacks(part, CharClass::Whitespace, '"');
        if bare.len() > 0 && angle_mailbox(bare) is Some {
            let start = last_index(bare, '<')->0;
            lemma_last_index(bare, '<');
            lemma_part_lacks(bare, 0, start, '"');
            assert(bare.take(start) =~= bare.subrange(0, start));
            lemma_name_is_trimmed(bare.take(start));
        }
        if !part.contains('(') {
            lemma_trim_lacks(part, CharClass::Whitespace, '(');
            lemma_no_comment(bare);
            lemma_entry_lacks(part, '(');
            if bare.len() > 0 && angle_mailbox(bare) is Some {
                let m = angle_mailbox(bare)->0;
                lemma_no_angle(m.address);
                lemma_no_comment(m.address);
            }
        }
    }
}

/// A mailbox that is present is that of some entry.
proof fn lemma_present_entry(found: Seq<Option<MailboxView>>, i: int) -> (k: int)
    requires
        0 <= i < present(found).len(),
    ensures
        0 <= k < found.len(),
        found[k] == Some(present(found)[i]),
    decreases found.len(),
{
    let init = found.drop_last();
    if i < present(init).len() {
        lemma_present_entry(init, i)
    } else {
        found.len() - 1
    }
}

/// A mailbox of a list is that of some entry of it.
proof fn lemma_listed_entry(header: Seq<char>, i: int) -> (k: int)
    requires
        0 <= i < listed_mailboxes(header).len(),
    ensures
        0 <= k < entries(header).len(),
        entry_mailbox(entries(header)[k]) == Some(listed_mailboxes(header)[i]),
{
    lemma_present_entry(
        entries(header).map_values(|part: Seq<char>| entry_mailbox(part)),
        i,
    )
}

/// The addresses that reverse aliases bring in have no blanks around them and hold no colon.
pub open spec fn replacements_are_trimmed(
    boxes: Seq<MailboxView>,
    aliases: Map<Seq<char>, Seq<char>>,
) -> bool {
    forall|i: int|
        0 <= i < boxes.len() && aliases.contains_key((#[trigger] boxes[i]).address) ==> is_trimmed(
            replacement(boxes[i].address, aliases),
            CharClass::Whitespace,
        ) && !replacement(boxes[i].address, aliases).contains(':')
}

/// Replacing keeps a list: read again, a header without a colon has the mailboxes that it had, in
/// the same order and with the same names, each with the address that stands for its own. The
/// written form must show the addresses, keep the mailboxes apart and, where the header holds
/// quotes, keep the names.
pub proof fn law_replaced_list_reads_back(
    header: Seq<char>,
    aliases: Map<Seq<char>, Seq<char>>,
    before: Option<Seq<AddressView>>,
    after: Option<Seq<AddressView>>,
)
    requires
        !header.contains(':'),
        replacements_are_trimmed(header_mailboxes(header, before), aliases),
        header.contains('"') ==> forall|i: int|
            0 <= i < header_mailboxes(header, before).len() ==> keeps_name(
                (#[trigger] header_mailboxes(header, before)[i]).display_name,
            ),
        forall|i: int|
            0 <= i < header_mailboxes(header, before).len() ==> shows_address(
                with_replacement(#[trigger] header_mailboxes(header, before)[i], aliases),
            ),
        are_apart(with_replacements(header_mailboxes(header, before), aliases)),
    ensures
        header_mailboxes(replaced(header_mailboxes(header, before), aliases), after)
            == with_replacements(header_mailboxes(header, before), aliases),
{
    let boxes = header_mailboxes(header, before);
    let news = with_replacements(boxes, aliases);
    lemma_entries_lack(header, ':');
    if !header.contains('"') {
        lemma_entries_lack(header, '"');
    }
    assert forall|i: int| 0 <= i < news.len() implies is_plain(#[trigger] news[i]) by {
        let k = lemma_listed_entry(header, i);
        let part = entries(header)[k];
        lemma_entry_lacks(part, ':');
        lemma_entry_is_plain(part);
        assert(lacks(boxes[i], ':'));
        assert(news[i] == with_replacement(boxes[i], aliases));
    }
    law_replaced_header_reads_back(boxes, aliases, after);
}

/// A comma outside is found where nothing opens.
proof fn lemma_comma_is_outside(s: Seq<char>)
    requires
        !s.contains('"'),
        !s.contains('('),
        outside(s, ',') is None,
    ensures
        !s.contains(','),
    decreases s.len(),
{
    if s.len() > 0 {
        assert(s[0] != '"' && s[0] != '(');
        assert(token_len(s) == 1);
        assert(s.skip(1) =~= s.subrange(1, s.len() as int));
        lemma_part_lacks(s, 1, s.len() as int, '"');
        lemma_part_lacks(s, 1, s.len() as int, '(');
        lemma_comma_is_outside(s.skip(1));
        assert forall|i: int| 0 <= i < s.len() implies s[i] != ',' by {
            if i > 0 {
                assert(s.skip(1)[i - 1] == s[i]);
            }
        }
    }
}

/// What stands before the first comma outside holds none, where nothing opens.
proof fn lemma_no_comma_before(s: Seq<char>)
    requires
        !s.contains('"'),
        !s.contains('('),
    ensures
        outside(s, ',') matches Some(k) ==> forall|i: int| 0 <= i < k ==> s[i] != ',',
    decreases s.len(),
{
    if s.len() > 0 && s[0] != ',' {
        assert(s[0] != '"' && s[0] != '(');
        assert(token_len(s) == 1);
        let rest = s.skip(1);
        assert(rest =~= s.subrange(1, s.len() as int));
        lemma_part_lacks(s, 1, s.len() as int, '"');
        lemma_part_lacks(s, 1, s.len() as int, '(');
        lemma_no_comma_before(rest);
        lemma_outside(s, ',');
        if outside(s, ',') is Some {
            let k = outside(s, ',')->0;
            assert forall|i: int| 0 <= i < k implies s[i] != ',' by {
                if i > 0 {
                    assert(rest[i - 1] == s[i]);
                }
            }
        }
    }
}

/// The entries of a list in which nothing opens hold no comma.
proof fn lemma_entries_hold_no_comma(s: Seq<char>)
    requires
        !s.contains('"'),
        !s.contains('('),
    ensures
        forall|i: int| 0 <= i < entries(s).len() ==> !(#[trigger] entries(s)[i]).contains(','),
    decreases s.len(),
{
    lemma_outside(s, ',');
    if outside(s, ',') is Some {
        let k = outside(s, ',')->0;
        let rest = s.skip(k + 1);
        assert(rest =~= s.subrange(k + 1, s.len() as int));
        lemma_part_lacks(s, k + 1, s.len() as int, '"');
        lemma_part_lacks(s, k + 1, s.len() as int, '(');
        lemma_no_comma_before(s);
        lemma_entries_hold_no_comma(rest);
        let all = entries(s);
        assert forall|i: int| 0 <= i < all.len() implies !(#[trigger] all[i]).contains(',') by {
            if i > 0 {
                assert(all[i] == entries(rest)[i - 1]);
            }
        }
    } else {
        lemma_comma_is_outside(s);
    }
}

/// The text can stand as an address in a list: it is trimmed and holds none of the characters that
/// separate, open or close anything.
pub open spec fn is_simple_address(address: Seq<char>) -> bool {
    &&& is_trimmed(address, CharClass::Whitespace)
    &&& !address.contains(',')
    &&& !address.contains(':')
    &&& !address.contains('<')
    &&& !address.contains('>')
    &&& !address.contains('(')
    &&& !address.contains('"')
}

/// Replacing keeps a list without colons, quotes and parentheses, whatever else it holds, where
/// the addresses put in are simple and no mailbox is left without both a name and an address.
pub proof fn law_simple_list_reads_back(
    header: Seq<char>,
    aliases: Map<Seq<char>, Seq<char>>,
    before: Option<Seq<AddressView>>,
    after: Option<Seq<AddressView>>,
)
    requires
        !header.contains(':'),
        !header.contains('"'),
        !header.contains('('),
        forall|i: int|
            0 <= i < header_mailboxes(header, before).len() && aliases.contains_key(
                (#[trigger] header_mailboxes(header, before)[i]).address,
            ) ==> is_simple_address(
                replacement(header_mailboxes(header, before)[i].address, aliases),
            ),
        forall|i: int|
            0 <= i < header_mailboxes(header, before).len() ==> (
            #[trigger] header_mailboxes(header, before)[i]).display_name.len() + replacement(
                header_mailboxes(header, before)[i].address,
                aliases,
            ).len() > 0,
    ensures
        header_mailboxes(replaced(header_mailboxes(header, before), aliases), after)
            == with_replacements(header_mailboxes(header, before), aliases),
{
    let boxes = header_mailboxes(header, before);
    let news = with_replacements(boxes, aliases);
    lemma_entries_lack(header, '"');
    lemma_entries_lack(header, '(');
    lemma_entries_hold_no_comma(header);
    assert forall|i: int| 0 <= i < boxes.len() implies shows_address(
        with_replacement(#[trigger] boxes[i], aliases),
    ) && is_closed(replacement(boxes[i].address, aliases)) by {
        let k = lemma_listed_entry(header, i);
        let part = entries(header)[k];
        let addr = replacement(boxes[i].address, aliases);
        lemma_entry_lacks(part, '"');
        lemma_entry_lacks(part, '(');
        lemma_entry_lacks(part, ',');
        lemma_entry_is_plain(part);
        assert(lacks(boxes[i], '"') && lacks(boxes[i], '(') && lacks(boxes[i], ','));
        lemma_nothing_opens(addr);
        if aliases.contains_key(boxes[i].address) {
            lemma_no_angle(addr);
            lemma_no_comment(addr);
        }
    }
    assert forall|i: int| 0 <= i < news.len() implies is_closed_before(
        (#[trigger] news[i]).address,
        written(news.skip(i + 1)),
    ) by {
        assert(news[i] == with_replacement(boxes[i], aliases));
        assert(is_closed(replacement(boxes[i].address, aliases)));
        lemma_closed_before(news[i].address, written(news.skip(i + 1)));
    }
    law_replaced_list_reads_back(header, aliases, before, after);
}

} // verus!
