//! What reading and writing of headers cannot bring in: a character of the result, such as a line
//! break, comes from what was read.
use crate::chars::{trimmed, trimmed_end, trimmed_start, CharClass};
use crate::codec::lossy_text;
use crate::mail::{
    address_list, angle_mailbox, are_drawn_from, commented_mailbox, display_name_of, entry_mailbox,
    flattened, formatted, header_mailboxes, is_bare_address, is_drawn_from, is_special, members,
    opaque_mailbox, present, replaced, replacement, single_mailbox, AddressView, MailboxView,
};
use crate::quoting::{
    entries, escaped, is_quoted_string, lemma_outside, lemma_token_len, outside, pair_len,
    unescaped,
};
use crate::text::{first_match, last_index, lemma_first_match, pieces};
use vstd::prelude::*;
use vstd::utf8::{
    decode_utf8, decode_utf8_encode_utf8, encode_scalar, encode_utf8, has_width_1_encoding,
    last_continuation_byte, leading_byte_width_2, leading_byte_width_3, leading_byte_width_4,
    second_last_continuation_byte, third_last_continuation_byte, valid_utf8,
};

verus! {

/// The character does not occur in the mailbox.
pub open spec fn lacks(m: MailboxView, x: char) -> bool {
    !m.display_name.contains(x) && !m.address.contains(x)
}

/// The character occurs in none of the reverse aliases.
pub open spec fn aliases_lack(aliases: Map<Seq<char>, Seq<char>>, x: char) -> bool {
    forall|a: Seq<char>| #[trigger] aliases.contains_key(a) ==> !aliases[a].contains(x)
}

/// A part of a text holds nothing that the text does not.
pub proof fn lemma_part_lacks(s: Seq<char>, from: int, to: int, x: char)
    requires
        0 <= from <= to <= s.len(),
        !s.contains(x),
    ensures
        !s.subrange(from, to).contains(x),
{
    let part = s.subrange(from, to);
    assert forall|i: int| 0 <= i < part.len() implies part[i] != x by {
        assert(part[i] == s[from + i]);
    }
}

/// Trimming brings nothing in.
pub proof fn lemma_trimmed_lacks(s: Seq<char>, class: CharClass, x: char)
    requires
        !s.contains(x),
    ensures
        !trimmed_start(s, class).contains(x),
        !trimmed_end(s, class).contains(x),
    decreases s.len(),
{
    if s.len() > 0 {
        if class.has(s[0]) {
            lemma_part_lacks(s, 1, s.len() as int, x);
            assert(s.skip(1) =~= s.subrange(1, s.len() as int));
            lemma_trimmed_lacks(s.skip(1), class, x);
        }
        if class.has(s.last()) {
            lemma_part_lacks(s, 0, s.len() - 1, x);
            assert(s.drop_last() =~= s.subrange(0, s.len() - 1));
            lemma_trimmed_lacks(s.drop_last(), class, x);
        }
    }
}

/// Trimming at both ends brings nothing in.
pub proof fn lemma_trim_lacks(s: Seq<char>, class: CharClass, x: char)
    requires
        !s.contains(x),
    ensures
        !trimmed(s, class).contains(x),
{
    lemma_trimmed_lacks(s, class, x);
    lemma_trimmed_lacks(trimmed_start(s, class), class, x);
}

/// Undoing escapes brings nothing in.
proof fn lemma_unescaped_lacks(s: Seq<char>, x: char)
    requires
        !s.contains(x),
    ensures
        !unescaped(s).contains(x),
    decreases s.len(),
{
    if s.len() > 0 {
        let n = pair_len(s);
        lemma_part_lacks(s, n, s.len() as int, x);
        assert(s.skip(n) =~= s.subrange(n, s.len() as int));
        lemma_unescaped_lacks(s.skip(n), x);
        assert(s[n - 1] != x);
        let u = unescaped(s);
        let tail = unescaped(s.skip(n));
        assert forall|i: int| 0 <= i < u.len() implies u[i] != x by {
            if i > 0 {
                assert(u[i] == tail[i - 1]);
            }
        }
    }
}

/// A display name is drawn from the text before the address.
proof fn lemma_display_name_lacks(text: Seq<char>, x: char)
    requires
        !text.contains(x),
    ensures
        !display_name_of(text).contains(x),
{
    let bare = trimmed(text, CharClass::Whitespace);
    lemma_trim_lacks(text, CharClass::Whitespace, x);
    lemma_trim_lacks(bare, CharClass::Quote, x);
    if is_quoted_string(bare) {
        lemma_token_len(bare);
        lemma_part_lacks(bare, 1, bare.len() - 1, x);
        lemma_unescaped_lacks(bare.subrange(1, bare.len() - 1), x);
    }
}

/// The last position of an element is one in the text.
pub proof fn lemma_last_index(s: Seq<char>, y: char)
    ensures
        last_index(s, y) matches Some(i) ==> 0 <= i < s.len(),
    decreases s.len(),
{
    if s.len() > 0 && s.last() != y {
        lemma_last_index(s.drop_last(), y);
    }
}

/// A mailbox in angle brackets is drawn from the text.
proof fn lemma_angle_lacks(text: Seq<char>, x: char)
    requires
        !text.contains(x),
    ensures
        angle_mailbox(text) matches Some(m) ==> lacks(m, x),
{
    lemma_last_index(text, '<');
    if last_index(text, '<') is Some {
        let start = last_index(text, '<')->0;
        let rest = text.skip(start + 1);
        lemma_first_match(rest, seq!['>']);
        if first_match(rest, seq!['>']) is Some {
            let len = first_match(rest, seq!['>'])->0;
            lemma_part_lacks(text, 0, start, x);
            assert(text.take(start) =~= text.subrange(0, start));
            lemma_display_name_lacks(text.take(start), x);
            lemma_part_lacks(text, start + 1, start + 1 + len, x);
            lemma_trim_lacks(
                text.subrange(start + 1, start + 1 + len),
                CharClass::Whitespace,
                x,
            );
        }
    }
}

/// An address with a comment is drawn from the text.
proof fn lemma_commented_lacks(text: Seq<char>, x: char)
    requires
        !text.contains(x),
    ensures
        commented_mailbox(text) matches Some(m) ==> lacks(m, x),
{
    lemma_outside(text, '(');
    if outside(text, '(') is Some && commented_mailbox(text) is Some {
        let i = outside(text, '(')->0;
        lemma_token_len(text.skip(i));
        lemma_part_lacks(text, 0, i, x);
        assert(text.take(i) =~= text.subrange(0, i));
        lemma_trim_lacks(text.take(i), CharClass::Whitespace, x);
        lemma_part_lacks(text, i + 1, text.len() - 1, x);
        let inner = text.subrange(i + 1, text.len() - 1);
        lemma_unescaped_lacks(inner, x);
        lemma_trim_lacks(unescaped(inner), CharClass::Whitespace, x);
    }
}

/// The mailbox of an entry is drawn from the entry.
pub proof fn lemma_entry_lacks(part: Seq<char>, x: char)
    requires
        !part.contains(x),
    ensures
        entry_mailbox(part) matches Some(m) ==> lacks(m, x),
        opaque_mailbox(part) matches Some(m) ==> lacks(m, x),
{
    let bare = trimmed(part, CharClass::Whitespace);
    lemma_trim_lacks(part, CharClass::Whitespace, x);
    lemma_angle_lacks(bare, x);
    lemma_commented_lacks(bare, x);
}

/// The entries of a list are drawn from it.
pub proof fn lemma_entries_lack(s: Seq<char>, x: char)
    requires
        !s.contains(x),
    ensures
        forall|i: int| 0 <= i < entries(s).len() ==> !(#[trigger] entries(s)[i]).contains(x),
    decreases s.len(),
{
    lemma_outside(s, ',');
    if outside(s, ',') is Some {
        let k = outside(s, ',')->0;
        let rest = s.skip(k + 1);
        lemma_part_lacks(s, k + 1, s.len() as int, x);
        assert(rest =~= s.subrange(k + 1, s.len() as int));
        lemma_part_lacks(s, 0, k, x);
        assert(s.take(k) =~= s.subrange(0, k));
        lemma_entries_lack(rest, x);
        let all = entries(s);
        assert forall|i: int| 0 <= i < all.len() implies !(#[trigger] all[i]).contains(x) by {
            if i > 0 {
                assert(all[i] == entries(rest)[i - 1]);
            }
        }
    }
}

/// The pieces of a list are drawn from it.
proof fn lemma_pieces_lack(s: Seq<char>, sep: Seq<char>, x: char)
    requires
        !s.contains(x),
    ensures
        forall|i: int| 0 <= i < pieces(s, sep).len() ==> !(#[trigger] pieces(s, sep)[i]).contains(x),
    decreases s.len(),
{
    lemma_first_match(s, sep);
    if first_match(s, sep) is Some && sep.len() > 0 {
        let k = first_match(s, sep)->0;
        let n = k + sep.len();
        let rest = s.skip(n);
        lemma_part_lacks(s, n, s.len() as int, x);
        assert(rest =~= s.subrange(n, s.len() as int));
        lemma_part_lacks(s, 0, k, x);
        assert(s.take(k) =~= s.subrange(0, k));
        lemma_pieces_lack(rest, sep, x);
        let all = pieces(s, sep);
        assert forall|i: int| 0 <= i < all.len() implies !(#[trigger] all[i]).contains(x) by {
            if i > 0 {
                assert(all[i] == pieces(rest, sep)[i - 1]);
            }
        }
    }
}

/// What is present among mailboxes is one of them.
proof fn lemma_present_lacks(s: Seq<Option<MailboxView>>, x: char)
    requires
        forall|i: int| 0 <= i < s.len() ==> ((#[trigger] s[i]) matches Some(m) ==> lacks(m, x)),
    ensures
        forall|i: int| 0 <= i < present(s).len() ==> lacks(#[trigger] present(s)[i], x),
    decreases s.len(),
{
    if s.len() > 0 {
        let init = s.drop_last();
        assert forall|i: int| 0 <= i < init.len() implies ((#[trigger] init[i]) matches Some(m)
            ==> lacks(m, x)) by {
            assert(init[i] == s[i]);
        }
        lemma_present_lacks(init, x);
        let last = s[s.len() - 1];
        assert(last matches Some(m) ==> lacks(m, x));
        assert forall|i: int| 0 <= i < present(s).len() implies lacks(
            #[trigger] present(s)[i],
            x,
        ) by {
            if i < present(init).len() {
                assert(present(s)[i] == present(init)[i]);
            }
        }
    }
}

/// What the strict parser read in a text is drawn from the text.
pub proof fn lemma_parsed_lacks(text: Seq<char>, x: char)
    requires
        !text.contains(x),
    ensures
        address_list(text) matches Some(list) ==> forall|i: int|
            0 <= i < flattened(list).len() ==> lacks(#[trigger] flattened(list)[i], x),
{
    if address_list(text) is Some {
        let list = address_list(text)->0;
        assert(are_drawn_from(flattened(list), text)) by {
            if is_bare_address(text) {
                assert(flattened(list.drop_last()) =~= Seq::empty());
                assert(flattened(list) =~= members(list[0]));
            }
        }
        assert forall|i: int| 0 <= i < flattened(list).len() implies lacks(
            #[trigger] flattened(list)[i],
            x,
        ) by {
            assert(is_drawn_from(flattened(list)[i], text));
        }
    }
}

/// The mailboxes of a header are drawn from the header.
pub proof fn lemma_mailboxes_lack(header: Seq<char>, x: char)
    requires
        !header.contains(x),
    ensures
        forall|i: int|
            0 <= i < header_mailboxes(header, address_list(header)).len() ==> lacks(
                #[trigger] header_mailboxes(header, address_list(header))[i],
                x,
            ),
{
    if !header.contains(':') {
        lemma_entries_lack(header, x);
        let found = entries(header).map_values(|part: Seq<char>| entry_mailbox(part));
        assert forall|i: int| 0 <= i < found.len() implies ((#[trigger] found[i]) matches Some(m)
            ==> lacks(m, x)) by {
            lemma_entry_lacks(entries(header)[i], x);
        }
        lemma_present_lacks(found, x);
    } else if address_list(header) is Some {
        lemma_parsed_lacks(header, x);
    } else {
        let parts = pieces(header, seq![',']);
        lemma_pieces_lack(header, seq![','], x);
        let found = parts.map_values(|part: Seq<char>| opaque_mailbox(part));
        assert forall|i: int| 0 <= i < found.len() implies ((#[trigger] found[i]) matches Some(m)
            ==> lacks(m, x)) by {
            lemma_entry_lacks(parts[i], x);
        }
        lemma_present_lacks(found, x);
    }
}

/// The first mailbox of the first parsed entry is one of the parsed mailboxes.
pub proof fn lemma_first_flattened(list: Seq<AddressView>)
    requires
        list.len() > 0,
    ensures
        members(list[0]).is_prefix_of(flattened(list)),
    decreases list.len(),
{
    if list.len() > 1 {
        let init = list.drop_last();
        lemma_first_flattened(init);
        assert(init[0] == list[0]);
        let first = members(list[0]);
        assert forall|i: int| 0 <= i < first.len() implies first[i] == flattened(list)[i] by {
            assert(flattened(list)[i] == flattened(init)[i]);
        }
    } else {
        assert(flattened(list.drop_last()) =~= Seq::empty());
        assert(flattened(list) =~= members(list[0]));
    }
}

/// The mailbox that a text stands for is drawn from the text.
pub proof fn lemma_single_lacks(text: Seq<char>, x: char)
    requires
        !text.contains(x),
    ensures
        lacks(single_mailbox(text, address_list(text)), x),
{
    lemma_angle_lacks(text, x);
    lemma_trim_lacks(text, CharClass::Whitespace, x);
    lemma_parsed_lacks(text, x);
    if address_list(text) is Some {
        let list = address_list(text)->0;
        if list.len() > 0 && members(list[0]).len() > 0 {
            lemma_first_flattened(list);
            assert(members(list[0])[0] == flattened(list)[0]);
            assert(lacks(flattened(list)[0], x));
        }
    }
}

/// Writing a mailbox brings nothing in but quotes, backslashes, blanks and angle brackets.
pub proof fn lemma_written_lacks(name: Seq<char>, addr: Seq<char>, x: char)
    requires
        !name.contains(x),
        !addr.contains(x),
        x != '"' && x != '\\' && x != ' ' && x != '<' && x != '>',
    ensures
        !formatted(name, addr).contains(x),
{
    reveal_strlit("\"");
    reveal_strlit("\" <");
    reveal_strlit(" <");
    reveal_strlit(">");
    let e = escaped(name);
    crate::laws::mail::lemma_escaped_holds_no(name, x);
    let form = formatted(name, addr);
    assert forall|i: int| 0 <= i < form.len() implies form[i] != x by {
        if name.len() == 0 {
            assert(form[i] == addr[i]);
        } else if exists|k: int| 0 <= k < name.len() && is_special(#[trigger] name[k]) {
            let n = e.len() as int;
            if 0 < i <= n {
                assert(form[i] == e[i - 1]);
            } else if n + 4 <= i < n + 4 + addr.len() {
                assert(form[i] == addr[i - n - 4]);
            }
        } else {
            let n = name.len() as int;
            if i < n {
                assert(form[i] == name[i]);
            } else if n + 2 <= i < n + 2 + addr.len() {
                assert(form[i] == addr[i - n - 2]);
            }
        }
    }
}

/// A header that is written for the mailboxes of a header brings in nothing but what reverse
/// aliases hold and what writing needs.
pub proof fn lemma_replaced_lacks(
    header: Seq<char>,
    aliases: Map<Seq<char>, Seq<char>>,
    x: char,
)
    requires
        !header.contains(x),
        aliases_lack(aliases, x),
        x != '"' && x != '\\' && x != ' ' && x != '<' && x != '>' && x != ',',
    ensures
        !replaced(header_mailboxes(header, address_list(header)), aliases).contains(x),
{
    reveal_strlit(", ");
    let boxes = header_mailboxes(header, address_list(header));
    let forms = boxes.map_values(
        |m: MailboxView| formatted(m.display_name, replacement(m.address, aliases)),
    );
    lemma_mailboxes_lack(header, x);
    assert forall|i: int| 0 <= i < forms.len() implies !(#[trigger] forms[i]).contains(x) by {
        let m = boxes[i];
        assert(lacks(boxes[i], x));
        if aliases.contains_key(m.address) {
            lemma_single_lacks(aliases[m.address], x);
        }
        lemma_written_lacks(m.display_name, replacement(m.address, aliases), x);
    }
    assert(!", "@.contains(x));
    crate::laws::mail::lemma_joined_holds_no(forms, ", "@, x);
}

/// The UTF-8 encoding of a character holds a byte of ASCII only where it is the character.
proof fn lemma_scalar_lacks(v: u32, b: u8)
    requires
        b < 0x80,
    ensures
        encode_scalar(v).contains(b) <==> v == b,
{
    let e = encode_scalar(v);
    if has_width_1_encoding(v) {
        assert((v & 0x7f) as u8 == v as u8) by (bit_vector)
            requires
                v <= 0x7f,
        ;
        assert(v as u8 == v);
        assert(e[0] == v as u8);
        assert(e =~= seq![v as u8]);
    } else {
        assert(v >= 0x80);
        assert(leading_byte_width_2(v) >= 0x80 && leading_byte_width_3(v) >= 0x80
            && leading_byte_width_4(v) >= 0x80 && last_continuation_byte(v) >= 0x80
            && second_last_continuation_byte(v) >= 0x80 && third_last_continuation_byte(v) >= 0x80)
            by {
            assert((0xC0u8 | ((v >> 6) & 0x1F) as u8) >= 0x80) by (bit_vector);
            assert((0xE0u8 | ((v >> 12) & 0x0F) as u8) >= 0x80) by (bit_vector);
            assert((0xF0u8 | ((v >> 18) & 0x7) as u8) >= 0x80) by (bit_vector);
            assert((0x80u8 | (v & 0x3F) as u8) >= 0x80) by (bit_vector);
            assert((0x80u8 | ((v >> 6) & 0x3F) as u8) >= 0x80) by (bit_vector);
            assert((0x80u8 | ((v >> 12) & 0x3F) as u8) >= 0x80) by (bit_vector);
        }
        assert forall|i: int| 0 <= i < e.len() implies e[i] >= 0x80 by {}
        if e.contains(b) {
            let i = choose|i: int| 0 <= i < e.len() && e[i] == b;
            assert(e[i] >= 0x80);
        }
    }
}

/// The UTF-8 encoding of a text holds a byte of ASCII if and only if the text holds the character.
pub proof fn lemma_encoded_lacks(s: Seq<char>, x: char, b: u8)
    requires
        b < 0x80,
        x as u32 == b,
    ensures
        encode_utf8(s).contains(b) <==> s.contains(x),
    decreases s.len(),
{
    if s.len() > 0 {
        let first = encode_scalar(s[0] as u32);
        let rest = s.drop_first();
        let tail = encode_utf8(rest);
        let all = encode_utf8(s);
        vstd::utf8::char_is_scalar(s[0]);
        vstd::utf8::char_is_scalar(x);
        vstd::utf8::char_u32_cast(s[0], s[0] as u32);
        vstd::utf8::char_u32_cast(x, x as u32);
        lemma_scalar_lacks(s[0] as u32, b);
        lemma_encoded_lacks(rest, x, b);
        assert(all == first + tail);
        if all.contains(b) {
            let i = choose|i: int| 0 <= i < all.len() && all[i] == b;
            if i < first.len() {
                assert(first[i] == b);
                assert(s[0] == x);
            } else {
                assert(tail[i - first.len()] == b);
                let k = choose|k: int| 0 <= k < rest.len() && rest[k] == x;
                assert(s[k + 1] == x);
            }
        }
        if s.contains(x) {
            let k = choose|k: int| 0 <= k < s.len() && s[k] == x;
            if k == 0 {
                let i = choose|i: int| 0 <= i < first.len() && first[i] == b;
                assert(all[i] == b);
            } else {
                assert(rest[k - 1] == x);
                let i = choose|i: int| 0 <= i < tail.len() && tail[i] == b;
                assert(all[first.len() + i] == b);
            }
        }
    }
}

/// The text of bytes has no line break that the bytes have not.
pub proof fn lemma_lossy_lacks(bytes: Seq<u8>, x: char, b: u8)
    requires
        (x == '\n' && b == 10) || (x == '\r' && b == 13),
        !bytes.contains(b),
    ensures
        !lossy_text(bytes).contains(x),
{
    if valid_utf8(bytes) {
        lemma_encoded_lacks(decode_utf8(bytes), x, b);
        decode_utf8_encode_utf8(bytes);
    }
}

} // verus!
