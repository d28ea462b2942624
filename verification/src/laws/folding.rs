//! Laws of header lines: their ends, the names and values of fields, and what fields become, over
//! the bytes and texts themselves.
use crate::chars::{trimmed, trimmed_start, CharClass};
use crate::codec::lossy_text;
use crate::laws::basics::{law_first_position, law_joined_goes_on};
use crate::laws::breaks::lemma_encoded_lacks;
use crate::laws::mail::{is_trimmed, lemma_trimmed_around};
use crate::laws::message::{field_mailboxes, lemma_last_byte, lemma_plain_field_value};
use crate::mail::{
    address_list, formatted, header_mailboxes, optional_views, replaced, ParsedAddress,
};
use crate::map::AliasMap;
use crate::message::{
    colon, content, crlf, field_name, field_value, is_bcc, is_empty_line, is_field, is_from,
    is_indented, is_loose, is_to_or_cc, lemma_colon, lf, line_end, name_of, new_line, relay_message,
    rewrite_field, rewrite_message, rewritten, rewritten_section, sender_value_of, value_of,
    FieldLines,
};
use crate::text::{joined, views};
use vstd::prelude::*;
use vstd::utf8::{encode_utf8, encode_utf8_decode_utf8, encode_utf8_valid_utf8};

verus! {

/// A line is its content and its end. The end is CRLF, LF or nothing; it is there if the line ends
/// with LF, and takes the CR along that stands before it.
pub proof fn law_line_ends(line: Seq<u8>)
    ensures
        content(line) + line_end(line) == line,
        line_end(line) == seq![13u8, 10u8] || line_end(line) == seq![10u8] || line_end(line)
            == Seq::<u8>::empty(),
        line_end(line).len() > 0 <==> line.len() > 0 && line.last() == 10,
        line_end(line).len() == 2 <==> line.len() > 1 && line.last() == 10 && line[line.len() - 2]
            == 13,
        is_empty_line(line) <==> line == seq![10u8] || line == seq![13u8, 10u8],
        is_indented(line) <==> line.len() > 0 && (line[0] == 32 || line[0] == 9),
        is_loose(line) <==> !line.contains(58) && !(line.len() > 0 && (line[0] == 32 || line[0]
            == 9)),
{
    assert(content(line) + line_end(line) =~= line);
}

/// The name of a field is what stands before the first colon of its first line.
pub proof fn law_field_name(field: Seq<Seq<u8>>)
    requires
        field.len() > 0,
        field[0].contains(58),
    ensures
        !field_name(field).contains(58),
        (field_name(field) + seq![58u8]).is_prefix_of(field[0]),
{
    law_first_position(field[0], 58u8);
    let n = colon(field[0]);
    assert(field_name(field) =~= field[0].take(n));
    assert forall|i: int| 0 <= i < n implies field_name(field)[i] != 58 by {
        assert(field_name(field)[i] == field[0][i]);
    }
}

/// The names of the fields that are rewritten, in any letter case.
pub proof fn law_names(name: Seq<u8>)
    ensures
        is_bcc(name) <==> name.len() == 3 && (name[0] == 66 || name[0] == 98) && (name[1] == 67
            || name[1] == 99) && (name[2] == 67 || name[2] == 99),
        is_to_or_cc(name) <==> name.len() == 2 && ((name[0] == 84 || name[0] == 116) && (name[1]
            == 79 || name[1] == 111) || (name[0] == 67 || name[0] == 99) && (name[1] == 67
            || name[1] == 99)),
        is_from(name) <==> name.len() == 4 && (name[0] == 70 || name[0] == 102) && (name[1] == 82
            || name[1] == 114) && (name[2] == 79 || name[2] == 111) && (name[3] == 77 || name[3]
            == 109),
{
    let bcc = seq![98u8, 99u8, 99u8];
    let to = seq![116u8, 111u8];
    let cc = seq![99u8, 99u8];
    let from = seq![102u8, 114u8, 111u8, 109u8];
    assert(bcc.len() == 3 && to.len() == 2 && cc.len() == 2 && from.len() == 4);
    if is_bcc(name) {
        assert(crate::message::lower_byte(name[0]) == bcc[0]);
        assert(crate::message::lower_byte(name[1]) == bcc[1]);
        assert(crate::message::lower_byte(name[2]) == bcc[2]);
    }
    if crate::message::is_named(name, to) {
        assert(crate::message::lower_byte(name[0]) == to[0]);
        assert(crate::message::lower_byte(name[1]) == to[1]);
    }
    if crate::message::is_named(name, cc) {
        assert(crate::message::lower_byte(name[0]) == cc[0]);
        assert(crate::message::lower_byte(name[1]) == cc[1]);
    }
    if is_from(name) {
        assert(crate::message::lower_byte(name[0]) == from[0]);
        assert(crate::message::lower_byte(name[1]) == from[1]);
        assert(crate::message::lower_byte(name[2]) == from[2]);
        assert(crate::message::lower_byte(name[3]) == from[3]);
    }
}

/// The text of a line that continues a field.
pub open spec fn continuation(line: Seq<u8>) -> Seq<char> {
    trimmed(lossy_text(content(line)), CharClass::Whitespace)
}

/// The value of a field, however many lines it has: the text behind the first colon of its first
/// line and that of every line that continues it, each trimmed, with one space between each two.
pub proof fn law_value_has_every_line(field: Seq<Seq<u8>>)
    requires
        field.len() > 0,
    ensures
        field_value(field) == joined(
            seq![
                trimmed_start(
                    lossy_text(content(field[0]).skip(colon(field[0]) + 1)),
                    CharClass::Whitespace,
                ),
            ] + field.skip(1).map_values(|line: Seq<u8>| continuation(line)),
            seq![' '],
        ),
    decreases field.len(),
{
    let start = trimmed_start(
        lossy_text(content(field[0]).skip(colon(field[0]) + 1)),
        CharClass::Whitespace,
    );
    let more = field.skip(1).map_values(|line: Seq<u8>| continuation(line));
    let parts = seq![start] + more;
    if field.len() == 1 {
        assert(more.len() == 0);
        assert(parts =~= seq![start]);
        assert(joined(parts, seq![' ']) == start);
    } else {
        let init = field.drop_last();
        law_value_has_every_line(init);
        let before = seq![start] + init.skip(1).map_values(|line: Seq<u8>| continuation(line));
        assert(init[0] == field[0]);
        assert(parts =~= before.push(continuation(field.last())));
        law_joined_goes_on(before, continuation(field.last()), seq![' ']);
    }
}

/// What `value_of` and `name_of` give back.
pub proof fn law_field_functions(field: &FieldLines, value: String, name: Vec<u8>)
    requires
        is_field(views(field@)),
        call_ensures(value_of, (field,), value),
        call_ensures(name_of, (field,), name),
    ensures
        !name@.contains(58),
        (name@ + seq![58u8]).is_prefix_of(field@[0]@),
        value@ == joined(
            seq![
                trimmed_start(
                    lossy_text(content(field@[0]@).skip(name@.len() as int + 1)),
                    CharClass::Whitespace,
                ),
            ] + field@.skip(1).map_values(|line: Vec<u8>| continuation(line@)),
            seq![' '],
        ),
{
    let lines = views(field@);
    assert(lines[0] == field@[0]@);
    law_value_has_every_line(lines);
    law_field_name(lines);
    lemma_colon(lines[0]);
    assert(name@.len() == colon(lines[0]));
    assert(lines.skip(1).map_values(|line: Seq<u8>| continuation(line)) =~= field@.skip(
        1,
    ).map_values(|line: Vec<u8>| continuation(line@)));
}

/// A field over so many lines as there are texts: the first behind the name, each other behind a
/// blank.
pub open spec fn folded(name: Seq<u8>, texts: Seq<Seq<char>>, end: Seq<u8>) -> Seq<Seq<u8>> {
    seq![name + seq![58u8, 32u8] + encode_utf8(texts[0]) + end] + texts.skip(1).map_values(
        |t: Seq<char>| seq![32u8] + encode_utf8(t) + end,
    )
}

/// The text of a line that continues a folded field.
proof fn lemma_continuation(t: Seq<char>, end: Seq<u8>)
    requires
        end == seq![13u8, 10u8] || end == seq![10u8],
        is_trimmed(t, CharClass::Whitespace),
        t.len() > 0,
        !t.contains('\n'),
    ensures
        continuation(seq![32u8] + encode_utf8(t) + end) == t,
{
    let bytes = encode_utf8(t);
    let line = seq![32u8] + bytes + end;
    lemma_encoded_lacks(t, '\n', 10);
    lemma_last_byte(t);
    assert(CharClass::Whitespace.has('\r') && CharClass::Whitespace.has(' '));
    let k = 1 + bytes.len();
    if bytes.len() > 0 {
        assert(line[k - 1] == bytes[bytes.len() - 1]);
    } else {
        assert(line[k - 1] == 32);
    }
    assert(line_end(line) =~= end);
    assert(content(line) =~= seq![32u8] + bytes);
    let text = seq![' '] + t;
    assert(text.drop_first() =~= t);
    assert((32u32 & 0x7f) as u8 == 32u8) by (bit_vector);
    assert(encode_utf8(text) =~= seq![32u8] + bytes);
    encode_utf8_valid_utf8(text);
    encode_utf8_decode_utf8(text);
    let none = Seq::<char>::empty();
    lemma_trimmed_around(seq![' '], t, none, CharClass::Whitespace);
    assert(seq![' '] + t + none =~= text);
}

/// Folding changes nothing: a field whose value is spread over any number of lines has the value,
/// and the mailboxes, of the same field on one line.
pub proof fn law_folding_changes_nothing(name: Seq<u8>, texts: Seq<Seq<char>>, end: Seq<u8>)
    requires
        texts.len() > 0,
        end == seq![13u8, 10u8] || end == seq![10u8],
        !name.contains(58),
        forall|i: int|
            0 <= i < texts.len() ==> (#[trigger] texts[i]).len() > 0 && !texts[i].contains('\n')
                && is_trimmed(texts[i], CharClass::Whitespace),
    ensures
        field_name(folded(name, texts, end)) == name,
        field_value(folded(name, texts, end)) == joined(texts, seq![' ']),
        field_mailboxes(folded(name, texts, end)) == header_mailboxes(
            joined(texts, seq![' ']),
            address_list(joined(texts, seq![' '])),
        ),
        field_value(folded(name, texts, end)) == field_value(
            folded(name, seq![joined(texts, seq![' '])], end),
        ),
{
    let field = folded(name, texts, end);
    let whole = joined(texts, seq![' ']);
    lemma_first_text(name, texts[0], end);
    assert(texts[0].len() > 0);
    assert(crlf() =~= seq![13u8, 10u8] && lf() =~= seq![10u8]);
    law_value_has_every_line(field);
    let start = trimmed_start(
        lossy_text(content(field[0]).skip(colon(field[0]) + 1)),
        CharClass::Whitespace,
    );
    let first = seq![field[0]];
    assert(field_value(first) == start);
    assert(field_name(field) == field_name(first));
    let more = field.skip(1).map_values(|line: Seq<u8>| continuation(line));
    assert(more =~= texts.skip(1)) by {
        assert forall|i: int| 0 <= i < more.len() implies more[i] == texts.skip(1)[i] by {
            let t = texts[i + 1];
            assert(field[i + 1] == seq![32u8] + encode_utf8(t) + end);
            lemma_continuation(t, end);
        }
    }
    assert(seq![start] + more =~= texts);
    lemma_whole(texts);
    lemma_first_text(name, whole, end);
    let one = folded(name, seq![whole], end);
    assert(one =~= seq![name + seq![58u8, 32u8] + encode_utf8(whole) + end]);
}

/// The value of the first line of a folded field.
proof fn lemma_first_text(name: Seq<u8>, t: Seq<char>, end: Seq<u8>)
    requires
        end == seq![13u8, 10u8] || end == seq![10u8],
        !name.contains(58),
        t.len() > 0,
        !t.contains('\n'),
        is_trimmed(t, CharClass::Whitespace),
    ensures
        field_value(seq![name + seq![58u8, 32u8] + encode_utf8(t) + end]) == t,
        field_name(seq![name + seq![58u8, 32u8] + encode_utf8(t) + end]) == name,
{
    assert(crlf() =~= seq![13u8, 10u8] && lf() =~= seq![10u8]);
    assert(CharClass::Whitespace.has('\r'));
    lemma_plain_field_value(name, t, end);
    crate::laws::fields::lemma_plain_field(name, t, end);
    assert(trimmed_start(t, CharClass::Whitespace) == t);
}

/// Trimmed texts that hold no line feed, put together with spaces, are such a text.
proof fn lemma_whole(texts: Seq<Seq<char>>)
    requires
        texts.len() > 0,
        forall|i: int|
            0 <= i < texts.len() ==> (#[trigger] texts[i]).len() > 0 && !texts[i].contains('\n')
                && is_trimmed(texts[i], CharClass::Whitespace),
    ensures
        joined(texts, seq![' ']).len() > 0,
        !joined(texts, seq![' ']).contains('\n'),
        is_trimmed(joined(texts, seq![' ']), CharClass::Whitespace),
{
    crate::laws::mail::lemma_joined_holds_no(texts, seq![' '], '\n');
    assert(texts[texts.len() - 1].len() > 0);
    crate::laws::mail::lemma_last_of_joined(texts, seq![' ']);
    assert(texts[0].len() > 0);
    assert(joined(texts, seq![' '])[0] == texts[0][0]);
}

/// A list of recipients may be folded after any of its commas: it is the list that has a space
/// after each comma instead.
pub proof fn law_lists_fold_after_commas(entries: Seq<Seq<char>>)
    requires
        entries.len() > 0,
    ensures
        joined(
            Seq::new(
                entries.len(),
                |i: int|
                    if i + 1 < entries.len() {
                        entries[i] + seq![',']
                    } else {
                        entries[i]
                    },
            ),
            seq![' '],
        ) == joined(entries, seq![',', ' ']),
    decreases entries.len(),
{
    let lines = Seq::new(
        entries.len(),
        |i: int|
            if i + 1 < entries.len() {
                entries[i] + seq![',']
            } else {
                entries[i]
            },
    );
    if entries.len() > 1 {
        let rest = entries.skip(1);
        law_lists_fold_after_commas(rest);
        assert(lines.skip(1) =~= Seq::new(
            rest.len(),
            |i: int|
                if i + 1 < rest.len() {
                    rest[i] + seq![',']
                } else {
                    rest[i]
                },
        ));
        assert(joined(lines, seq![' ']) =~= joined(entries, seq![',', ' ']));
    }
}

/// What becomes of each field. `To` and `Cc` become one line: the name as it was, a colon, a space,
/// the mailboxes with their addresses replaced, and the end of the first line. `From` becomes one
/// line where a sender is given and exactly one mailbox was read in it: that mailbox's name with
/// the sender's address. Any other field keeps its lines.
pub proof fn law_what_fields_become(
    field: Seq<Seq<u8>>,
    aliases: Map<Seq<char>, Seq<char>>,
    sender: Option<Seq<char>>,
)
    requires
        is_field(field),
    ensures
        ({
            let name = field_name(field);
            let value = field_value(field);
            let start = name + seq![58u8, 32u8];
            let end = line_end(field[0]);
            &&& is_to_or_cc(name) ==> new_line(field, aliases, sender) == Some(
                start + encode_utf8(replaced(field_mailboxes(field), aliases)) + end,
            )
            &&& is_from(name) && sender is Some ==> {
                &&& address_list(value) is Some && address_list(value)->0.len() == 1
                    && address_list(value)->0[0] is Single ==> new_line(field, aliases, sender)
                    == Some(
                    start + encode_utf8(
                        formatted(
                            address_list(value)->0[0]->Single_0.display_name,
                            sender->0,
                        ),
                    ) + end,
                )
                &&& address_list(value) is None || address_list(value)->0.len() != 1
                    || address_list(value)->0[0] is Group ==> new_line(field, aliases, sender)
                    is None
            }
            &&& is_from(name) && sender is None ==> new_line(field, aliases, sender) is None
            &&& !is_to_or_cc(name) && !is_from(name) ==> new_line(field, aliases, sender) is None
        }),
{
    law_names(field_name(field));
}

/// What becomes of each section: a `Bcc` leaves its loose lines, a field that becomes one line
/// stands before them, and any other section stays.
pub proof fn law_what_sections_become(
    section: Seq<Seq<u8>>,
    aliases: Map<Seq<char>, Seq<char>>,
    sender: Option<Seq<char>>,
)
    ensures
        ({
            let field = section.filter(|line: Seq<u8>| !is_loose(line));
            let loose = section.filter(|line: Seq<u8>| is_loose(line));
            &&& is_bcc(field_name(field)) ==> rewritten_section(section, aliases, sender) == loose
            &&& !is_bcc(field_name(field)) ==> match new_line(field, aliases, sender) {
                Some(line) => rewritten_section(section, aliases, sender) == seq![line] + loose,
                None => rewritten_section(section, aliases, sender) == section,
            }
        }),
{
}

/// What the functions give back.
pub proof fn law_rewriting_functions(
    data: &[u8],
    aliases: &AliasMap,
    sender: String,
    for_recipients: Vec<u8>,
    relayed: Vec<u8>,
    field: &FieldLines,
    who: &Option<String>,
    line: Option<Vec<u8>>,
    parsed: &Option<Vec<ParsedAddress>>,
    address: &str,
    value: Option<String>,
)
    ensures
        call_ensures(rewrite_message, (data, aliases), for_recipients) ==> for_recipients@
            == rewritten(data@, aliases@, None),
        call_ensures(relay_message, (data, aliases, sender), relayed) ==> relayed@ == rewritten(
            data@,
            aliases@,
            Some(sender@),
        ),
        is_field(views(field@)) && call_ensures(rewrite_field, (field, aliases, who), line) ==> (
        line is Some <==> is_to_or_cc(field_name(views(field@))) || (is_from(
            field_name(views(field@)),
        ) && who is Some && address_list(field_value(views(field@))) is Some && address_list(
            field_value(views(field@)),
        )->0.len() == 1 && address_list(field_value(views(field@)))->0[0] is Single)),
        call_ensures(sender_value_of, (parsed, address), value) ==> (value is Some
            <==> optional_views(*parsed) is Some && optional_views(*parsed)->0.len() == 1
            && optional_views(*parsed)->0[0] is Single),
        call_ensures(sender_value_of, (parsed, address), value) && value is Some ==> value->0@
            == formatted(optional_views(*parsed)->0[0]->Single_0.display_name, address@),
{
    law_names(field_name(views(field@)));
}

} // verus!
