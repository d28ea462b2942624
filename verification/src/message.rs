//! Rewriting of a message's header.
//!
//! A message is a header, an empty line and a body. A line ends with LF, with or without CR before
//! it. The header's lines form fields: a line with a colon starts one, and lines that begin with a
//! space or a tab continue it. Fields that are not rewritten keep their bytes, and so do lines that
//! are no part of a field, the empty line and the body.
use crate::chars::{
    chars_of, optional_text, text_of, trim, trim_start, trimmed, trimmed_start, CharClass,
};
use crate::codec::{lossy_text, utf8_lossy};
use crate::mail::{
    address_list, address_views, format_addr, formatted, header_mailboxes, optional_views,
    read_addresses, replace_addresses, replaced, AddressView, ParsedAddress,
};
use crate::map::AliasMap;
use crate::text::{copy_range, find, first_match, lemma_first_match, matches_at, push_all, views};
use vstd::prelude::*;
use vstd::seq_lib::lemma_flatten_concat;
use vstd::slice::slice_subrange;
use vstd::utf8::encode_utf8;

verus! {

/// A header field: its first line and the lines that continue it, with their line ends.
pub type FieldLines = Vec<Vec<u8>>;

/// The lines of each field or section.
pub open spec fn field_views(fields: Seq<FieldLines>) -> Seq<Seq<Seq<u8>>> {
    fields.map_values(|f: FieldLines| views(f@))
}

/// A message taken apart: the lines before the first empty line, the empty line, and what follows
/// it. The last two are empty where there is no empty line.
pub struct MessageParts {
    pub head: Vec<u8>,
    pub gap: Vec<u8>,
    pub body: Vec<u8>,
}

/// What [`MessageParts`] holds.
#[verifier::ext_equal]
pub struct PartsView {
    pub head: Seq<u8>,
    pub gap: Seq<u8>,
    pub body: Seq<u8>,
}

impl View for MessageParts {
    type V = PartsView;

    open spec fn view(&self) -> PartsView {
        PartsView { head: self.head@, gap: self.gap@, body: self.body@ }
    }
}

/// Carriage return and line feed.
pub open spec fn crlf() -> Seq<u8> {
    seq![13u8, 10u8]
}

/// Line feed.
pub open spec fn lf() -> Seq<u8> {
    seq![10u8]
}

/// The length of the first line, with its line end.
pub open spec fn line_len(data: Seq<u8>) -> int {
    match first_match(data, lf()) {
        Some(i) => if 0 <= i < data.len() {
            i + 1
        } else {
            data.len() as int
        },
        None => data.len() as int,
    }
}

/// The lines of the bytes, with their line ends. The last may lack it.
pub open spec fn lines_of(data: Seq<u8>) -> Seq<Seq<u8>>
    decreases data.len(),
{
    if data.len() == 0 {
        Seq::empty()
    } else {
        seq![data.take(line_len(data))] + lines_of(data.skip(line_len(data)))
    }
}

/// A line with nothing but its line end.
pub open spec fn is_empty_line(line: Seq<u8>) -> bool {
    line == lf() || line == crlf()
}

/// The parts of a message. The first empty line ends the header.
pub open spec fn message_parts(data: Seq<u8>) -> PartsView
    decreases data.len(),
{
    let line = data.take(line_len(data));
    let rest = data.skip(line_len(data));
    if data.len() == 0 {
        PartsView { head: Seq::empty(), gap: Seq::empty(), body: Seq::empty() }
    } else if is_empty_line(line) {
        PartsView { head: Seq::empty(), gap: line, body: rest }
    } else {
        PartsView { head: line + message_parts(rest).head, ..message_parts(rest) }
    }
}

/// The end of a line: CRLF, LF, or nothing.
pub open spec fn line_end(line: Seq<u8>) -> Seq<u8> {
    if line.len() > 0 && line.last() == 10 {
        if line.len() > 1 && line[line.len() - 2] == 13 {
            crlf()
        } else {
            lf()
        }
    } else {
        Seq::empty()
    }
}

/// The line without its end.
pub open spec fn content(line: Seq<u8>) -> Seq<u8> {
    line.take(line.len() - line_end(line).len())
}

/// The line begins with a space or a tab.
pub open spec fn is_indented(line: Seq<u8>) -> bool {
    line.len() > 0 && (line[0] == 32 || line[0] == 9)
}

/// The line is no part of a field: it neither starts nor continues one.
pub open spec fn is_loose(line: Seq<u8>) -> bool {
    !is_indented(line) && !line.contains(58)
}

/// The sections of a header. Each starts where a field does and goes up to the next: it holds the
/// lines of the field, and the loose lines among and after them.
pub open spec fn sections(lines: Seq<Seq<u8>>) -> Seq<Seq<Seq<u8>>>
    decreases lines.len(),
{
    if lines.len() == 0 {
        Seq::empty()
    } else {
        let before = sections(lines.drop_last());
        let line = lines.last();
        if line.contains(58) && (before.len() == 0 || !is_indented(line)) {
            before.push(seq![line])
        } else if before.len() > 0 {
            before.drop_last().push(before.last().push(line))
        } else {
            before
        }
    }
}

/// The lines before the first field.
pub open spec fn preface(lines: Seq<Seq<u8>>) -> Seq<Seq<u8>>
    decreases lines.len(),
{
    if lines.len() == 0 || sections(lines).len() == 0 {
        lines
    } else {
        preface(lines.drop_last())
    }
}

/// The field of a section.
pub open spec fn section_field(section: Seq<Seq<u8>>) -> Seq<Seq<u8>> {
    section.filter(|line: Seq<u8>| !is_loose(line))
}

/// The loose lines of a section.
pub open spec fn loose_lines(section: Seq<Seq<u8>>) -> Seq<Seq<u8>> {
    section.filter(|line: Seq<u8>| is_loose(line))
}

/// The position of the first colon of a line that holds one.
pub open spec fn colon(line: Seq<u8>) -> int {
    first_match(line, seq![58u8])->0
}

/// The name of a field: what stands before its first colon.
pub open spec fn field_name(field: Seq<Seq<u8>>) -> Seq<u8> {
    field[0].take(colon(field[0]))
}

/// The value of a field: what stands after its first colon, and after it each line that continues
/// the field, trimmed, with a space before it.
pub open spec fn field_value(field: Seq<Seq<u8>>) -> Seq<char>
    decreases field.len(),
{
    if field.len() <= 1 {
        trimmed_start(
            lossy_text(content(field[0]).skip(colon(field[0]) + 1)),
            CharClass::Whitespace,
        )
    } else {
        field_value(field.drop_last()) + seq![' '] + trimmed(
            lossy_text(content(field.last())),
            CharClass::Whitespace,
        )
    }
}

/// An ASCII letter in lower case; any other byte as it is.
pub open spec fn lower_byte(b: u8) -> u8 {
    if 65 <= b <= 90 {
        (b + 32) as u8
    } else {
        b
    }
}

/// The name, in any letter case, is the one that `lower` holds in lower case.
pub open spec fn is_named(name: Seq<u8>, lower: Seq<u8>) -> bool {
    &&& name.len() == lower.len()
    &&& forall|i: int| 0 <= i < name.len() ==> lower_byte(#[trigger] name[i]) == lower[i]
}

/// The name of the `Bcc` field.
pub open spec fn is_bcc(name: Seq<u8>) -> bool {
    is_named(name, seq![98u8, 99u8, 99u8])
}

/// The names of the `To` and `Cc` fields.
pub open spec fn is_to_or_cc(name: Seq<u8>) -> bool {
    is_named(name, seq![116u8, 111u8]) || is_named(name, seq![99u8, 99u8])
}

/// The name of the `From` field.
pub open spec fn is_from(name: Seq<u8>) -> bool {
    is_named(name, seq![102u8, 114u8, 111u8, 109u8])
}

/// A field that fits on one line, with its line end.
pub open spec fn plain_field(name: Seq<u8>, value: Seq<char>, end: Seq<u8>) -> Seq<u8> {
    name + seq![58u8, 32u8] + encode_utf8(value) + end
}

/// The value of a `From` field with the sender's address in place of its own. The display name
/// stays. `None` where the field does not hold exactly one mailbox.
pub open spec fn sender_value(parsed: Option<Seq<AddressView>>, sender: Seq<char>) -> Option<
    Seq<char>,
> {
    match parsed {
        Some(list) => if list.len() == 1 {
            match list[0] {
                AddressView::Single(m) => Some(formatted(m.display_name, sender)),
                AddressView::Group(_) => None,
            }
        } else {
            None
        },
        None => None,
    }
}

/// The line that a field becomes; `None` where it keeps its lines. The addresses of `To` and `Cc`
/// are replaced, and `From` names the sender, if one is given. The line ends as the first line of
/// the field does.
pub open spec fn new_line(
    field: Seq<Seq<u8>>,
    aliases: Map<Seq<char>, Seq<char>>,
    sender: Option<Seq<char>>,
) -> Option<Seq<u8>> {
    let name = field_name(field);
    let value = field_value(field);
    let end = line_end(field[0]);
    if is_to_or_cc(name) {
        Some(
            plain_field(
                name,
                replaced(header_mailboxes(value, address_list(value)), aliases),
                end,
            ),
        )
    } else if is_from(name) && sender is Some && sender_value(
        address_list(value),
        sender->0,
    ) is Some {
        Some(plain_field(name, sender_value(address_list(value), sender->0)->0, end))
    } else {
        None
    }
}

/// The lines of a section after rewriting. A `Bcc` field is stripped, and a field that becomes one
/// line stands before the loose lines. Any other section stays as it is.
pub open spec fn rewritten_section(
    section: Seq<Seq<u8>>,
    aliases: Map<Seq<char>, Seq<char>>,
    sender: Option<Seq<char>>,
) -> Seq<Seq<u8>> {
    let field = section_field(section);
    if is_bcc(field_name(field)) {
        loose_lines(section)
    } else {
        match new_line(field, aliases, sender) {
            Some(line) => seq![line] + loose_lines(section),
            None => section,
        }
    }
}

/// The sections of a header after rewriting.
pub open spec fn rewritten_sections(
    lines: Seq<Seq<u8>>,
    aliases: Map<Seq<char>, Seq<char>>,
    sender: Option<Seq<char>>,
) -> Seq<Seq<Seq<u8>>> {
    sections(lines).map_values(|s: Seq<Seq<u8>>| rewritten_section(s, aliases, sender))
}

/// The lines of fields or sections, one after the other.
pub open spec fn all_lines(fields: Seq<Seq<Seq<u8>>>) -> Seq<Seq<u8>>
    decreases fields.len(),
{
    if fields.len() == 0 {
        Seq::empty()
    } else {
        all_lines(fields.drop_last()) + fields.last()
    }
}

/// The lines of a header after rewriting.
pub open spec fn rewritten_lines(
    lines: Seq<Seq<u8>>,
    aliases: Map<Seq<char>, Seq<char>>,
    sender: Option<Seq<char>>,
) -> Seq<Seq<u8>> {
    preface(lines) + all_lines(rewritten_sections(lines, aliases, sender))
}

/// The message after rewriting.
pub open spec fn rewritten(
    data: Seq<u8>,
    aliases: Map<Seq<char>, Seq<char>>,
    sender: Option<Seq<char>>,
) -> Seq<u8> {
    let parts = message_parts(data);
    rewritten_lines(lines_of(parts.head), aliases, sender).flatten() + parts.gap + parts.body
}

/// Where the line that begins at `from` ends, with its line end.
fn line_end_at(data: &[u8], from: usize) -> (r: usize)
    requires
        from < data.len(),
    ensures
        from < r <= data.len(),
        r - from == line_len(data@.skip(from as int)),
{
    let mark: Vec<u8> = vec![10u8];
    assert(mark@ =~= lf());
    let rest = slice_subrange(data, from, data.len());
    assert(rest@ =~= data@.skip(from as int));
    match find(rest, mark.as_slice()) {
        Some(i) => from + i + 1,
        None => data.len(),
    }
}

/// The lines of the bytes.
pub fn split_lines(data: &[u8]) -> (r: Vec<Vec<u8>>)
    ensures
        views(r@) == lines_of(data@),
{
    let mut out: Vec<Vec<u8>> = Vec::new();
    let mut from: usize = 0;
    assert(data@.skip(0) =~= data@);
    assert(views(out@) + lines_of(data@) =~= lines_of(data@));
    while from < data.len()
        invariant
            from <= data.len(),
            views(out@) + lines_of(data@.skip(from as int)) == lines_of(data@),
        decreases data.len() - from,
    {
        let ghost rest = data@.skip(from as int);
        let ghost before = out@;
        let end: usize = line_end_at(data, from);
        let line = copy_range(data, from, end);
        assert(line@ =~= rest.take(end - from));
        let ghost v = line@;
        out.push(line);
        assert(rest.skip(end - from) =~= data@.skip(end as int));
        assert(views(out@) =~= views(before).push(v));
        assert(views(out@) + lines_of(data@.skip(end as int)) =~= views(before) + lines_of(rest));
        from = end;
    }
    assert(views(out@) =~= lines_of(data@));
    out
}

/// Whether the line from `from` to `end` has nothing but its line end.
fn is_blank(data: &[u8], from: usize, end: usize) -> (r: bool)
    requires
        from < end <= data.len(),
    ensures
        r == is_empty_line(data@.subrange(from as int, end as int)),
{
    let ghost line = data@.subrange(from as int, end as int);
    assert(line[0] == data@[from as int]);
    assert(lf().len() == 1 && lf()[0] == 10);
    assert(crlf().len() == 2 && crlf()[0] == 13 && crlf()[1] == 10);
    if end - from == 1 {
        assert(data@[from as int] == 10 ==> line =~= lf());
        data[from] == 10
    } else if end - from == 2 {
        assert(line[1] == data@[from + 1]);
        assert(data@[from as int] == 13 && data@[from + 1] == 10 ==> line =~= crlf());
        data[from] == 13 && data[from + 1] == 10
    } else {
        false
    }
}

/// The parts of a message.
pub fn split_message(data: &[u8]) -> (r: MessageParts)
    ensures
        r@ == message_parts(data@),
{
    let mut from: usize = 0;
    let total: usize = data.len();
    assert(data@.skip(0) =~= data@);
    assert(data@.take(0) + message_parts(data@).head =~= message_parts(data@).head);
    while from < total
        invariant
            from <= total,
            total == data.len(),
            message_parts(data@).head == data@.take(from as int) + message_parts(
                data@.skip(from as int),
            ).head,
            message_parts(data@).gap == message_parts(data@.skip(from as int)).gap,
            message_parts(data@).body == message_parts(data@.skip(from as int)).body,
        decreases total - from,
    {
        let ghost rest = data@.skip(from as int);
        let end: usize = line_end_at(data, from);
        assert(rest.take(end - from) =~= data@.subrange(from as int, end as int));
        assert(rest.skip(end - from) =~= data@.skip(end as int));
        if is_blank(data, from, end) {
            let r = MessageParts {
                head: copy_range(data, 0, from),
                gap: copy_range(data, from, end),
                body: copy_range(data, end, total),
            };
            assert(r@ =~= message_parts(data@));
            return r;
        }
        assert(data@.take(end as int) =~= data@.take(from as int) + rest.take(end - from));
        assert(message_parts(data@).head =~= data@.take(end as int) + message_parts(
            data@.skip(end as int),
        ).head);
        from = end;
    }
    let r = MessageParts { head: copy_range(data, 0, total), gap: Vec::new(), body: Vec::new() };
    assert(r@ =~= message_parts(data@));
    r
}

/// A line without a colon has no position of one; in a line with one it is the first.
pub proof fn lemma_colon(line: Seq<u8>)
    ensures
        line.contains(58) == (first_match(line, seq![58u8]) is Some),
        line.contains(58) ==> 0 <= colon(line) < line.len() && line[colon(line)] == 58,
        line.contains(58) ==> forall|j: int| 0 <= j < colon(line) ==> line[j] != 58,
{
    lemma_first_match(line, seq![58u8]);
    assert forall|i: int| 0 <= i < line.len() implies matches_at(line, seq![58u8], i) == (line[i]
        == 58) by {
        assert(line.subrange(i, i + 1) =~= seq![line[i]]);
        if line[i] != 58 {
            assert(line.subrange(i, i + 1)[0] == line[i]);
        }
    }
    if line.contains(58) {
        let k = choose|k: int| 0 <= k < line.len() && line[k] == 58;
        assert(matches_at(line, seq![58u8], k));
    } else if first_match(line, seq![58u8]) is Some {
        assert(line[first_match(line, seq![58u8])->0] == 58);
    }
}

/// The position of the first colon of a line.
fn find_colon(line: &[u8]) -> (r: Option<usize>)
    ensures
        match r {
            Some(i) => line@.contains(58) && i == colon(line@) && i < line.len(),
            None => !line@.contains(58),
        },
{
    proof {
        lemma_colon(line@);
    }
    let mark: Vec<u8> = vec![58u8];
    assert(mark@ =~= seq![58u8]);
    find(line, mark.as_slice())
}

/// The lines before the first field of a header, and its sections.
pub fn sections_of(lines: Vec<Vec<u8>>) -> (r: (Vec<Vec<u8>>, Vec<FieldLines>))
    ensures
        views(r.0@) == preface(views(lines@)),
        field_views(r.1@) == sections(views(lines@)),
{
    let ghost all = views(lines@);
    let mut start: Vec<Vec<u8>> = Vec::new();
    let mut found: Vec<FieldLines> = Vec::new();
    let mut i: usize = 0;
    assert(views(start@) =~= preface(all.take(0)));
    assert(field_views(found@) =~= sections(all.take(0)));
    while i < lines.len()
        invariant
            i <= lines.len(),
            all == views(lines@),
            views(start@) == preface(all.take(i as int)),
            field_views(found@) == sections(all.take(i as int)),
            found.len() == 0 ==> preface(all.take(i as int)) == all.take(i as int),
        decreases lines.len() - i,
    {
        let line = copy_range(lines[i].as_slice(), 0, lines[i].len());
        assert(line@ =~= all[i as int]);
        assert(all.take(i + 1).drop_last() =~= all.take(i as int));
        let ghost before = found@;
        let ghost text = line@;
        let indented = line.len() > 0 && (line[0] == 32 || line[0] == 9);
        let starts = find_colon(line.as_slice()).is_some() && (found.len() == 0 || !indented);
        if starts {
            let mut section: FieldLines = Vec::new();
            section.push(line);
            assert(views(section@) =~= seq![text]);
            found.push(section);
            assert(field_views(found@) =~= field_views(before).push(seq![text]));
        } else if found.len() > 0 {
            let mut section: FieldLines = match found.pop() {
                Some(f) => f,
                None => Vec::new(),
            };
            let ghost inner = section@;
            assert(inner == before.last()@);
            section.push(line);
            assert(views(section@) =~= views(inner).push(text));
            found.push(section);
            assert(field_views(found@) =~= field_views(before).drop_last().push(
                field_views(before).last().push(text),
            ));
        } else {
            let ghost held = start@;
            start.push(line);
            assert(views(start@) =~= views(held).push(text));
            assert(views(start@) =~= all.take(i + 1));
        }
        i += 1;
    }
    assert(all.take(i as int) =~= all);
    (start, found)
}

/// The lines of a section that are loose, or those that are not.
fn pick_lines(section: &FieldLines, loose: bool) -> (r: FieldLines)
    ensures
        views(r@) == if loose {
            loose_lines(views(section@))
        } else {
            section_field(views(section@))
        },
{
    let ghost all = views(section@);
    let ghost wanted = |line: Seq<u8>| is_loose(line) == loose;
    proof {
        reveal(Seq::filter);
    }
    let mut out: FieldLines = Vec::new();
    let mut i: usize = 0;
    assert(views(out@) =~= all.take(0).filter(wanted));
    while i < section.len()
        invariant
            i <= section.len(),
            all == views(section@),
            wanted == (|line: Seq<u8>| is_loose(line) == loose),
            views(out@) == all.take(i as int).filter(wanted),
        decreases section.len() - i,
    {
        proof {
            reveal(Seq::filter);
        }
        let line = copy_range(section[i].as_slice(), 0, section[i].len());
        assert(line@ =~= all[i as int]);
        assert(all.take(i + 1).drop_last() =~= all.take(i as int));
        assert(all.take(i + 1).last() == all[i as int]);
        let indented = line.len() > 0 && (line[0] == 32 || line[0] == 9);
        let bare = !indented && find_colon(line.as_slice()).is_none();
        assert(bare == is_loose(line@));
        if bare == loose {
            let ghost before = out@;
            let ghost text = line@;
            out.push(line);
            assert(views(out@) =~= views(before).push(text));
        }
        i += 1;
    }
    assert(all.take(i as int) =~= all);
    proof {
        if loose {
            assert(wanted =~= (|line: Seq<u8>| is_loose(line)));
        } else {
            assert(wanted =~= (|line: Seq<u8>| !is_loose(line)));
        }
    }
    out
}

/// The field of a section.
pub fn field_of(section: &FieldLines) -> (r: FieldLines)
    ensures
        views(r@) == section_field(views(section@)),
{
    pick_lines(section, false)
}

/// A field has at least one line, and its first line holds a colon.
pub open spec fn is_field(field: Seq<Seq<u8>>) -> bool {
    field.len() > 0 && field[0].contains(58)
}

/// The section starts with the first line of its field.
pub proof fn lemma_section_field(section: Seq<Seq<u8>>)
    requires
        is_field(section),
    ensures
        is_field(section_field(section)),
        section_field(section)[0] == section[0],
    decreases section.len(),
{
    reveal(Seq::filter);
    if section.len() > 1 {
        lemma_section_field(section.drop_last());
    } else {
        assert(section.drop_last().filter(|line: Seq<u8>| !is_loose(line)).len() == 0);
    }
}

/// The sections of a header start as fields do.
pub proof fn lemma_sections_are_fields(lines: Seq<Seq<u8>>)
    ensures
        forall|i: int| 0 <= i < sections(lines).len() ==> is_field(#[trigger] sections(lines)[i]),
    decreases lines.len(),
{
    if lines.len() > 0 {
        let before = sections(lines.drop_last());
        lemma_sections_are_fields(lines.drop_last());
        assert forall|i: int| 0 <= i < sections(lines).len() implies is_field(
            #[trigger] sections(lines)[i],
        ) by {
            if i < before.len() {
                assert(is_field(before[i]));
            }
        }
    }
}

/// The name of a field.
pub fn name_of(field: &FieldLines) -> (r: Vec<u8>)
    requires
        is_field(views(field@)),
    ensures
        r@ == field_name(views(field@)),
{
    assert(views(field@)[0] == field@[0]@);
    let at: usize = match find_colon(field[0].as_slice()) {
        Some(i) => i,
        None => 0,
    };
    let r = copy_range(field[0].as_slice(), 0, at);
    assert(r@ =~= field@[0]@.take(at as int));
    r
}

/// The position at which the end of a line begins.
fn content_len(line: &[u8]) -> (r: usize)
    ensures
        r <= line.len(),
        r == line.len() - line_end(line@).len(),
{
    let n: usize = line.len();
    if n > 0 && line[n - 1] == 10 {
        if n > 1 && line[n - 2] == 13 {
            n - 2
        } else {
            n - 1
        }
    } else {
        n
    }
}

/// The value of a field.
pub fn value_of(field: &FieldLines) -> (r: String)
    requires
        is_field(views(field@)),
    ensures
        r@ == field_value(views(field@)),
{
    let ghost all = views(field@);
    assert(all[0] == field@[0]@);
    let at: usize = match find_colon(field[0].as_slice()) {
        Some(i) => i,
        None => 0,
    };
    let stop: usize = content_len(field[0].as_slice());
    proof {
        lemma_colon(all[0]);
    }
    let rest = copy_range(field[0].as_slice(), at + 1, stop);
    assert(rest@ =~= content(all[0]).skip(at + 1));
    let first = chars_of(utf8_lossy(rest.as_slice()).as_str());
    let mut out: Vec<char> = trim_start(first.as_slice(), CharClass::Whitespace);
    let mut i: usize = 1;
    assert(all.take(1)[0] == all[0]);
    while i < field.len()
        invariant
            1 <= i <= field.len(),
            all == views(field@),
            out@ == field_value(all.take(i as int)),
        decreases field.len() - i,
    {
        let line = copy_range(field[i].as_slice(), 0, content_len(field[i].as_slice()));
        assert(line@ =~= content(all[i as int]));
        let text = chars_of(utf8_lossy(line.as_slice()).as_str());
        let bare = trim(text.as_slice(), CharClass::Whitespace);
        assert(all.take(i + 1).drop_last() =~= all.take(i as int));
        assert(all.take(i + 1).last() == all[i as int]);
        let ghost before = out@;
        out.push(' ');
        push_all(&mut out, bare.as_slice());
        assert(out@ =~= before + seq![' '] + bare@);
        i += 1;
    }
    assert(all.take(i as int) =~= all);
    text_of(out.as_slice())
}

/// Whether the name, in any letter case, is the one that `lower` holds in lower case.
fn has_name(name: &[u8], lower: &[u8]) -> (r: bool)
    ensures
        r == is_named(name@, lower@),
{
    if name.len() != lower.len() {
        return false;
    }
    let mut i: usize = 0;
    while i < name.len()
        invariant
            i <= name.len(),
            name.len() == lower.len(),
            forall|j: int| 0 <= j < i ==> lower_byte(#[trigger] name@[j]) == lower@[j],
        decreases name.len() - i,
    {
        let b: u8 = name[i];
        let l: u8 = if 65 <= b && b <= 90 {
            b + 32
        } else {
            b
        };
        if l != lower[i] {
            return false;
        }
        i += 1;
    }
    true
}

/// A field that fits on one line, with the line end that `first` has.
fn one_line(name: &[u8], value: &str, first: &[u8]) -> (r: Vec<u8>)
    ensures
        r@ == plain_field(name@, value@, line_end(first@)),
{
    let end = copy_range(first, content_len(first), first.len());
    assert(end@ =~= line_end(first@));
    let mut out: Vec<u8> = copy_range(name, 0, name.len());
    out.push(58);
    out.push(32);
    push_all(&mut out, value.as_bytes());
    push_all(&mut out, end.as_slice());
    assert(out@ =~= plain_field(name@, value@, end@));
    out
}

/// The value of a `From` field with the sender's address in place of its own, given what the
/// address parser read in it.
pub fn sender_value_of(parsed: &Option<Vec<ParsedAddress>>, sender: &str) -> (r: Option<String>)
    ensures
        match r {
            Some(v) => sender_value(
                optional_views(*parsed),
                sender@,
            ) == Some(v@),
            None => sender_value(
                optional_views(*parsed),
                sender@,
            ) is None,
        },
{
    match parsed {
        Some(list) => {
            if list.len() == 1 {
                assert(address_views(list@)[0] == list@[0]@);
                match &list[0] {
                    ParsedAddress::Single(m) => match &m.display_name {
                        Some(name) => Some(format_addr(name.as_str(), sender)),
                        None => {
                            let nothing = String::new();
                            Some(format_addr(nothing.as_str(), sender))
                        },
                    },
                    ParsedAddress::Group(_) => None,
                }
            } else {
                None
            }
        },
        None => None,
    }
}

/// The line that a field becomes; `None` where it keeps its lines.
pub fn rewrite_field(field: &FieldLines, alias_map: &AliasMap, sender: &Option<String>) -> (r:
    Option<Vec<u8>>)
    requires
        is_field(views(field@)),
    ensures
        match new_line(views(field@), alias_map@, optional_text(*sender)) {
            Some(line) => r is Some && r->0@ == line,
            None => r is None,
        },
{
    let name = name_of(field);
    assert(views(field@)[0] == field@[0]@);
    let to: Vec<u8> = vec![116u8, 111u8];
    let cc: Vec<u8> = vec![99u8, 99u8];
    let from: Vec<u8> = vec![102u8, 114u8, 111u8, 109u8];
    assert(to@ =~= seq![116u8, 111u8]);
    assert(cc@ =~= seq![99u8, 99u8]);
    assert(from@ =~= seq![102u8, 114u8, 111u8, 109u8]);
    if has_name(name.as_slice(), to.as_slice()) || has_name(name.as_slice(), cc.as_slice()) {
        let value = value_of(field);
        let new = replace_addresses(value.as_str(), alias_map);
        return Some(one_line(name.as_slice(), new.as_str(), field[0].as_slice()));
    }
    if has_name(name.as_slice(), from.as_slice()) {
        match sender {
            Some(s) => {
                let value = value_of(field);
                let parsed: Option<Vec<ParsedAddress>> = match read_addresses(value.as_str()) {
                    Ok(list) => Some(list),
                    Err(_) => None,
                };
                match sender_value_of(&parsed, s.as_str()) {
                    Some(v) => {
                        return Some(one_line(name.as_slice(), v.as_str(), field[0].as_slice()));
                    },
                    None => {},
                }
            },
            None => {},
        }
    }
    None
}

/// Appends the lines.
fn push_lines(out: &mut Vec<u8>, lines: &FieldLines)
    ensures
        final(out)@ == old(out)@ + views(lines@).flatten(),
{
    let ghost all = views(lines@);
    let mut i: usize = 0;
    assert(all.take(0).flatten() =~= Seq::<u8>::empty());
    assert(out@ =~= out@ + all.take(0).flatten());
    while i < lines.len()
        invariant
            i <= lines.len(),
            all == views(lines@),
            out@ == old(out)@ + all.take(i as int).flatten(),
        decreases lines.len() - i,
    {
        proof {
            all.take(i as int).lemma_flatten_push(all[i as int]);
            assert(all.take(i as int).push(all[i as int]) =~= all.take(i + 1));
        }
        push_all(out, lines[i].as_slice());
        assert(out@ =~= old(out)@ + all.take(i + 1).flatten());
        i += 1;
    }
    assert(all.take(i as int) =~= all);
}

/// Appends the lines of a section after rewriting.
fn push_section(
    out: &mut Vec<u8>,
    section: &FieldLines,
    alias_map: &AliasMap,
    sender: &Option<String>,
)
    requires
        is_field(views(section@)),
    ensures
        final(out)@ == old(out)@ + rewritten_section(
            views(section@),
            alias_map@,
            optional_text(*sender),
        ).flatten(),
{
    proof {
        lemma_section_field(views(section@));
    }
    let field = field_of(section);
    let name = name_of(&field);
    let bcc: Vec<u8> = vec![98u8, 99u8, 99u8];
    assert(bcc@ =~= seq![98u8, 99u8, 99u8]);
    if has_name(name.as_slice(), bcc.as_slice()) {
        push_lines(out, &pick_lines(section, true));
        return;
    }
    match rewrite_field(&field, alias_map, sender) {
        Some(line) => {
            let loose = pick_lines(section, true);
            push_all(out, line.as_slice());
            push_lines(out, &loose);
            proof {
                lemma_flatten_concat(seq![line@], views(loose@));
                assert(seq![line@].drop_first().flatten() =~= Seq::empty());
                assert(seq![line@].flatten() =~= line@);
            }
            assert(out@ =~= old(out)@ + (seq![line@] + views(loose@)).flatten());
        },
        None => {
            push_lines(out, section);
        },
    }
}

/// The message after rewriting.
fn rewrite(data: &[u8], alias_map: &AliasMap, sender: &Option<String>) -> (r: Vec<u8>)
    ensures
        r@ == rewritten(data@, alias_map@, optional_text(*sender)),
{
    let parts = split_message(data);
    let ghost lines = lines_of(parts.head@);
    let ghost who: Option<Seq<char>> = optional_text(*sender);
    let (start, found) = sections_of(split_lines(parts.head.as_slice()));
    let ghost all = sections(lines);
    let ghost results = rewritten_sections(lines, alias_map@, who);
    proof {
        lemma_sections_are_fields(lines);
    }
    let mut out: Vec<u8> = Vec::new();
    push_lines(&mut out, &start);
    let mut i: usize = 0;
    assert(preface(lines) + all_lines(results.take(0)) =~= preface(lines));
    assert(out@ =~= preface(lines).flatten());
    while i < found.len()
        invariant
            i <= found.len(),
            all == sections(lines),
            field_views(found@) == all,
            forall|j: int| 0 <= j < all.len() ==> is_field(#[trigger] all[j]),
            who == optional_text(*sender),
            results == rewritten_sections(lines, alias_map@, who),
            out@ == (preface(lines) + all_lines(results.take(i as int))).flatten(),
        decreases found.len() - i,
    {
        assert(all[i as int] == views(found@[i as int]@));
        assert(is_field(all[i as int]));
        let ghost done = preface(lines) + all_lines(results.take(i as int));
        let ghost more = results[i as int];
        push_section(&mut out, &found[i], alias_map, sender);
        proof {
            assert(more == rewritten_section(all[i as int], alias_map@, who));
            assert(results.take(i + 1).drop_last() =~= results.take(i as int));
            assert(results.take(i + 1).last() == more);
            assert(done + more =~= preface(lines) + all_lines(results.take(i + 1)));
            lemma_flatten_concat(done, more);
        }
        i += 1;
    }
    assert(results.take(i as int) =~= results);
    push_all(&mut out, parts.gap.as_slice());
    push_all(&mut out, parts.body.as_slice());
    out
}

/// Rewrites the header of a message for its recipients: `Bcc` is stripped, and addresses of `To`
/// and `Cc` that have a reverse alias are replaced by it. Every other field, lines that are no part
/// of a field, the empty line and the body keep their bytes.
pub fn rewrite_message(data: &[u8], alias_map: &AliasMap) -> (r: Vec<u8>)
    ensures
        r@ == rewritten(data@, alias_map@, None),
{
    rewrite(data, alias_map, &None)
}

/// Rewrites the header of a message for its recipients, and has its `From` name `sender`. The
/// display name of `From` stays. A `From` that does not hold exactly one mailbox keeps its bytes,
/// and none is added where there is none.
pub fn relay_message(data: &[u8], alias_map: &AliasMap, sender: String) -> (r: Vec<u8>)
    ensures
        r@ == rewritten(data@, alias_map@, Some(sender@)),
{
    rewrite(data, alias_map, &Some(sender))
}

} // verus!
