//! Laws of message rewriting.
use crate::chars::{trimmed_start, CharClass};
use crate::laws::breaks::{
    aliases_lack, lemma_encoded_lacks, lemma_first_flattened, lemma_lossy_lacks, lemma_parsed_lacks,
    lemma_replaced_lacks, lemma_trim_lacks, lemma_trimmed_lacks, lemma_written_lacks,
};
use crate::laws::dots::{is_line, lemma_first_line};
use crate::laws::fields::{
    kept_field, kept_fields, lemma_kept_field, lemma_kept_fields, lemma_kept_is_without_bcc,
    lemma_kept_names, lemma_kept_origin, lemma_name_has_no_colon, lemma_plain_field, well_grouped,
    without_bcc,
};
use crate::laws::mail::{
    are_plain, is_plain, law_replaced_header_reads_back, lemma_entry_reads_back,
    lemma_header_is_trimmed, with_replacement, with_replacements,
};
use crate::laws::sections::{
    are_sections, grouped, is_section, law_sections_hold_the_fields,
    law_sections_make_up_the_header, lemma_all_lines_push, lemma_field_of_section, lemma_line_of_field, lemma_loose_lines,
    lemma_origin, lemma_place, lemma_rewritten_fields, lemma_sections_init,
};
use crate::mail::{
    address_list, entry_mailbox, flattened, formatted, header_mailboxes, members, replaced,
    AddressView, MailboxView,
};
use crate::message::{
    all_lines, colon, content, crlf, field_name, field_value, is_bcc, is_empty_line, is_field,
    is_from, is_indented, is_loose, is_to_or_cc, lemma_colon, lf, line_end, line_len, lines_of,
    loose_lines, message_parts, new_line, plain_field, preface, rewritten, rewritten_lines,
    rewritten_section, rewritten_sections, section_field, sections, sender_value,
};
use crate::text::{first_match, lemma_first_match, matches_at};
use vstd::prelude::*;
use vstd::utf8::{encode_utf8, encode_utf8_decode_utf8, encode_utf8_valid_utf8};

verus! {

/// The bytes are not empty, and a line feed stands nowhere but at their end.
pub open spec fn is_piece(line: Seq<u8>) -> bool {
    line.len() > 0 && forall|i: int| 0 <= i < line.len() - 1 ==> line[i] != 10
}

/// Each of the lines is one, and each but the last ends with a line feed.
pub open spec fn are_lines(lines: Seq<Seq<u8>>) -> bool {
    &&& forall|i: int| 0 <= i < lines.len() ==> is_piece(#[trigger] lines[i])
    &&& forall|i: int| 0 <= i && i + 1 < lines.len() ==> (#[trigger] lines[i]).last() == 10
}

/// The first line is one, and a line feed ends it where more follows.
proof fn lemma_line_len(data: Seq<u8>)
    requires
        data.len() > 0,
    ensures
        0 < line_len(data) <= data.len(),
        is_piece(data.take(line_len(data))),
        line_len(data) < data.len() ==> data.take(line_len(data)).last() == 10,
{
    lemma_first_match(data, lf());
    let n = line_len(data);
    let line = data.take(n);
    assert forall|j: int| 0 <= j < n - 1 implies line[j] != 10 by {
        if data[j] == 10 {
            assert(data.subrange(j, j + 1) =~= lf());
            assert(matches_at(data, lf(), j));
        }
    }
    if first_match(data, lf()) is Some {
        let i = first_match(data, lf())->0;
        assert(data.subrange(i, i + 1)[0] == data[i]);
    }
}

/// What follows a line does not change where it ends.
proof fn lemma_line_len_is(line: Seq<u8>, rest: Seq<u8>)
    requires
        is_piece(line),
        line.last() == 10 || rest.len() == 0,
    ensures
        line_len(line + rest) == line.len(),
        (line + rest).take(line.len() as int) == line,
        (line + rest).skip(line.len() as int) == rest,
{
    assert((line + rest).take(line.len() as int) =~= line);
    assert((line + rest).skip(line.len() as int) =~= rest);
    if line.last() == 10 {
        assert(is_line(line));
        lemma_first_line(line, rest);
    } else {
        assert(line + rest =~= line);
        lemma_first_match(line, lf());
        if first_match(line, lf()) is Some {
            let i = first_match(line, lf())->0;
            assert(line.subrange(i, i + 1)[0] == line[i]);
        }
    }
}

/// The lines of bytes are lines, and make up the bytes.
pub proof fn law_lines_make_up_the_bytes(data: Seq<u8>)
    ensures
        lines_of(data).flatten() == data,
        are_lines(lines_of(data)),
    decreases data.len(),
{
    if data.len() > 0 {
        let n = line_len(data);
        let line = data.take(n);
        let rest = data.skip(n);
        lemma_line_len(data);
        law_lines_make_up_the_bytes(rest);
        let all = lines_of(data);
        assert(all.drop_first() =~= lines_of(rest));
        assert(line + rest =~= data);
        assert forall|i: int| 0 <= i < all.len() implies is_piece(#[trigger] all[i]) by {
            if i > 0 {
                assert(all[i] == lines_of(rest)[i - 1]);
            }
        }
        assert forall|i: int| 0 <= i && i + 1 < all.len() implies (#[trigger] all[i]).last()
            == 10 by {
            if i > 0 {
                assert(all[i] == lines_of(rest)[i - 1]);
            } else if rest.len() == 0 {
                assert(lines_of(rest).len() == 0);
            }
        }
    }
}

/// Lines put together are the lines of what they make up.
pub proof fn law_lines_read_back(lines: Seq<Seq<u8>>)
    requires
        are_lines(lines),
    ensures
        lines_of(lines.flatten()) == lines,
    decreases lines.len(),
{
    if lines.len() > 0 {
        let rest = lines.drop_first();
        assert forall|i: int| 0 <= i < rest.len() implies is_piece(#[trigger] rest[i]) by {
            assert(rest[i] == lines[i + 1]);
        }
        assert forall|i: int| 0 <= i && i + 1 < rest.len() implies (#[trigger] rest[i]).last()
            == 10 by {
            assert(rest[i] == lines[i + 1]);
        }
        law_lines_read_back(rest);
        assert(is_piece(lines[0]));
        if rest.len() == 0 {
            assert(rest.flatten() =~= Seq::empty());
        } else {
            assert(lines[0].last() == 10);
        }
        lemma_line_len_is(lines[0], rest.flatten());
        assert(lines_of(lines.flatten()) =~= lines);
    } else {
        assert(lines_of(lines.flatten()) =~= lines);
    }
}

/// The parts of a message make up the message.
pub proof fn law_parts_make_up_the_message(data: Seq<u8>)
    ensures
        message_parts(data).head + message_parts(data).gap + message_parts(data).body == data,
    decreases data.len(),
{
    let p = message_parts(data);
    if data.len() > 0 {
        let n = line_len(data);
        lemma_line_len(data);
        if !is_empty_line(data.take(n)) {
            law_parts_make_up_the_message(data.skip(n));
        }
        assert(data.take(n) + data.skip(n) =~= data);
    }
    assert(p.head + p.gap + p.body =~= data);
}

/// The header ends at the first empty line: none of its lines is empty, and an empty line follows
/// it unless the message is all header.
pub proof fn law_header_ends_at_the_first_empty_line(data: Seq<u8>)
    ensures
        forall|i: int|
            0 <= i < lines_of(message_parts(data).head).len() ==> !is_empty_line(
                #[trigger] lines_of(message_parts(data).head)[i],
            ),
        message_parts(data).gap.len() > 0 ==> is_empty_line(message_parts(data).gap) && (
        message_parts(data).head.len() > 0 ==> message_parts(data).head.last() == 10),
        message_parts(data).gap.len() == 0 ==> message_parts(data).body.len() == 0,
    decreases data.len(),
{
    if data.len() > 0 {
        let n = line_len(data);
        let line = data.take(n);
        let rest = data.skip(n);
        lemma_line_len(data);
        if !is_empty_line(line) {
            law_header_ends_at_the_first_empty_line(rest);
            let p = message_parts(rest);
            if rest.len() == 0 {
                assert(p.head.len() == 0);
            }
            lemma_line_len_is(line, p.head);
            let all = lines_of(line + p.head);
            assert(all =~= seq![line] + lines_of(p.head));
            assert forall|i: int| 0 <= i < all.len() implies !is_empty_line(
                #[trigger] all[i],
            ) by {
                if i > 0 {
                    assert(all[i] == lines_of(p.head)[i - 1]);
                }
            }
            if p.gap.len() > 0 {
                assert(n < data.len());
                assert((line + p.head).last() == 10);
            }
        }
    }
}

/// Lines, none of them empty, with an empty line after them are the header of what they make up.
proof fn lemma_parts_of(lines: Seq<Seq<u8>>, gap: Seq<u8>, body: Seq<u8>)
    requires
        are_lines(lines),
        forall|i: int| 0 <= i < lines.len() ==> !is_empty_line(#[trigger] lines[i]),
        gap.len() == 0 ==> body.len() == 0,
        gap.len() > 0 ==> is_empty_line(gap) && forall|i: int|
            0 <= i < lines.len() ==> (#[trigger] lines[i]).last() == 10,
    ensures
        message_parts(lines.flatten() + gap + body).head == lines.flatten(),
        message_parts(lines.flatten() + gap + body).gap == gap,
        message_parts(lines.flatten() + gap + body).body == body,
    decreases lines.len(),
{
    let data = lines.flatten() + gap + body;
    if lines.len() == 0 {
        assert(data =~= gap + body);
        if gap.len() > 0 {
            assert(is_piece(gap) && gap.last() == 10);
            lemma_line_len_is(gap, body);
        }
        assert(message_parts(data).head =~= lines.flatten());
        assert(message_parts(data).gap =~= gap);
        assert(message_parts(data).body =~= body);
    } else {
        let more = lines.drop_first();
        assert forall|i: int| 0 <= i < more.len() implies is_piece(#[trigger] more[i])
            && !is_empty_line(more[i]) && (gap.len() > 0 ==> more[i].last() == 10) by {
            assert(more[i] == lines[i + 1]);
            assert(is_piece(lines[i + 1]));
        }
        assert forall|i: int| 0 <= i && i + 1 < more.len() implies (#[trigger] more[i]).last()
            == 10 by {
            assert(more[i] == lines[i + 1]);
        }
        lemma_parts_of(more, gap, body);
        let rest = more.flatten() + gap + body;
        assert(is_piece(lines[0]));
        assert(data =~= lines[0] + rest);
        if more.len() == 0 && gap.len() == 0 {
            assert(rest.len() == 0);
        } else {
            assert(lines[0].last() == 10);
        }
        lemma_line_len_is(lines[0], rest);
    }
}

/// The fields of a header.
pub open spec fn header_fields(head: Seq<u8>) -> Seq<Seq<Seq<u8>>> {
    grouped(lines_of(head))
}

/// The fields of a header after rewriting.
pub open spec fn rewritten_fields(
    head: Seq<u8>,
    aliases: Map<Seq<char>, Seq<char>>,
    sender: Option<Seq<char>>,
) -> Seq<Seq<Seq<u8>>> {
    kept_fields(header_fields(head), aliases, sender)
}

/// A message without a `To`, `Cc` or `Bcc` field is left as it is, whatever else it holds.
pub proof fn law_other_messages_are_unchanged(data: Seq<u8>, aliases: Map<Seq<char>, Seq<char>>)
    requires
        forall|i: int|
            0 <= i < header_fields(message_parts(data).head).len() ==> !is_bcc(
                field_name(#[trigger] header_fields(message_parts(data).head)[i]),
            ) && !is_to_or_cc(field_name(header_fields(message_parts(data).head)[i])),
    ensures
        rewritten(data, aliases, None) == data,
{
    let p = message_parts(data);
    let lines = lines_of(p.head);
    let all = sections(lines);
    law_sections_make_up_the_header(lines);
    law_sections_hold_the_fields(lines);
    assert forall|i: int| 0 <= i < all.len() implies rewritten_section(
        #[trigger] all[i],
        aliases,
        None,
    ) == all[i] by {
        assert(header_fields(p.head)[i] == section_field(all[i]));
    }
    assert(rewritten_sections(lines, aliases, None) =~= all);
    law_lines_make_up_the_bytes(p.head);
    law_parts_make_up_the_message(data);
}

/// Every line of the fields is a line of the header, in the same order.
proof fn lemma_lines_of_grouped(lines: Seq<Seq<u8>>)
    requires
        lines.len() > 0,
    ensures
        all_lines(grouped(lines)) == all_lines(grouped(lines.drop_last())) || all_lines(
            grouped(lines),
        ) == all_lines(grouped(lines.drop_last())).push(lines.last()),
{
    let before = grouped(lines.drop_last());
    let line = lines.last();
    if is_indented(line) && before.len() > 0 {
        lemma_all_lines_push(before.drop_last(), before.last().push(line));
        assert(all_lines(grouped(lines)) =~= all_lines(before).push(line));
    } else if line.contains(58) {
        lemma_all_lines_push(before, seq![line]);
        assert(all_lines(grouped(lines)) =~= all_lines(before).push(line));
    }
}

/// The fields of a header are well grouped.
proof fn lemma_grouped_well(lines: Seq<Seq<u8>>)
    ensures
        well_grouped(grouped(lines)),
    decreases lines.len(),
{
    if lines.len() > 0 {
        lemma_grouped_well(lines.drop_last());
        let fields = grouped(lines.drop_last());
        let line = lines.last();
        let all = grouped(lines);
        assert forall|i: int| 0 <= i < all.len() implies is_field(#[trigger] all[i]) by {
            if i < fields.len() {
                assert(is_field(fields[i]));
            }
        }
        assert forall|i: int, j: int|
            0 <= i < all.len() && 1 <= j < all[i].len() implies is_indented(
            #[trigger] all[i][j],
        ) by {
            if i < fields.len() && j < fields[i].len() {
                assert(is_indented(fields[i][j]));
            }
        }
        assert forall|i: int| 0 < i < all.len() implies !is_indented((#[trigger] all[i])[0]) by {
            if i < fields.len() {
                assert(is_field(fields[i]));
                assert(!is_indented(fields[i][0]));
            }
        }
    }
}

/// No field is called `Bcc` after rewriting.
pub proof fn law_bcc_is_stripped(
    data: Seq<u8>,
    aliases: Map<Seq<char>, Seq<char>>,
    sender: Option<Seq<char>>,
)
    ensures
        forall|i: int|
            0 <= i < rewritten_fields(message_parts(data).head, aliases, sender).len() ==> !is_bcc(
                field_name(
                    #[trigger] rewritten_fields(message_parts(data).head, aliases, sender)[i],
                ),
            ),
{
    let head = message_parts(data).head;
    lemma_grouped_well(lines_of(head));
    lemma_kept_fields(header_fields(head), aliases, sender);
}

/// Rewriting neither adds nor renames fields: what is left of the header carries, in order, the
/// names of the fields that are not `Bcc`.
pub proof fn law_field_names_are_kept(
    data: Seq<u8>,
    aliases: Map<Seq<char>, Seq<char>>,
    sender: Option<Seq<char>>,
)
    ensures
        rewritten_fields(message_parts(data).head, aliases, sender).map_values(
            |f: Seq<Seq<u8>>| field_name(f),
        ) == header_fields(message_parts(data).head).map_values(
            |f: Seq<Seq<u8>>| field_name(f),
        ).filter(|name: Seq<u8>| !is_bcc(name)),
{
    let head = message_parts(data).head;
    lemma_grouped_well(lines_of(head));
    lemma_kept_names(header_fields(head), aliases, sender);
}

/// The empty line and the body are the end of the message after rewriting.
pub proof fn law_body_is_kept(
    data: Seq<u8>,
    aliases: Map<Seq<char>, Seq<char>>,
    sender: Option<Seq<char>>,
)
    ensures
        (message_parts(data).gap + message_parts(data).body).is_suffix_of(
            rewritten(data, aliases, sender),
        ),
{
    let p = message_parts(data);
    let end = p.gap + p.body;
    let out = rewritten(data, aliases, sender);
    assert(out.skip(out.len() - end.len()) =~= end);
}

/// Each line of the header after rewriting is one line.
pub open spec fn is_clear(
    data: Seq<u8>,
    aliases: Map<Seq<char>, Seq<char>>,
    sender: Option<Seq<char>>,
) -> bool {
    forall|i: int|
        0 <= i < rewritten_lines(lines_of(message_parts(data).head), aliases, sender).len()
            ==> is_piece(
            #[trigger] rewritten_lines(lines_of(message_parts(data).head), aliases, sender)[i],
        )
}

/// The lines hold something, and each but the last ends with a line feed.
spec fn end_well(lines: Seq<Seq<u8>>) -> bool {
    &&& forall|i: int| 0 <= i < lines.len() ==> (#[trigger] lines[i]).len() > 0
    &&& forall|i: int| 0 <= i && i + 1 < lines.len() ==> (#[trigger] lines[i]).last() == 10
}

/// Every line ends with a line feed.
spec fn all_end(lines: Seq<Seq<u8>>) -> bool {
    forall|i: int| 0 <= i < lines.len() ==> (#[trigger] lines[i]).last() == 10
}

/// Loose lines end as the lines of their section do.
proof fn lemma_loose_ends(section: Seq<Seq<u8>>)
    requires
        end_well(section),
    ensures
        end_well(loose_lines(section)),
        section.len() > 0 && section.last().last() == 10 ==> all_end(loose_lines(section)),
    decreases section.len(),
{
    reveal(Seq::filter);
    if section.len() > 0 {
        let init = section.drop_last();
        let n = section.len() - 1;
        assert forall|i: int| 0 <= i < init.len() implies (#[trigger] init[i]).len() > 0
            && init[i].last() == 10 by {
            assert(init[i] == section[i]);
        }
        lemma_loose_ends(init);
        let before = loose_lines(init);
        let all = loose_lines(section);
        assert(section[n].len() > 0);
        assert(all_end(before)) by {
            if init.len() > 0 {
                assert(init[init.len() - 1].last() == 10);
            }
        }
        assert forall|i: int| 0 <= i < all.len() implies (#[trigger] all[i]).len() > 0 && (i + 1
            < all.len() || section.last().last() == 10 ==> all[i].last() == 10) by {
            if i < before.len() {
                assert(all[i] == before[i]);
            }
        }
    }
}

/// A section ends after rewriting as it did before.
proof fn lemma_section_ends(
    section: Seq<Seq<u8>>,
    aliases: Map<Seq<char>, Seq<char>>,
    sender: Option<Seq<char>>,
)
    requires
        is_section(section),
        end_well(section),
    ensures
        end_well(rewritten_section(section, aliases, sender)),
        section.last().last() == 10 ==> all_end(rewritten_section(section, aliases, sender)),
{
    let field = section_field(section);
    let loose = loose_lines(section);
    let new = rewritten_section(section, aliases, sender);
    lemma_field_of_section(section);
    lemma_loose_ends(section);
    if !is_bcc(field_name(field)) && new_line(field, aliases, sender) is Some {
        let line = new_line(field, aliases, sender)->0;
        assert(new == seq![line] + loose);
        assert(section[0].len() > 0);
        if section[0].last() == 10 {
            assert(line_end(field[0]).last() == 10);
            assert(line.last() == 10);
        }
        if section.len() == 1 {
            lemma_loose_lines(section);
            if loose.len() > 0 {
                assert(is_loose(loose[0]) && section.contains(loose[0]));
            }
        } else {
            assert(section[0].last() == 10);
        }
        assert forall|i: int| 0 <= i < new.len() implies (#[trigger] new[i]).len() > 0 && (i + 1
            < new.len() || section.last().last() == 10 ==> new[i].last() == 10) by {
            if i > 0 {
                assert(new[i] == loose[i - 1]);
            }
        }
    } else if !is_bcc(field_name(field)) && section.last().last() == 10 {
        assert(all_end(section)) by {
            assert forall|i: int| 0 <= i < section.len() implies (#[trigger] section[i]).last()
                == 10 by {
                if i + 1 == section.len() {
                    assert(section[i] == section.last());
                }
            }
        }
    }
}

/// Where all lines of a header end with a line feed, or all but the last, so do those that are
/// left.
proof fn lemma_rewritten_ends(
    start: Seq<Seq<u8>>,
    all: Seq<Seq<Seq<u8>>>,
    aliases: Map<Seq<char>, Seq<char>>,
    sender: Option<Seq<char>>,
)
    requires
        are_sections(all),
        end_well(start + all_lines(all)),
    ensures
        ({
            let old_lines = start + all_lines(all);
            let new_lines = start + all_lines(
                all.map_values(|s: Seq<Seq<u8>>| rewritten_section(s, aliases, sender)),
            );
            &&& end_well(new_lines)
            &&& all_end(old_lines) ==> all_end(new_lines)
        }),
    decreases all.len(),
{
    let news = all.map_values(|s: Seq<Seq<u8>>| rewritten_section(s, aliases, sender));
    let old_lines = start + all_lines(all);
    let new_lines = start + all_lines(news);
    if all.len() > 0 {
        let init = all.drop_last();
        let section = all.last();
        let before = init.map_values(|s: Seq<Seq<u8>>| rewritten_section(s, aliases, sender));
        let new = rewritten_section(section, aliases, sender);
        let old_init = start + all_lines(init);
        let new_init = start + all_lines(before);
        lemma_sections_init(all);
        assert(old_lines =~= old_init + section);
        assert forall|i: int| 0 <= i < old_init.len() implies (#[trigger] old_init[i]).len() > 0
            && old_init[i].last() == 10 by {
            assert(old_init[i] == old_lines[i]);
        }
        assert forall|i: int| 0 <= i < section.len() implies (#[trigger] section[i]).len() > 0
            && (i + 1 < section.len() ==> section[i].last() == 10) by {
            assert(section[i] == old_lines[old_init.len() + i]);
        }
        lemma_rewritten_ends(start, init, aliases, sender);
        lemma_section_ends(section, aliases, sender);
        assert(news =~= before.push(new));
        lemma_all_lines_push(before, new);
        assert(new_lines =~= new_init + new);
        if all_end(old_lines) {
            assert(old_lines[old_lines.len() - 1].last() == 10);
        }
        assert forall|i: int| 0 <= i < new_lines.len() implies (#[trigger] new_lines[i]).len() > 0
            && (i + 1 < new_lines.len() || all_end(old_lines) ==> new_lines[i].last() == 10) by {
            if i < new_init.len() {
                assert(new_lines[i] == new_init[i]);
            } else {
                assert(new_lines[i] == new[i - new_init.len()]);
            }
        }
    } else {
        assert(new_lines =~= old_lines);
    }
}

/// What a field becomes holds a colon, so that it is no empty line.
proof fn lemma_new_line_has_colon(
    field: Seq<Seq<u8>>,
    aliases: Map<Seq<char>, Seq<char>>,
    sender: Option<Seq<char>>,
)
    ensures
        new_line(field, aliases, sender) matches Some(line) ==> line.contains(58)
            && !is_empty_line(line),
{
    if new_line(field, aliases, sender) is Some {
        let line = new_line(field, aliases, sender)->0;
        assert(line[field_name(field).len() as int] == 58);
        assert(lf()[0] == 10 && crlf()[0] == 13 && crlf()[1] == 10);
    }
}

/// What is left of the header, as lines.
proof fn lemma_kept_lines(
    data: Seq<u8>,
    aliases: Map<Seq<char>, Seq<char>>,
    sender: Option<Seq<char>>,
)
    requires
        is_clear(data, aliases, sender),
    ensures
        ({
            let p = message_parts(data);
            let lines = rewritten_lines(lines_of(p.head), aliases, sender);
            &&& are_lines(lines)
            &&& forall|i: int| 0 <= i < lines.len() ==> !is_empty_line(#[trigger] lines[i])
            &&& p.gap.len() > 0 ==> forall|i: int|
                0 <= i < lines.len() ==> (#[trigger] lines[i]).last() == 10
        }),
{
    let p = message_parts(data);
    let source = lines_of(p.head);
    let all = sections(source);
    let lines = rewritten_lines(source, aliases, sender);
    law_lines_make_up_the_bytes(p.head);
    law_header_ends_at_the_first_empty_line(data);
    law_sections_make_up_the_header(source);
    assert forall|i: int| 0 <= i < lines.len() implies !is_empty_line(#[trigger] lines[i]) by {
        lemma_origin(source, aliases, sender, i);
        if source.contains(lines[i]) {
            let k = choose|k: int| 0 <= k < source.len() && source[k] == lines[i];
            assert(!is_empty_line(source[k]));
        } else {
            let k = choose|k: int|
                0 <= k < all.len() && new_line(
                    section_field(#[trigger] all[k]),
                    aliases,
                    sender,
                ) == Some(lines[i]);
            lemma_new_line_has_colon(section_field(all[k]), aliases, sender);
        }
    }
    assert forall|i: int| 0 <= i < source.len() implies (#[trigger] source[i]).len() > 0 by {
        assert(is_piece(source[i]));
    }
    lemma_rewritten_ends(preface(source), all, aliases, sender);
    if p.gap.len() > 0 && source.len() > 0 {
        let n = source.len() - 1;
        assert(is_piece(source[n]));
        lemma_last_of_flatten(source);
        assert forall|i: int| 0 <= i < source.len() implies (#[trigger] source[i]).last()
            == 10 by {}
    }
}

/// Lines put together end as the last of them does.
proof fn lemma_last_of_flatten(lines: Seq<Seq<u8>>)
    requires
        lines.len() > 0,
        lines.last().len() > 0,
    ensures
        lines.flatten().len() > 0,
        lines.flatten().last() == lines.last().last(),
{
    lines.drop_last().lemma_flatten_push(lines.last());
    assert(lines.drop_last().push(lines.last()) =~= lines);
}

/// A message whose header lines are each one line after rewriting reads back as the lines and
/// fields that are left, the empty line and the body: nothing else can be read in its header.
pub proof fn law_rewritten_message_reads_back(
    data: Seq<u8>,
    aliases: Map<Seq<char>, Seq<char>>,
    sender: Option<Seq<char>>,
)
    requires
        is_clear(data, aliases, sender),
    ensures
        lines_of(message_parts(rewritten(data, aliases, sender)).head) == rewritten_lines(
            lines_of(message_parts(data).head),
            aliases,
            sender,
        ),
        header_fields(message_parts(rewritten(data, aliases, sender)).head) == rewritten_fields(
            message_parts(data).head,
            aliases,
            sender,
        ),
        message_parts(rewritten(data, aliases, sender)).gap == message_parts(data).gap,
        message_parts(rewritten(data, aliases, sender)).body == message_parts(data).body,
{
    let p = message_parts(data);
    let lines = rewritten_lines(lines_of(p.head), aliases, sender);
    lemma_kept_lines(data, aliases, sender);
    law_header_ends_at_the_first_empty_line(data);
    lemma_parts_of(lines, p.gap, p.body);
    law_lines_read_back(lines);
    lemma_rewritten_fields(lines_of(p.head), aliases, sender);
}

/// A line of a field has its first colon in its content.
proof fn lemma_colon_in_content(line: Seq<u8>)
    requires
        line.contains(58),
    ensures
        0 <= colon(line) < content(line).len(),
        content(line)[colon(line)] == 58,
{
    lemma_colon(line);
}

/// The value of a field has no line break that the content of its lines has not.
proof fn lemma_value_lacks(field: Seq<Seq<u8>>, x: char, b: u8)
    requires
        (x == '\n' && b == 10) || (x == '\r' && b == 13),
        is_field(field),
        forall|i: int| 0 <= i < field.len() ==> !content(#[trigger] field[i]).contains(b),
    ensures
        !field_value(field).contains(x),
    decreases field.len(),
{
    let n = field.len() - 1;
    assert(!content(field[0]).contains(b));
    assert(!content(field[n]).contains(b));
    if field.len() <= 1 {
        let whole = content(field[0]);
        lemma_colon_in_content(field[0]);
        let after = whole.skip(colon(field[0]) + 1);
        assert forall|i: int| 0 <= i < after.len() implies after[i] != b by {
            assert(after[i] == whole[colon(field[0]) + 1 + i]);
        }
        lemma_lossy_lacks(after, x, b);
        lemma_trimmed_lacks(crate::codec::lossy_text(after), CharClass::Whitespace, x);
    } else {
        let init = field.drop_last();
        assert forall|i: int| 0 <= i < init.len() implies !content(#[trigger] init[i]).contains(
            b,
        ) by {
            assert(init[i] == field[i]);
        }
        lemma_value_lacks(init, x, b);
        lemma_lossy_lacks(content(field[n]), x, b);
        let text = crate::codec::lossy_text(content(field[n]));
        lemma_trim_lacks(text, CharClass::Whitespace, x);
        let bare = crate::chars::trimmed(text, CharClass::Whitespace);
        let value = field_value(field);
        let start = field_value(init);
        assert forall|i: int| 0 <= i < value.len() implies value[i] != x by {
            if i < start.len() {
                assert(value[i] == start[i]);
            } else if i > start.len() {
                assert(value[i] == bare[i - start.len() - 1]);
            }
        }
    }
}

/// The content of a line holds no line feed.
proof fn lemma_content_lacks_lf(line: Seq<u8>)
    requires
        is_piece(line),
    ensures
        !content(line).contains(10),
{
    let c = content(line);
    assert forall|i: int| 0 <= i < c.len() implies c[i] != 10 by {
        assert(c[i] == line[i]);
        if i == line.len() - 1 {
            assert(line_end(line).len() > 0 || line.last() != 10);
        }
    }
}

/// The sender holds no such character.
pub open spec fn sender_lacks(sender: Option<Seq<char>>, x: char) -> bool {
    sender matches Some(s) ==> !s.contains(x)
}

/// The value that a `From` field gets is drawn from its value and the sender.
proof fn lemma_sender_value_lacks(value: Seq<char>, sender: Seq<char>, x: char)
    requires
        !value.contains(x),
        !sender.contains(x),
        x != '"' && x != '\\' && x != ' ' && x != '<' && x != '>',
    ensures
        sender_value(address_list(value), sender) matches Some(v) ==> !v.contains(x),
{
    lemma_parsed_lacks(value, x);
    if sender_value(address_list(value), sender) is Some {
        let list = address_list(value)->0;
        lemma_first_flattened(list);
        assert(members(list[0])[0] == flattened(list)[0]);
        let m = flattened(list)[0];
        lemma_written_lacks(m.display_name, sender, x);
    }
}

/// What a field becomes is one line, if no reverse alias and no sender holds a line feed.
proof fn lemma_new_line_is_one(
    field: Seq<Seq<u8>>,
    aliases: Map<Seq<char>, Seq<char>>,
    sender: Option<Seq<char>>,
)
    requires
        is_field(field),
        forall|i: int| 0 <= i < field.len() ==> is_piece(#[trigger] field[i]),
        aliases_lack(aliases, '\n'),
        sender_lacks(sender, '\n'),
    ensures
        new_line(field, aliases, sender) matches Some(line) ==> is_piece(line),
{
    let name = field_name(field);
    let value = field_value(field);
    let end = line_end(field[0]);
    assert(is_piece(field[0]));
    assert forall|i: int| 0 <= i < field.len() implies !content(#[trigger] field[i]).contains(
        10,
    ) by {
        lemma_content_lacks_lf(field[i]);
    }
    lemma_value_lacks(field, '\n', 10);
    lemma_colon(field[0]);
    assert(!name.contains(10)) by {
        assert forall|i: int| 0 <= i < name.len() implies name[i] != 10 by {
            assert(name[i] == field[0][i]);
        }
    }
    let v = if is_to_or_cc(name) {
        replaced(header_mailboxes(value, address_list(value)), aliases)
    } else {
        sender_value(address_list(value), sender->0)->0
    };
    if new_line(field, aliases, sender) is Some {
        if is_to_or_cc(name) {
            lemma_replaced_lacks(value, aliases, '\n');
        } else {
            lemma_sender_value_lacks(value, sender->0, '\n');
        }
        lemma_encoded_lacks(v, '\n', 10);
        let line = plain_field(name, v, end);
        let text = encode_utf8(v);
        assert(new_line(field, aliases, sender) == Some(line));
        let n = name.len() as int;
        assert forall|i: int| 0 <= i < line.len() - 1 implies line[i] != 10 by {
            if i < n {
                assert(line[i] == name[i]);
            } else if n + 2 <= i < n + 2 + text.len() {
                assert(line[i] == text[i - n - 2]);
            } else if i >= n + 2 + text.len() {
                assert(line[i] == end[i - n - 2 - text.len()]);
            }
        }
        assert(is_piece(line));
    }
}

/// The lines of the fields of a header are lines of the header.
proof fn lemma_line_of_header(lines: Seq<Seq<u8>>)
    ensures
        forall|i: int|
            0 <= i < all_lines(grouped(lines)).len() ==> lines.contains(
                #[trigger] all_lines(grouped(lines))[i],
            ),
    decreases lines.len(),
{
    if lines.len() > 0 {
        let init = lines.drop_last();
        let n = lines.len() - 1;
        lemma_line_of_header(init);
        lemma_lines_of_grouped(lines);
        let before = all_lines(grouped(init));
        let all = all_lines(grouped(lines));
        assert forall|i: int| 0 <= i < all.len() implies lines.contains(#[trigger] all[i]) by {
            if i < before.len() {
                assert(all[i] == before[i]);
                let k = choose|k: int| 0 <= k < init.len() && init[k] == before[i];
                assert(lines[k] == all[i]);
            } else {
                assert(lines[n] == all[i]);
            }
        }
    }
}

/// Each line of a field of the header is one line of the header.
proof fn lemma_field_line(head: Seq<u8>, j: int, k: int)
    requires
        0 <= j < header_fields(head).len(),
        0 <= k < header_fields(head)[j].len(),
    ensures
        lines_of(head).contains(header_fields(head)[j][k]),
        is_piece(header_fields(head)[j][k]),
{
    let lines = lines_of(head);
    let fields = header_fields(head);
    law_lines_make_up_the_bytes(head);
    lemma_line_of_field(fields, j, k);
    lemma_line_of_header(lines);
    let i = choose|i: int| 0 <= i < all_lines(fields).len() && all_lines(fields)[i] == fields[j][k];
    assert(lines.contains(all_lines(fields)[i]));
    let m = choose|m: int| 0 <= m < lines.len() && lines[m] == fields[j][k];
    assert(is_piece(lines[m]));
}

/// Rewriting brings no line feed into a line, whatever the message holds, unless a reverse alias or
/// the sender holds one.
pub proof fn law_rewriting_adds_no_lines(
    data: Seq<u8>,
    aliases: Map<Seq<char>, Seq<char>>,
    sender: Option<Seq<char>>,
)
    requires
        aliases_lack(aliases, '\n'),
        sender_lacks(sender, '\n'),
    ensures
        is_clear(data, aliases, sender),
{
    let head = message_parts(data).head;
    let source = lines_of(head);
    let all = sections(source);
    let lines = rewritten_lines(source, aliases, sender);
    law_lines_make_up_the_bytes(head);
    law_sections_make_up_the_header(source);
    law_sections_hold_the_fields(source);
    assert forall|i: int| 0 <= i < lines.len() implies is_piece(#[trigger] lines[i]) by {
        lemma_origin(source, aliases, sender, i);
        if source.contains(lines[i]) {
            let k = choose|k: int| 0 <= k < source.len() && source[k] == lines[i];
            assert(is_piece(source[k]));
        } else {
            let k = choose|k: int|
                0 <= k < all.len() && new_line(
                    section_field(#[trigger] all[k]),
                    aliases,
                    sender,
                ) == Some(lines[i]);
            let field = section_field(all[k]);
            lemma_field_of_section(all[k]);
            assert(header_fields(head)[k] == field);
            assert forall|j: int| 0 <= j < field.len() implies is_piece(#[trigger] field[j]) by {
                lemma_field_line(head, k, j);
            }
            lemma_new_line_is_one(field, aliases, sender);
        }
    }
}

/// A line does not begin a `Bcc` field.
pub open spec fn begins_no_bcc(line: Seq<u8>) -> bool {
    line.contains(58) ==> !is_bcc(line.take(colon(line)))
}

/// No line of a section begins a `Bcc` field after rewriting.
proof fn lemma_no_bcc_lines(
    section: Seq<Seq<u8>>,
    aliases: Map<Seq<char>, Seq<char>>,
    sender: Option<Seq<char>>,
)
    requires
        is_section(section),
    ensures
        forall|i: int|
            0 <= i < rewritten_section(section, aliases, sender).len() ==> begins_no_bcc(
                #[trigger] rewritten_section(section, aliases, sender)[i],
            ),
{
    let field = section_field(section);
    let loose = loose_lines(section);
    let new = rewritten_section(section, aliases, sender);
    lemma_field_of_section(section);
    lemma_loose_lines(section);
    lemma_kept_field(field, aliases, sender);
    assert forall|i: int| 0 <= i < new.len() implies begins_no_bcc(#[trigger] new[i]) by {
        let line = new[i];
        if is_bcc(field_name(field)) {
            assert(is_loose(loose[i]));
        } else if new_line(field, aliases, sender) is Some {
            if i > 0 {
                assert(is_loose(loose[i - 1]));
            } else {
                assert(field_name(seq![line]) == line.take(colon(line)));
                assert(kept_field(field, aliases, sender) == Some(seq![line]));
            }
        } else if i > 0 && line.contains(58) {
            assert(is_indented(section[i]));
            lemma_colon(line);
            let name = line.take(colon(line));
            assert(name.len() > 0 ==> name[0] == line[0]);
            if is_bcc(name) {
                assert(crate::message::lower_byte(name[0]) == 98);
            }
        }
    }
}

/// Whoever reads the message after rewriting finds no `Bcc` field in it: no line of its header, as
/// line feeds end them, begins one.
pub proof fn law_readers_see_no_bcc(
    data: Seq<u8>,
    aliases: Map<Seq<char>, Seq<char>>,
    sender: Option<Seq<char>>,
)
    requires
        aliases_lack(aliases, '\n'),
        sender_lacks(sender, '\n'),
    ensures
        forall|i: int|
            0 <= i < header_fields(message_parts(rewritten(data, aliases, sender)).head).len()
                ==> !is_bcc(
                field_name(
                    #[trigger] header_fields(
                        message_parts(rewritten(data, aliases, sender)).head,
                    )[i],
                ),
            ),
        forall|i: int|
            0 <= i < lines_of(message_parts(rewritten(data, aliases, sender)).head).len()
                ==> begins_no_bcc(
                #[trigger] lines_of(message_parts(rewritten(data, aliases, sender)).head)[i],
            ),
{
    let head = message_parts(data).head;
    let source = lines_of(head);
    let start = preface(source);
    let news = rewritten_sections(source, aliases, sender);
    let lines = rewritten_lines(source, aliases, sender);
    law_rewriting_adds_no_lines(data, aliases, sender);
    law_rewritten_message_reads_back(data, aliases, sender);
    law_bcc_is_stripped(data, aliases, sender);
    law_sections_make_up_the_header(source);
    assert forall|i: int| 0 <= i < lines.len() implies begins_no_bcc(#[trigger] lines[i]) by {
        if i < start.len() {
            assert(lines[i] == start[i]);
        } else {
            let at = lemma_place(news, i - start.len());
            assert(is_section(sections(source)[at.0]));
            lemma_no_bcc_lines(sections(source)[at.0], aliases, sender);
        }
    }
}

/// Loose lines are all that is loose among them.
proof fn lemma_all_loose(loose: Seq<Seq<u8>>)
    requires
        forall|i: int| 0 <= i < loose.len() ==> is_loose(#[trigger] loose[i]),
    ensures
        loose_lines(loose) == loose,
    decreases loose.len(),
{
    reveal(Seq::filter);
    if loose.len() > 0 {
        let init = loose.drop_last();
        assert forall|i: int| 0 <= i < init.len() implies is_loose(#[trigger] init[i]) by {
            assert(init[i] == loose[i]);
        }
        lemma_all_loose(init);
        assert(is_loose(loose[loose.len() - 1]));
        assert(loose_lines(loose) =~= loose);
    }
}

/// The loose lines of a section are the same after rewriting.
proof fn lemma_section_loose(
    section: Seq<Seq<u8>>,
    aliases: Map<Seq<char>, Seq<char>>,
    sender: Option<Seq<char>>,
)
    ensures
        loose_lines(rewritten_section(section, aliases, sender)) == loose_lines(section),
{
    let field = section_field(section);
    let loose = loose_lines(section);
    lemma_loose_lines(section);
    lemma_all_loose(loose);
    if !is_bcc(field_name(field)) && new_line(field, aliases, sender) is Some {
        let one = seq![new_line(field, aliases, sender)->0];
        lemma_new_line_has_colon(field, aliases, sender);
        Seq::filter_distributes_over_add(one, loose, |line: Seq<u8>| is_loose(line));
        reveal(Seq::filter);
        assert(loose_lines(one.drop_last()).len() == 0);
        assert(loose_lines(one) =~= Seq::empty());
        assert(loose_lines(one) + loose =~= loose);
    }
}

/// The loose lines of sections are the same after rewriting.
proof fn lemma_sections_loose(
    all: Seq<Seq<Seq<u8>>>,
    aliases: Map<Seq<char>, Seq<char>>,
    sender: Option<Seq<char>>,
)
    ensures
        loose_lines(
            all_lines(all.map_values(|s: Seq<Seq<u8>>| rewritten_section(s, aliases, sender))),
        ) == loose_lines(all_lines(all)),
    decreases all.len(),
{
    let news = all.map_values(|s: Seq<Seq<u8>>| rewritten_section(s, aliases, sender));
    let loose = |line: Seq<u8>| is_loose(line);
    if all.len() > 0 {
        let init = all.drop_last();
        let before = init.map_values(|s: Seq<Seq<u8>>| rewritten_section(s, aliases, sender));
        let new = rewritten_section(all.last(), aliases, sender);
        lemma_sections_loose(init, aliases, sender);
        lemma_section_loose(all.last(), aliases, sender);
        assert(news =~= before.push(new));
        lemma_all_lines_push(before, new);
        Seq::filter_distributes_over_add(all_lines(init), all.last(), loose);
        Seq::filter_distributes_over_add(all_lines(before), new, loose);
    } else {
        assert(all_lines(news) =~= all_lines(all));
    }
}

/// Lines that are no part of a field are kept, in order: whoever reads the message after rewriting
/// finds the lines before the first field where they were, and the same loose lines.
pub proof fn law_other_lines_are_kept(
    data: Seq<u8>,
    aliases: Map<Seq<char>, Seq<char>>,
    sender: Option<Seq<char>>,
)
    requires
        aliases_lack(aliases, '\n'),
        sender_lacks(sender, '\n'),
    ensures
        preface(lines_of(message_parts(data).head)).is_prefix_of(
            lines_of(message_parts(rewritten(data, aliases, sender)).head),
        ),
        loose_lines(lines_of(message_parts(rewritten(data, aliases, sender)).head)) == loose_lines(
            lines_of(message_parts(data).head),
        ),
{
    let source = lines_of(message_parts(data).head);
    let start = preface(source);
    let all = sections(source);
    let news = rewritten_sections(source, aliases, sender);
    let loose = |line: Seq<u8>| is_loose(line);
    law_rewriting_adds_no_lines(data, aliases, sender);
    law_rewritten_message_reads_back(data, aliases, sender);
    law_sections_make_up_the_header(source);
    lemma_sections_loose(all, aliases, sender);
    Seq::filter_distributes_over_add(start, all_lines(all), loose);
    Seq::filter_distributes_over_add(start, all_lines(news), loose);
}

/// The value of a field that fits on one line.
pub proof fn lemma_plain_field_value(name: Seq<u8>, value: Seq<char>, end: Seq<u8>)
    requires
        !name.contains(58),
        end == crlf() || end == lf() || end.len() == 0,
        !value.contains('\n'),
        end == lf() ==> value.len() == 0 || value.last() != '\r',
    ensures
        field_value(seq![plain_field(name, value, end)]) == trimmed_start(
            value,
            CharClass::Whitespace,
        ),
{
    let line = plain_field(name, value, end);
    let bytes = encode_utf8(value);
    lemma_plain_field(name, value, end);
    lemma_encoded_lacks(value, '\n', 10);
    let k = name.len() + 2 + bytes.len();
    assert(line.len() == k + end.len());
    if bytes.len() > 0 {
        assert(line[k - 1] == bytes[bytes.len() - 1]);
        lemma_last_byte(value);
    } else {
        assert(line[k - 1] == 32);
    }
    assert(line_end(line) =~= end);
    let text = seq![' '] + value;
    assert(text.drop_first() =~= value);
    assert((32u32 & 0x7f) as u8 == 32u8) by (bit_vector);
    assert(encode_utf8(text) =~= seq![32u8] + bytes);
    assert(content(line).skip(colon(line) + 1) =~= encode_utf8(text));
    encode_utf8_valid_utf8(text);
    encode_utf8_decode_utf8(text);
    assert(text.skip(1) =~= value);
    assert(CharClass::Whitespace.has(' '));
}

/// The encoding of a text ends with a carriage return only where the text does.
pub proof fn lemma_last_byte(s: Seq<char>)
    ensures
        encode_utf8(s).len() > 0 && encode_utf8(s).last() == 13 ==> s.len() > 0 && s.last()
            == '\r',
    decreases s.len(),
{
    if s.len() > 1 {
        let rest = s.drop_first();
        lemma_last_byte(rest);
        assert(rest.last() == s.last());
        vstd::utf8::encode_utf8_first_scalar(rest);
        assert(encode_utf8(rest).len() > 0);
        assert(encode_utf8(s).last() == encode_utf8(rest).last());
    } else if s.len() == 1 {
        assert(s.drop_first() =~= Seq::empty());
        if encode_utf8(s).len() > 0 && encode_utf8(s).last() == 13 {
            assert(encode_utf8(s)[encode_utf8(s).len() - 1] == 13);
            lemma_encoded_lacks(s, '\r', 13);
            let i = choose|i: int| 0 <= i < s.len() && s[i] == '\r';
            assert(s[0] == '\r');
        }
    }
}

/// The mailboxes of a field.
pub open spec fn field_mailboxes(field: Seq<Seq<u8>>) -> Seq<MailboxView> {
    header_mailboxes(field_value(field), address_list(field_value(field)))
}

/// The `To` and `Cc` fields of the message hold plain mailboxes only, also once their addresses are
/// replaced.
pub open spec fn recipients_are_plain(
    fields: Seq<Seq<Seq<u8>>>,
    aliases: Map<Seq<char>, Seq<char>>,
) -> bool {
    forall|j: int|
        0 <= j < fields.len() && is_to_or_cc(field_name(#[trigger] fields[j])) ==> are_plain(
            with_replacements(field_mailboxes(fields[j]), aliases),
        )
}

/// A `To` or `Cc` field of plain mailboxes holds, after rewriting, the same mailboxes in the same
/// order and with the same display names, each with the address that stands for its own.
pub proof fn law_recipients_read_back(
    field: Seq<Seq<u8>>,
    aliases: Map<Seq<char>, Seq<char>>,
    sender: Option<Seq<char>>,
    parsed: Option<Seq<AddressView>>,
)
    requires
        is_field(field),
        forall|i: int| 0 <= i < field.len() ==> is_piece(#[trigger] field[i]),
        is_to_or_cc(field_name(field)),
        aliases_lack(aliases, '\n'),
        are_plain(with_replacements(field_mailboxes(field), aliases)),
    ensures
        kept_field(field, aliases, sender) is Some,
        header_mailboxes(field_value(kept_field(field, aliases, sender)->0), parsed)
            == with_replacements(field_mailboxes(field), aliases),
{
    let value = field_value(field);
    let boxes = header_mailboxes(value, address_list(value));
    let new = replaced(boxes, aliases);
    assert forall|i: int| 0 <= i < field.len() implies !content(#[trigger] field[i]).contains(
        10,
    ) by {
        lemma_content_lacks_lf(field[i]);
    }
    lemma_value_lacks(field, '\n', 10);
    lemma_replaced_lacks(value, aliases, '\n');
    lemma_name_has_no_colon(field);
    assert forall|i: int| 0 <= i < boxes.len() implies is_plain(
        with_replacement(#[trigger] boxes[i], aliases),
    ) by {
        assert(is_plain(with_replacements(boxes, aliases)[i]));
    }
    lemma_header_is_trimmed(boxes, aliases);
    assert(CharClass::Whitespace.has('\r'));
    lemma_plain_field_value(field_name(field), new, line_end(field[0]));
    law_replaced_header_reads_back(boxes, aliases, parsed);
}

/// A `From` field of one mailbox names, after rewriting, the given sender under the same display
/// name.
pub proof fn law_sender_reads_back(
    field: Seq<Seq<u8>>,
    aliases: Map<Seq<char>, Seq<char>>,
    sender: Seq<char>,
    from: MailboxView,
)
    requires
        is_field(field),
        forall|i: int| 0 <= i < field.len() ==> is_piece(#[trigger] field[i]),
        is_from(field_name(field)),
        address_list(field_value(field)) == Some(seq![AddressView::Single(from)]),
        is_plain(MailboxView { display_name: from.display_name, address: sender }),
        !sender.contains('\n'),
    ensures
        kept_field(field, aliases, Some(sender)) is Some,
        entry_mailbox(field_value(kept_field(field, aliases, Some(sender))->0)) == Some(
            MailboxView { display_name: from.display_name, address: sender },
        ),
{
    let m = MailboxView { display_name: from.display_name, address: sender };
    let value = field_value(field);
    assert forall|i: int| 0 <= i < field.len() implies !content(#[trigger] field[i]).contains(
        10,
    ) by {
        lemma_content_lacks_lf(field[i]);
    }
    lemma_value_lacks(field, '\n', 10);
    lemma_sender_value_lacks(value, sender, '\n');
    lemma_name_has_no_colon(field);
    lemma_entry_reads_back(m);
    assert(CharClass::Whitespace.has('\r'));
    lemma_plain_field_value(
        field_name(field),
        formatted(m.display_name, m.address),
        line_end(field[0]),
    );
}

/// Whoever reads the message after rewriting finds in each `To` and `Cc` field the mailboxes of a
/// field of that name in the message before, in the same order and with the same display names,
/// each with the address that stands for its own.
pub proof fn law_readers_see_the_reverse_aliases(
    data: Seq<u8>,
    aliases: Map<Seq<char>, Seq<char>>,
    sender: Option<Seq<char>>,
    parsed: Option<Seq<AddressView>>,
    i: int,
)
    requires
        aliases_lack(aliases, '\n'),
        sender_lacks(sender, '\n'),
        recipients_are_plain(header_fields(message_parts(data).head), aliases),
        0 <= i < header_fields(message_parts(rewritten(data, aliases, sender)).head).len(),
        is_to_or_cc(
            field_name(header_fields(message_parts(rewritten(data, aliases, sender)).head)[i]),
        ),
    ensures
        exists|j: int|
            #![trigger header_fields(message_parts(data).head)[j]]
            0 <= j < header_fields(message_parts(data).head).len() && {
                let new = header_fields(message_parts(rewritten(data, aliases, sender)).head)[i];
                let old_field = header_fields(message_parts(data).head)[j];
                &&& field_name(new) == field_name(old_field)
                &&& header_mailboxes(field_value(new), parsed) == with_replacements(
                    field_mailboxes(old_field),
                    aliases,
                )
            },
{
    let head = message_parts(data).head;
    let fields = header_fields(head);
    law_rewriting_adds_no_lines(data, aliases, sender);
    law_rewritten_message_reads_back(data, aliases, sender);
    let new = rewritten_fields(head, aliases, sender)[i];
    lemma_kept_origin(fields, aliases, sender, i);
    let j = choose|j: int|
        0 <= j < fields.len() && kept_field(#[trigger] fields[j], aliases, sender) == Some(
            new,
        );
    lemma_grouped_well(lines_of(head));
    assert(is_field(fields[j]));
    assert forall|k: int| 1 <= k < fields[j].len() implies is_indented(
        #[trigger] fields[j][k],
    ) by {}
    assert forall|k: int| 0 <= k < fields[j].len() implies is_piece(#[trigger] fields[j][k]) by {
        lemma_field_line(head, j, k);
    }
    lemma_kept_field(fields[j], aliases, sender);
    law_recipients_read_back(fields[j], aliases, sender, parsed);
}

/// Every carriage return has a line feed after it. This holds of bytes with one kind of line end.
pub open spec fn has_no_stray_cr(bytes: Seq<u8>) -> bool {
    forall|i: int|
        0 <= i < bytes.len() && #[trigger] bytes[i] == 13 ==> i + 1 < bytes.len() && bytes[i + 1]
            == 10
}

/// The bytes have one kind of line end: each line feed has a carriage return before it and each
/// carriage return a line feed after it, or there is no carriage return.
pub open spec fn has_one_line_end(bytes: Seq<u8>) -> bool {
    ||| !bytes.contains(13)
    ||| {
        &&& has_no_stray_cr(bytes)
        &&& forall|i: int|
            0 <= i < bytes.len() && #[trigger] bytes[i] == 10 ==> i > 0 && bytes[i - 1] == 13
    }
}

/// Where each carriage return has a line feed after it, the content of lines holds none.
proof fn lemma_contents_lack_cr(data: Seq<u8>)
    requires
        has_no_stray_cr(data),
    ensures
        forall|i: int|
            0 <= i < lines_of(data).len() ==> !content(#[trigger] lines_of(data)[i]).contains(13),
    decreases data.len(),
{
    if data.len() > 0 {
        let n = line_len(data);
        let line = data.take(n);
        let rest = data.skip(n);
        lemma_line_len(data);
        assert(has_no_stray_cr(rest)) by {
            assert forall|i: int| 0 <= i < rest.len() && #[trigger] rest[i] == 13 implies i + 1
                < rest.len() && rest[i + 1] == 10 by {
                assert(data[n + i] == 13);
            }
        }
        lemma_contents_lack_cr(rest);
        let c = content(line);
        assert(!c.contains(13)) by {
            assert forall|j: int| 0 <= j < c.len() implies c[j] != 13 by {
                if c[j] == 13 {
                    assert(data[j] == 13);
                    assert(data[j + 1] == 10);
                    if j + 1 < n {
                        assert(line[j + 1] == 10);
                        assert(line[n - 2] == 13);
                    } else {
                        assert(line[n - 1] == 13);
                    }
                }
            }
        }
        let all = lines_of(data);
        assert forall|i: int| 0 <= i < all.len() implies !content(#[trigger] all[i]).contains(
            13,
        ) by {
            if i > 0 {
                assert(all[i] == lines_of(rest)[i - 1]);
            }
        }
    }
}

/// The header after rewriting, as a reader finds it, for a message without stray carriage returns
/// and reverse aliases without line breaks. Its fields are those of the message, in order, without
/// any `Bcc`. Each has the name of its field. The value of each `To` and `Cc` is that of its field
/// with the addresses replaced, taken without blanks before it. Every other field is as it was, but
/// for a `From` where a sender is given. The empty line and the body are as they were.
pub proof fn law_rewritten_header(
    data: Seq<u8>,
    aliases: Map<Seq<char>, Seq<char>>,
    sender: Option<Seq<char>>,
)
    requires
        has_no_stray_cr(message_parts(data).head),
        aliases_lack(aliases, '\r'),
        aliases_lack(aliases, '\n'),
        sender_lacks(sender, '\n'),
    ensures
        ({
            let before = without_bcc(header_fields(message_parts(data).head));
            let after = header_fields(message_parts(rewritten(data, aliases, sender)).head);
            &&& after.len() == before.len()
            &&& forall|i: int|
                0 <= i < before.len() ==> {
                    let value = field_value(before[i]);
                    &&& field_name(#[trigger] after[i]) == field_name(before[i])
                    &&& is_to_or_cc(field_name(before[i])) ==> field_value(after[i])
                        == trimmed_start(
                        replaced(header_mailboxes(value, address_list(value)), aliases),
                        CharClass::Whitespace,
                    )
                    &&& !is_to_or_cc(field_name(before[i])) && !(is_from(field_name(before[i]))
                        && sender is Some) ==> after[i] == before[i]
                }
        }),
        message_parts(rewritten(data, aliases, sender)).gap == message_parts(data).gap,
        message_parts(rewritten(data, aliases, sender)).body == message_parts(data).body,
{
    let head = message_parts(data).head;
    let fields = header_fields(head);
    let before = without_bcc(fields);
    let after = rewritten_fields(head, aliases, sender);
    law_rewriting_adds_no_lines(data, aliases, sender);
    law_rewritten_message_reads_back(data, aliases, sender);
    lemma_kept_is_without_bcc(fields, aliases, sender);
    lemma_grouped_well(lines_of(head));
    lemma_contents_lack_cr(head);
    assert forall|i: int| 0 <= i < before.len() implies {
        let value = field_value(before[i]);
        &&& field_name(#[trigger] after[i]) == field_name(before[i])
        &&& is_to_or_cc(field_name(before[i])) ==> field_value(after[i]) == trimmed_start(
            replaced(header_mailboxes(value, address_list(value)), aliases),
            CharClass::Whitespace,
        )
        &&& !is_to_or_cc(field_name(before[i])) && !(is_from(field_name(before[i])) && sender
            is Some) ==> after[i] == before[i]
    } by {
        let field = before[i];
        assert(kept_field(before[i], aliases, sender) == Some(after[i]));
        let j = choose|j: int| 0 <= j < fields.len() && fields[j] == before[i];
        assert(is_field(fields[j]));
        assert forall|k: int| 1 <= k < field.len() implies is_indented(#[trigger] field[k]) by {
            assert(is_indented(fields[j][k]));
        }
        lemma_kept_field(field, aliases, sender);
        assert forall|k: int| 0 <= k < field.len() implies !content(#[trigger] field[k]).contains(
            10,
        ) && !content(field[k]).contains(13) by {
            lemma_field_line(head, j, k);
            lemma_content_lacks_lf(field[k]);
            let lines = lines_of(head);
            let m = choose|m: int| 0 <= m < lines.len() && lines[m] == field[k];
            assert(!content(lines[m]).contains(13));
        }
        lemma_value_lacks(field, '\n', 10);
        lemma_value_lacks(field, '\r', 13);
        if is_to_or_cc(field_name(field)) {
            let value = field_value(field);
            let new = replaced(header_mailboxes(value, address_list(value)), aliases);
            lemma_replaced_lacks(value, aliases, '\n');
            lemma_replaced_lacks(value, aliases, '\r');
            lemma_name_has_no_colon(field);
            if new.len() > 0 {
                assert(new[new.len() - 1] != '\r');
            }
            lemma_plain_field_value(field_name(field), new, line_end(field[0]));
        }
    }
}

/// Bytes with one kind of line end have no stray carriage returns, and neither has their header.
pub proof fn law_one_line_end_has_no_stray_cr(data: Seq<u8>)
    requires
        has_one_line_end(data),
    ensures
        has_no_stray_cr(message_parts(data).head),
{
    let p = message_parts(data);
    law_parts_make_up_the_message(data);
    law_header_ends_at_the_first_empty_line(data);
    assert(has_no_stray_cr(data));
    assert forall|i: int| 0 <= i < p.head.len() && #[trigger] p.head[i] == 13 implies i + 1
        < p.head.len() && p.head[i + 1] == 10 by {
        assert(data[i] == p.head[i]);
        if p.gap.len() == 0 {
            assert(p.head =~= data);
        } else {
            assert(p.head[p.head.len() - 1] == 10);
        }
        assert(data[i + 1] == p.head[i + 1]);
    }
}

} // verus!
