//! Laws of header sections: they hold every line of a header, and their fields are the header's.
use crate::laws::fields::{kept_field, kept_fields, lemma_kept_field, lemma_kept_push};
use crate::message::{
    all_lines, field_name, is_bcc, is_field, is_indented, is_loose, lemma_section_field,
    loose_lines, new_line, preface, rewritten_lines, rewritten_section, rewritten_sections, section_field,
    sections,
};
use vstd::prelude::*;

verus! {

/// The fields that the lines of a header form, told line by line: a line with a colon starts one,
/// indented lines continue the last.
pub open spec fn grouped(lines: Seq<Seq<u8>>) -> Seq<Seq<Seq<u8>>>
    decreases lines.len(),
{
    if lines.len() == 0 {
        Seq::empty()
    } else {
        let fields = grouped(lines.drop_last());
        let line = lines.last();
        if is_indented(line) && fields.len() > 0 {
            fields.drop_last().push(fields.last().push(line))
        } else if line.contains(58) {
            fields.push(seq![line])
        } else {
            fields
        }
    }
}

/// The first line starts a field, and no other does.
pub open spec fn is_section(section: Seq<Seq<u8>>) -> bool {
    &&& is_field(section)
    &&& forall|j: int|
        1 <= j < section.len() ==> is_indented(#[trigger] section[j]) || !section[j].contains(58)
}

/// Sections as a header has them: only the first may start indented.
pub open spec fn are_sections(all: Seq<Seq<Seq<u8>>>) -> bool {
    &&& forall|i: int| 0 <= i < all.len() ==> is_section(#[trigger] all[i])
    &&& forall|i: int| 0 < i < all.len() ==> !is_indented((#[trigger] all[i])[0])
}

/// No line holds a colon.
pub open spec fn lack_colons(lines: Seq<Seq<u8>>) -> bool {
    forall|i: int| 0 <= i < lines.len() ==> !(#[trigger] lines[i]).contains(58)
}

/// The lines of fields end with those of the last of them.
pub proof fn lemma_all_lines_push(fields: Seq<Seq<Seq<u8>>>, field: Seq<Seq<u8>>)
    ensures
        all_lines(fields.push(field)) == all_lines(fields) + field,
{
    assert(fields.push(field).drop_last() =~= fields);
}

/// Sections without the last of them are sections.
pub proof fn lemma_sections_init(all: Seq<Seq<Seq<u8>>>)
    requires
        are_sections(all),
        all.len() > 0,
    ensures
        are_sections(all.drop_last()),
        is_section(all.last()),
        all.len() > 1 ==> !is_indented(all.last()[0]),
{
    let init = all.drop_last();
    assert(is_section(all[all.len() - 1]));
    assert forall|i: int| 0 <= i < init.len() implies is_section(#[trigger] init[i]) by {
        assert(init[i] == all[i]);
    }
    assert forall|i: int| 0 < i < init.len() implies !is_indented((#[trigger] init[i])[0]) by {
        assert(init[i] == all[i]);
    }
    if all.len() > 1 {
        assert(!is_indented(all[all.len() - 1][0]));
    }
}

/// The lines before the first field and the sections make up a header, in order.
pub proof fn law_sections_make_up_the_header(lines: Seq<Seq<u8>>)
    ensures
        preface(lines) + all_lines(sections(lines)) == lines,
        lack_colons(preface(lines)),
        are_sections(sections(lines)),
    decreases lines.len(),
{
    let all = sections(lines);
    if lines.len() > 0 {
        let init = lines.drop_last();
        let line = lines.last();
        let before = sections(init);
        law_sections_make_up_the_header(init);
        if line.contains(58) && (before.len() == 0 || !is_indented(line)) {
            lemma_all_lines_push(before, seq![line]);
            assert(preface(lines) == preface(init));
            assert(preface(lines) + all_lines(all) =~= init + seq![line]);
            assert(init + seq![line] =~= lines);
            assert forall|i: int| 0 <= i < all.len() implies is_section(#[trigger] all[i]) by {
                if i < before.len() {
                    assert(all[i] == before[i]);
                }
            }
        } else if before.len() > 0 {
            let last = before.last();
            lemma_sections_init(before);
            lemma_all_lines_push(before.drop_last(), last.push(line));
            assert(preface(lines) == preface(init));
            assert(all_lines(before) == all_lines(before.drop_last()) + last);
            assert(preface(lines) + all_lines(all) =~= init + seq![line]);
            assert(init + seq![line] =~= lines);
            assert forall|i: int| 0 <= i < all.len() implies is_section(#[trigger] all[i]) by {
                if i < before.len() - 1 {
                    assert(all[i] == before[i]);
                } else {
                    assert(all[i] == last.push(line));
                    assert(all[i][0] == last[0]);
                    assert forall|j: int| 1 <= j < all[i].len() implies is_indented(
                        #[trigger] all[i][j],
                    ) || !all[i][j].contains(58) by {
                        if j < last.len() {
                            assert(all[i][j] == last[j]);
                        }
                    }
                }
            }
            assert forall|i: int| 0 < i < all.len() implies !is_indented(
                (#[trigger] all[i])[0],
            ) by {
                assert(all[i][0] == before[i][0]);
            }
        } else {
            assert(preface(init) == init);
            assert(lines =~= init.push(line));
            assert(preface(lines) + all_lines(all) =~= lines);
            assert forall|i: int| 0 <= i < lines.len() implies !(#[trigger] lines[i]).contains(
                58,
            ) by {
                if i < init.len() {
                    assert(lines[i] == init[i]);
                }
            }
        }
    } else {
        assert(preface(lines) + all_lines(all) =~= lines);
    }
}

/// What a section's field is made of: its first line and the indented ones.
pub proof fn lemma_field_of_section(section: Seq<Seq<u8>>)
    requires
        is_section(section),
    ensures
        is_field(section_field(section)),
        section_field(section)[0] == section[0],
        forall|j: int|
            1 <= j < section_field(section).len() ==> is_indented(
                #[trigger] section_field(section)[j],
            ),
    decreases section.len(),
{
    reveal(Seq::filter);
    lemma_section_field(section);
    let init = section.drop_last();
    let field = section_field(section);
    let before = section_field(init);
    if section.len() > 1 {
        assert forall|j: int| 1 <= j < init.len() implies is_indented(#[trigger] init[j])
            || !init[j].contains(58) by {
            assert(init[j] == section[j]);
        }
        assert(is_field(init));
        lemma_field_of_section(init);
        let line = section[section.len() - 1];
        assert(is_indented(line) || !line.contains(58));
        assert forall|j: int| 1 <= j < field.len() implies is_indented(#[trigger] field[j]) by {
            if j < before.len() {
                assert(field[j] == before[j]);
            }
        }
    } else {
        assert(before.len() == 0);
    }
}

/// Lines without colons form no field.
proof fn lemma_no_fields(lines: Seq<Seq<u8>>)
    requires
        lack_colons(lines),
    ensures
        grouped(lines).len() == 0,
    decreases lines.len(),
{
    if lines.len() > 0 {
        let init = lines.drop_last();
        assert forall|i: int| 0 <= i < init.len() implies !(#[trigger] init[i]).contains(58) by {
            assert(init[i] == lines[i]);
        }
        lemma_no_fields(init);
        assert(!lines[lines.len() - 1].contains(58));
    }
}

/// A section after other lines adds its field to theirs.
proof fn lemma_grouped_section(lines: Seq<Seq<u8>>, section: Seq<Seq<u8>>)
    requires
        is_section(section),
        grouped(lines).len() > 0 ==> !is_indented(section[0]),
    ensures
        grouped(lines + section) == grouped(lines).push(section_field(section)),
    decreases section.len(),
{
    reveal(Seq::filter);
    let init = section.drop_last();
    let line = section.last();
    let all = lines + section;
    assert(all.drop_last() =~= lines + init);
    assert(all.last() == line);
    if section.len() > 1 {
        assert forall|j: int| 1 <= j < init.len() implies is_indented(#[trigger] init[j])
            || !init[j].contains(58) by {
            assert(init[j] == section[j]);
        }
        assert(init[0] == section[0]);
        lemma_grouped_section(lines, init);
        assert(line == section[section.len() - 1]);
        let before = grouped(lines).push(section_field(init));
        assert(before.drop_last() =~= grouped(lines));
        assert(grouped(all) =~= grouped(lines).push(section_field(section)));
    } else {
        assert(lines + init =~= lines);
        assert(section_field(init).len() == 0);
        assert(section_field(section) =~= seq![line]);
        assert(grouped(all) =~= grouped(lines).push(section_field(section)));
    }
}

/// Loose lines after other lines change none of their fields.
proof fn lemma_grouped_loose(lines: Seq<Seq<u8>>, loose: Seq<Seq<u8>>)
    requires
        forall|i: int| 0 <= i < loose.len() ==> is_loose(#[trigger] loose[i]),
    ensures
        grouped(lines + loose) == grouped(lines),
    decreases loose.len(),
{
    if loose.len() > 0 {
        let init = loose.drop_last();
        assert forall|i: int| 0 <= i < init.len() implies is_loose(#[trigger] init[i]) by {
            assert(init[i] == loose[i]);
        }
        lemma_grouped_loose(lines, init);
        assert((lines + loose).drop_last() =~= lines + init);
        assert(is_loose(loose[loose.len() - 1]));
    } else {
        assert(lines + loose =~= lines);
    }
}

/// The fields of sections after lines without a colon.
proof fn lemma_grouped_sections(start: Seq<Seq<u8>>, all: Seq<Seq<Seq<u8>>>)
    requires
        lack_colons(start),
        are_sections(all),
    ensures
        grouped(start + all_lines(all)) == all.map_values(|s: Seq<Seq<u8>>| section_field(s)),
    decreases all.len(),
{
    let fields = all.map_values(|s: Seq<Seq<u8>>| section_field(s));
    lemma_no_fields(start);
    if all.len() > 0 {
        let init = all.drop_last();
        lemma_sections_init(all);
        lemma_grouped_sections(start, init);
        lemma_grouped_section(start + all_lines(init), all.last());
        assert(start + all_lines(init) + all.last() =~= start + all_lines(all));
        assert(fields =~= init.map_values(|s: Seq<Seq<u8>>| section_field(s)).push(
            section_field(all.last()),
        ));
    } else {
        assert(start + all_lines(all) =~= start);
        assert(fields =~= grouped(start));
    }
}

/// The fields of a header are the fields of its sections.
pub proof fn law_sections_hold_the_fields(lines: Seq<Seq<u8>>)
    ensures
        grouped(lines) == sections(lines).map_values(|s: Seq<Seq<u8>>| section_field(s)),
{
    law_sections_make_up_the_header(lines);
    lemma_grouped_sections(preface(lines), sections(lines));
}

/// The lines that are loose are.
pub proof fn lemma_loose_lines(section: Seq<Seq<u8>>)
    ensures
        forall|i: int|
            0 <= i < loose_lines(section).len() ==> is_loose(#[trigger] loose_lines(section)[i])
                && section.contains(loose_lines(section)[i]),
    decreases section.len(),
{
    reveal(Seq::filter);
    if section.len() > 0 {
        let init = section.drop_last();
        let n = section.len() - 1;
        lemma_loose_lines(init);
        let before = loose_lines(init);
        let all = loose_lines(section);
        assert forall|i: int| 0 <= i < all.len() implies is_loose(#[trigger] all[i])
            && section.contains(all[i]) by {
            if i < before.len() {
                assert(all[i] == before[i]);
                let k = choose|k: int| 0 <= k < init.len() && init[k] == before[i];
                assert(section[k] == all[i]);
            } else {
                assert(section[n] == all[i]);
            }
        }
    }
}

/// The fields of rewritten sections are the fields that are kept.
proof fn lemma_grouped_rewritten(
    start: Seq<Seq<u8>>,
    all: Seq<Seq<Seq<u8>>>,
    aliases: Map<Seq<char>, Seq<char>>,
    sender: Option<Seq<char>>,
)
    requires
        lack_colons(start),
        are_sections(all),
    ensures
        grouped(
            start + all_lines(
                all.map_values(|s: Seq<Seq<u8>>| rewritten_section(s, aliases, sender)),
            ),
        ) == kept_fields(all.map_values(|s: Seq<Seq<u8>>| section_field(s)), aliases, sender),
    decreases all.len(),
{
    let fields = all.map_values(|s: Seq<Seq<u8>>| section_field(s));
    let news = all.map_values(|s: Seq<Seq<u8>>| rewritten_section(s, aliases, sender));
    lemma_no_fields(start);
    if all.len() > 0 {
        let init = all.drop_last();
        let section = all.last();
        let field = section_field(section);
        let before = init.map_values(|s: Seq<Seq<u8>>| section_field(s));
        let old_news = init.map_values(|s: Seq<Seq<u8>>| rewritten_section(s, aliases, sender));
        let lines = start + all_lines(old_news);
        let new = rewritten_section(section, aliases, sender);
        lemma_sections_init(all);
        lemma_grouped_rewritten(start, init, aliases, sender);
        if init.len() == 0 {
            assert(lines =~= start);
        }
        assert(news =~= old_news.push(new));
        lemma_all_lines_push(old_news, new);
        assert(start + all_lines(news) =~= lines + new);
        assert(fields =~= before.push(field));
        lemma_kept_push(before, field, aliases, sender);
        lemma_field_of_section(section);
        lemma_kept_field(field, aliases, sender);
        lemma_loose_lines(section);
        if is_bcc(field_name(field)) {
            lemma_grouped_loose(lines, loose_lines(section));
        } else if new_line(field, aliases, sender) is Some {
            let line = new_line(field, aliases, sender)->0;
            let one = seq![line];
            assert(kept_field(field, aliases, sender) == Some(one));
            lemma_one_line_section(one);
            lemma_grouped_section(lines, one);
            lemma_grouped_loose(lines + one, loose_lines(section));
            assert(lines + one + loose_lines(section) =~= lines + new);
        } else {
            lemma_grouped_section(lines, section);
        }
    } else {
        assert(start + all_lines(news) =~= start);
        assert(kept_fields(fields, aliases, sender) =~= grouped(start));
    }
}

/// A section of one line is its field.
proof fn lemma_one_line_section(one: Seq<Seq<u8>>)
    requires
        is_field(one),
        one.len() == 1,
    ensures
        is_section(one),
        section_field(one) == one,
{
    reveal(Seq::filter);
    assert(section_field(one.drop_last()).len() == 0);
    assert(one.last() == one[0]);
    assert(section_field(one) =~= one);
}

/// The fields of a header after rewriting are the fields that are kept.
pub proof fn lemma_rewritten_fields(
    lines: Seq<Seq<u8>>,
    aliases: Map<Seq<char>, Seq<char>>,
    sender: Option<Seq<char>>,
)
    ensures
        grouped(rewritten_lines(lines, aliases, sender)) == kept_fields(
            grouped(lines),
            aliases,
            sender,
        ),
{
    law_sections_make_up_the_header(lines);
    law_sections_hold_the_fields(lines);
    lemma_grouped_rewritten(preface(lines), sections(lines), aliases, sender);
}

/// Where a line of fields or sections stands.
pub proof fn lemma_place(all: Seq<Seq<Seq<u8>>>, i: int) -> (at: (int, int))
    requires
        0 <= i < all_lines(all).len(),
    ensures
        0 <= at.0 < all.len(),
        0 <= at.1 < all[at.0].len(),
        all[at.0][at.1] == all_lines(all)[i],
    decreases all.len(),
{
    let init = all_lines(all.drop_last());
    if i < init.len() {
        lemma_place(all.drop_last(), i)
    } else {
        (all.len() - 1, i - init.len())
    }
}

/// The lines of a field or section are among the lines of all.
pub proof fn lemma_line_of_field(fields: Seq<Seq<Seq<u8>>>, j: int, k: int)
    requires
        0 <= j < fields.len(),
        0 <= k < fields[j].len(),
    ensures
        all_lines(fields).contains(fields[j][k]),
    decreases fields.len(),
{
    let init = all_lines(fields.drop_last());
    if j < fields.len() - 1 {
        lemma_line_of_field(fields.drop_last(), j, k);
        let i = choose|i: int| 0 <= i < init.len() && init[i] == fields[j][k];
        assert(all_lines(fields)[i] == fields[j][k]);
    } else {
        assert(all_lines(fields)[init.len() + k] == fields[j][k]);
    }
}

/// A line of a section of a header is a line of the header.
pub proof fn lemma_line_of_section(lines: Seq<Seq<u8>>, k: int, j: int)
    requires
        0 <= k < sections(lines).len(),
        0 <= j < sections(lines)[k].len(),
    ensures
        lines.contains(sections(lines)[k][j]),
{
    let all = sections(lines);
    law_sections_make_up_the_header(lines);
    lemma_line_of_field(all, k, j);
    let i = choose|i: int| 0 <= i < all_lines(all).len() && all_lines(all)[i] == all[k][j];
    assert(lines[preface(lines).len() + i] == all[k][j]);
}

/// A line of the header after rewriting was one before, or it is what a field became.
pub proof fn lemma_origin(
    lines: Seq<Seq<u8>>,
    aliases: Map<Seq<char>, Seq<char>>,
    sender: Option<Seq<char>>,
    i: int,
)
    requires
        0 <= i < rewritten_lines(lines, aliases, sender).len(),
    ensures
        lines.contains(rewritten_lines(lines, aliases, sender)[i]) || exists|k: int|
            0 <= k < sections(lines).len() && new_line(
                section_field(#[trigger] sections(lines)[k]),
                aliases,
                sender,
            ) == Some(rewritten_lines(lines, aliases, sender)[i]),
{
    let start = preface(lines);
    let all = sections(lines);
    let news = rewritten_sections(lines, aliases, sender);
    let line = rewritten_lines(lines, aliases, sender)[i];
    law_sections_make_up_the_header(lines);
    if i < start.len() {
        assert(lines[i] == line);
    } else {
        let at = lemma_place(news, i - start.len());
        let section = all[at.0];
        assert(news[at.0] == rewritten_section(section, aliases, sender));
        lemma_loose_lines(section);
        if section.contains(line) {
            let j = choose|j: int| 0 <= j < section.len() && section[j] == line;
            lemma_line_of_section(lines, at.0, j);
        } else if at.1 > 0 {
            assert(line == loose_lines(section)[at.1 - 1]);
        }
    }
}

} // verus!
