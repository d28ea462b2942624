//! What rewriting makes of the fields of a header.
use crate::mail::{address_list, header_mailboxes, present, replaced};
use crate::message::{
    colon, field_name, field_value, is_bcc, is_field, is_from, is_indented, is_to_or_cc,
    lemma_colon, line_end, new_line, plain_field, sender_value,
};
use crate::text::{lemma_first_match_is, matches_at};
use vstd::prelude::*;

verus! {

/// The lines of a field after rewriting; `None` where it is stripped.
pub open spec fn kept_field(
    field: Seq<Seq<u8>>,
    aliases: Map<Seq<char>, Seq<char>>,
    sender: Option<Seq<char>>,
) -> Option<Seq<Seq<u8>>> {
    if is_bcc(field_name(field)) {
        None
    } else {
        match new_line(field, aliases, sender) {
            Some(line) => Some(seq![line]),
            None => Some(field),
        }
    }
}

/// The fields that are left after rewriting.
pub open spec fn kept_fields(
    fields: Seq<Seq<Seq<u8>>>,
    aliases: Map<Seq<char>, Seq<char>>,
    sender: Option<Seq<char>>,
) -> Seq<Seq<Seq<u8>>> {
    present(fields.map_values(|f: Seq<Seq<u8>>| kept_field(f, aliases, sender)))
}

/// What is left of fields ends with what is left of the last.
pub proof fn lemma_kept_push(
    fields: Seq<Seq<Seq<u8>>>,
    field: Seq<Seq<u8>>,
    aliases: Map<Seq<char>, Seq<char>>,
    sender: Option<Seq<char>>,
)
    ensures
        kept_fields(fields.push(field), aliases, sender) == match kept_field(
            field,
            aliases,
            sender,
        ) {
            Some(lines) => kept_fields(fields, aliases, sender).push(lines),
            None => kept_fields(fields, aliases, sender),
        },
{
    let before = fields.map_values(|f: Seq<Seq<u8>>| kept_field(f, aliases, sender));
    let all = fields.push(field).map_values(|f: Seq<Seq<u8>>| kept_field(f, aliases, sender));
    assert(all.drop_last() =~= before);
    assert(all.last() == kept_field(field, aliases, sender));
    match kept_field(field, aliases, sender) {
        Some(lines) => {
            assert(present(all) =~= present(before).push(lines));
        },
        None => {
            assert(present(all) =~= present(before));
        },
    }
}

/// The name of a field on one line is the name that it was made with.
pub proof fn lemma_plain_field(name: Seq<u8>, value: Seq<char>, end: Seq<u8>)
    requires
        !name.contains(58),
    ensures
        field_name(seq![plain_field(name, value, end)]) == name,
        colon(plain_field(name, value, end)) == name.len(),
        is_field(seq![plain_field(name, value, end)]),
        name.len() > 0 ==> plain_field(name, value, end)[0] == name[0],
{
    let line = plain_field(name, value, end);
    assert(line[name.len() as int] == 58);
    assert(line.subrange(name.len() as int, (name.len() + 1) as int) =~= seq![58u8]);
    assert forall|j: int| 0 <= j < name.len() implies !matches_at(line, seq![58u8], j) by {
        if matches_at(line, seq![58u8], j) {
            assert(line.subrange(j, j + 1)[0] == line[j]);
            assert(name[j] == 58);
        }
    }
    lemma_first_match_is(line, seq![58u8], name.len() as int);
    assert(line.take(name.len() as int) =~= name);
}

/// The name of a field holds no colon.
pub proof fn lemma_name_has_no_colon(field: Seq<Seq<u8>>)
    requires
        is_field(field),
    ensures
        !field_name(field).contains(58),
{
    lemma_colon(field[0]);
}

/// What a kept field starts with, and what it is called.
pub proof fn lemma_kept_field(
    field: Seq<Seq<u8>>,
    aliases: Map<Seq<char>, Seq<char>>,
    sender: Option<Seq<char>>,
)
    requires
        is_field(field),
        forall|j: int| 1 <= j < field.len() ==> is_indented(#[trigger] field[j]),
    ensures
        match kept_field(field, aliases, sender) {
            Some(lines) => {
                &&& is_field(lines)
                &&& forall|j: int| 1 <= j < lines.len() ==> is_indented(#[trigger] lines[j])
                &&& !is_indented(field[0]) ==> !is_indented(lines[0])
                &&& field_name(lines) == field_name(field)
                &&& !is_bcc(field_name(lines))
            },
            None => is_bcc(field_name(field)),
        },
{
    let name = field_name(field);
    let value = field_value(field);
    let end = line_end(field[0]);
    lemma_name_has_no_colon(field);
    if is_to_or_cc(name) {
        lemma_plain_field(
            name,
            replaced(header_mailboxes(value, address_list(value)), aliases),
            end,
        );
        assert(name.len() > 0 && !(name[0] == 32 || name[0] == 9));
    } else if is_from(name) && sender is Some && sender_value(
        address_list(value),
        sender->0,
    ) is Some {
        lemma_plain_field(name, sender_value(address_list(value), sender->0)->0, end);
        assert(name.len() > 0 && !(name[0] == 32 || name[0] == 9));
    }
}

/// The fields are as their lines alone tell: each starts with a line that holds a colon and goes
/// on with indented lines, and only the first may start indented.
pub open spec fn well_grouped(fields: Seq<Seq<Seq<u8>>>) -> bool {
    &&& forall|i: int| 0 <= i < fields.len() ==> is_field(#[trigger] fields[i])
    &&& forall|i: int, j: int|
        0 <= i < fields.len() && 1 <= j < fields[i].len() ==> is_indented(#[trigger] fields[i][j])
    &&& forall|i: int| 0 < i < fields.len() ==> !is_indented((#[trigger] fields[i])[0])
}

/// Well-grouped fields are well grouped without the last of them.
pub proof fn lemma_well_grouped_init(fields: Seq<Seq<Seq<u8>>>)
    requires
        well_grouped(fields),
        fields.len() > 0,
    ensures
        well_grouped(fields.drop_last()),
{
    let init = fields.drop_last();
    assert forall|i: int| 0 <= i < init.len() implies is_field(#[trigger] init[i]) by {
        assert(is_field(fields[i]));
    }
    assert forall|i: int, j: int| 0 <= i < init.len() && 1 <= j < init[i].len() implies is_indented(
        #[trigger] init[i][j],
    ) by {
        assert(is_indented(fields[i][j]));
    }
    assert forall|i: int| 0 < i < init.len() implies !is_indented((#[trigger] init[i])[0]) by {
        assert(!is_indented(fields[i][0]));
    }
}

/// The kept fields are well grouped, and none of them is `Bcc`.
pub proof fn lemma_kept_fields(
    fields: Seq<Seq<Seq<u8>>>,
    aliases: Map<Seq<char>, Seq<char>>,
    sender: Option<Seq<char>>,
)
    requires
        well_grouped(fields),
    ensures
        well_grouped(kept_fields(fields, aliases, sender)),
        forall|i: int|
            0 <= i < kept_fields(fields, aliases, sender).len() ==> !is_bcc(
                field_name(#[trigger] kept_fields(fields, aliases, sender)[i]),
            ),
    decreases fields.len(),
{
    let results = fields.map_values(|f: Seq<Seq<u8>>| kept_field(f, aliases, sender));
    if fields.len() > 0 {
        let init = fields.drop_last();
        let n = fields.len() - 1;
        lemma_well_grouped_init(fields);
        lemma_kept_fields(init, aliases, sender);
        assert(results.drop_last() =~= init.map_values(
            |f: Seq<Seq<u8>>| kept_field(f, aliases, sender),
        ));
        assert(is_field(fields[n]));
        assert forall|j: int| 1 <= j < fields[n].len() implies is_indented(
            #[trigger] fields[n][j],
        ) by {}
        lemma_kept_field(fields[n], aliases, sender);
        assert(results.last() == kept_field(fields[n], aliases, sender));
        let kept = present(results);
        let before = present(results.drop_last());
        if init.len() == 0 {
            assert(before.len() == 0);
        } else {
            assert(!is_indented(fields[n][0]));
        }
        assert forall|i: int| 0 <= i < kept.len() implies is_field(#[trigger] kept[i]) by {
            if i < before.len() {
                assert(is_field(before[i]));
            }
        }
        assert forall|i: int, j: int|
            0 <= i < kept.len() && 1 <= j < kept[i].len() implies is_indented(
            #[trigger] kept[i][j],
        ) by {
            if i < before.len() {
                assert(is_indented(before[i][j]));
            }
        }
        assert forall|i: int| 0 < i < kept.len() implies !is_indented((#[trigger] kept[i])[0]) by {
            if i < before.len() {
                assert(!is_indented(before[i][0]));
            }
        }
        assert forall|i: int| 0 <= i < kept.len() implies !is_bcc(
            field_name(#[trigger] kept[i]),
        ) by {
            if i < before.len() {
                assert(!is_bcc(field_name(before[i])));
            }
        }
    }
}

/// What is kept of the fields carries, in order, the names of those that are not `Bcc`.
pub proof fn lemma_kept_names(
    fields: Seq<Seq<Seq<u8>>>,
    aliases: Map<Seq<char>, Seq<char>>,
    sender: Option<Seq<char>>,
)
    requires
        well_grouped(fields),
    ensures
        kept_fields(fields, aliases, sender).map_values(|f: Seq<Seq<u8>>| field_name(f))
            == fields.map_values(|f: Seq<Seq<u8>>| field_name(f)).filter(
            |name: Seq<u8>| !is_bcc(name),
        ),
    decreases fields.len(),
{
    reveal(Seq::filter);
    let results = fields.map_values(|f: Seq<Seq<u8>>| kept_field(f, aliases, sender));
    let names = fields.map_values(|f: Seq<Seq<u8>>| field_name(f));
    let keep = |name: Seq<u8>| !is_bcc(name);
    let kept = kept_fields(fields, aliases, sender);
    if fields.len() > 0 {
        let init = fields.drop_last();
        let last = fields.last();
        let n = fields.len() - 1;
        assert(last == fields[n]);
        lemma_well_grouped_init(fields);
        lemma_kept_names(init, aliases, sender);
        assert(is_field(fields[n]));
        assert forall|j: int| 1 <= j < last.len() implies is_indented(#[trigger] last[j]) by {
            assert(is_indented(fields[n][j]));
        }
        lemma_kept_field(last, aliases, sender);
        assert(results.drop_last() =~= init.map_values(
            |f: Seq<Seq<u8>>| kept_field(f, aliases, sender),
        ));
        assert(names.drop_last() =~= init.map_values(|f: Seq<Seq<u8>>| field_name(f)));
        assert(results.last() == kept_field(last, aliases, sender));
        assert(names.last() == field_name(last));
        let before = kept_fields(init, aliases, sender);
        match kept_field(last, aliases, sender) {
            Some(lines) => {
                assert(kept =~= before.push(lines));
                assert(kept.map_values(|f: Seq<Seq<u8>>| field_name(f)) =~= before.map_values(
                    |f: Seq<Seq<u8>>| field_name(f),
                ).push(field_name(last)));
            },
            None => {
                assert(kept =~= before);
            },
        }
    } else {
        assert(kept.map_values(|f: Seq<Seq<u8>>| field_name(f)) =~= names.filter(keep));
    }
}

/// Each kept field is what rewriting made of one of the fields.
pub proof fn lemma_kept_origin(
    fields: Seq<Seq<Seq<u8>>>,
    aliases: Map<Seq<char>, Seq<char>>,
    sender: Option<Seq<char>>,
    i: int,
)
    requires
        0 <= i < kept_fields(fields, aliases, sender).len(),
    ensures
        exists|j: int|
            0 <= j < fields.len() && kept_field(#[trigger] fields[j], aliases, sender) == Some(
                kept_fields(fields, aliases, sender)[i],
            ),
    decreases fields.len(),
{
    let results = fields.map_values(|f: Seq<Seq<u8>>| kept_field(f, aliases, sender));
    if fields.len() > 0 {
        let init = fields.drop_last();
        let n = fields.len() - 1;
        let before = kept_fields(init, aliases, sender);
        assert(results.drop_last() =~= init.map_values(
            |f: Seq<Seq<u8>>| kept_field(f, aliases, sender),
        ));
        assert(results.last() == kept_field(fields[n], aliases, sender));
        if i < before.len() {
            lemma_kept_origin(init, aliases, sender, i);
            let j = choose|j: int|
                0 <= j < init.len() && kept_field(#[trigger] init[j], aliases, sender) == Some(
                    before[i],
                );
            assert(fields[j] == init[j]);
        } else {
            assert(kept_field(fields[n], aliases, sender) == Some(
                kept_fields(fields, aliases, sender)[i],
            ));
        }
    }
}

/// The fields that are not `Bcc`.
pub open spec fn without_bcc(fields: Seq<Seq<Seq<u8>>>) -> Seq<Seq<Seq<u8>>> {
    fields.filter(|f: Seq<Seq<u8>>| !is_bcc(field_name(f)))
}

/// The kept fields are, one for one, what rewriting made of the fields that are not `Bcc`.
pub proof fn lemma_kept_is_without_bcc(
    fields: Seq<Seq<Seq<u8>>>,
    aliases: Map<Seq<char>, Seq<char>>,
    sender: Option<Seq<char>>,
)
    ensures
        kept_fields(fields, aliases, sender).len() == without_bcc(fields).len(),
        forall|i: int|
            0 <= i < without_bcc(fields).len() ==> kept_field(
                #[trigger] without_bcc(fields)[i],
                aliases,
                sender,
            ) == Some(kept_fields(fields, aliases, sender)[i]) && fields.contains(
                without_bcc(fields)[i],
            ),
    decreases fields.len(),
{
    reveal(Seq::filter);
    let results = fields.map_values(|f: Seq<Seq<u8>>| kept_field(f, aliases, sender));
    if fields.len() > 0 {
        let init = fields.drop_last();
        let n = fields.len() - 1;
        lemma_kept_is_without_bcc(init, aliases, sender);
        assert(results.drop_last() =~= init.map_values(
            |f: Seq<Seq<u8>>| kept_field(f, aliases, sender),
        ));
        assert(results.last() == kept_field(fields[n], aliases, sender));
        let before = without_bcc(init);
        let all = without_bcc(fields);
        assert(all == if is_bcc(field_name(fields[n])) {
            before
        } else {
            before.push(fields[n])
        });
        assert forall|i: int| 0 <= i < all.len() implies kept_field(
            #[trigger] all[i],
            aliases,
            sender,
        ) == Some(kept_fields(fields, aliases, sender)[i]) && fields.contains(all[i]) by {
            if i < before.len() {
                assert(all[i] == before[i]);
                let k = choose|k: int| 0 <= k < init.len() && init[k] == before[i];
                assert(fields[k] == all[i]);
            } else {
                assert(fields[n] == all[i]);
            }
        }
    }
}

} // verus!
