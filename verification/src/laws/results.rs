//! What the functions give back for every input, so that the laws hold of their results.
use crate::handler::Job;
use crate::laws::basics::law_joined;
use crate::laws::sections::law_sections_make_up_the_header;
use crate::mail::{
    address_list, address_views, flattened, format_addr, formatted, header_mailboxes, mailbox_views,
    mailboxes_of, parse_addresses, parse_single_addr, render_mailboxes, replace_addresses, replaced,
    single_mailbox, Mailbox, MailboxView, ParsedAddress, ParsedMailbox,
};
use crate::map::{AliasMap, TextMap};
use crate::message::{
    all_lines, field_of, is_loose, sections_of, split_lines, split_message, FieldLines,
    MessageParts,
};
use crate::quoting::{escape, escaped, unescape, unescaped};
use crate::session::{
    command_of, read_command, Command, Next, NextView, Phase, PhaseView, Session, Step,
};
use crate::simplelogin_client::{AliasEntry, Lookup};
use crate::text::{texts, views};
use crate::upstream::Exchange;
use vstd::prelude::*;

verus! {

/// Reading and writing of address headers.
pub proof fn law_address_functions(
    header: &str,
    aliases: &AliasMap,
    boxes: Vec<Mailbox>,
    new: String,
    single: (String, String),
    name: &str,
    address: &str,
    form: String,
)
    ensures
        call_ensures(parse_addresses, (header,), boxes) ==> boxes@.map_values(
            |m: Mailbox| MailboxView { display_name: m.display_name@, address: m.address@ },
        ) == header_mailboxes(header@, address_list(header@)),
        call_ensures(replace_addresses, (header, aliases), new) ==> new@ == replaced(
            header_mailboxes(header@, address_list(header@)),
            aliases@,
        ),
        call_ensures(parse_single_addr, (header,), single) ==> single.0@ == single_mailbox(
            header@,
            address_list(header@),
        ).display_name && single.1@ == single_mailbox(header@, address_list(header@)).address,
        call_ensures(format_addr, (name, address), form) ==> form@ == formatted(name@, address@),
{
    assert(mailbox_views(boxes@) =~= boxes@.map_values(
        |m: Mailbox| MailboxView { display_name: m.display_name@, address: m.address@ },
    ));
    if call_ensures(parse_single_addr, (header,), single) {
        let m = MailboxView { display_name: single.0@, address: single.1@ };
        assert(m == single_mailbox(header@, address_list(header@)));
    }
}

/// The name of a parsed mailbox; empty where it has none.
pub open spec fn parsed_name(m: ParsedMailbox) -> Seq<char> {
    if m.display_name is Some {
        m.display_name->0@
    } else {
        Seq::empty()
    }
}

/// Of a header with a colon whose parsed entries are all single mailboxes, each is given back, in
/// order, with its name and its address.
pub proof fn law_parsed_mailboxes(
    header: &str,
    list: Vec<ParsedAddress>,
    parsed: &Option<Vec<ParsedAddress>>,
    r: Vec<Mailbox>,
)
    requires
        header@.contains(':'),
        *parsed == Some(list),
        forall|i: int| 0 <= i < list@.len() ==> (#[trigger] list@[i]) is Single,
        call_ensures(mailboxes_of, (header, parsed), r),
    ensures
        r@.len() == list@.len(),
        forall|i: int|
            0 <= i < r@.len() ==> (#[trigger] r@[i]).address@ == list@[i]->Single_0.address@
                && r@[i].display_name@ == parsed_name(list@[i]->Single_0),
{
    let all = address_views(list@);
    lemma_singles(list@);
    let found = mailbox_views(r@);
    assert(found == flattened(all));
    assert forall|i: int| 0 <= i < r@.len() implies (#[trigger] r@[i]).address@
        == list@[i]->Single_0.address@ && r@[i].display_name@ == parsed_name(
        list@[i]->Single_0,
    ) by {
        assert(found[i] == r@[i]@);
        assert(found[i] == list@[i]->Single_0@);
    }
}

/// Of a header with a colon whose parsed entry is a group, all members are given back, in order.
pub proof fn law_parsed_groups(
    header: &str,
    group: Vec<ParsedMailbox>,
    parsed: &Option<Vec<ParsedAddress>>,
    r: Vec<Mailbox>,
)
    requires
        header@.contains(':'),
        *parsed is Some,
        (*parsed)->0@ == seq![ParsedAddress::Group(group)],
        call_ensures(mailboxes_of, (header, parsed), r),
    ensures
        r@.len() == group@.len(),
        forall|i: int|
            0 <= i < r@.len() ==> (#[trigger] r@[i]).address@ == group@[i].address@
                && r@[i].display_name@ == parsed_name(group@[i]),
{
    let list = (*parsed)->0@;
    let all = address_views(list);
    assert(all.drop_last() =~= Seq::empty());
    assert(flattened(all.drop_last()) =~= Seq::empty());
    assert(all.last() == list[0]@);
    let want = group@.map_values(|m: ParsedMailbox| m@);
    assert(flattened(all) =~= want);
    let found = mailbox_views(r@);
    assert forall|i: int| 0 <= i < r@.len() implies (#[trigger] r@[i]).address@
        == group@[i].address@ && r@[i].display_name@ == parsed_name(group@[i]) by {
        assert(found[i] == r@[i]@);
        assert(found[i] == group@[i]@);
    }
}

/// Single mailboxes are as many as their entries.
proof fn lemma_singles(list: Seq<ParsedAddress>)
    requires
        forall|i: int| 0 <= i < list.len() ==> (#[trigger] list[i]) is Single,
    ensures
        flattened(address_views(list)).len() == list.len(),
        forall|i: int|
            0 <= i < list.len() ==> #[trigger] flattened(address_views(list))[i]
                == list[i]->Single_0@,
    decreases list.len(),
{
    if list.len() > 0 {
        let init = list.drop_last();
        let n = list.len() - 1;
        assert forall|i: int| 0 <= i < init.len() implies (#[trigger] init[i]) is Single by {
            assert(init[i] == list[i]);
        }
        lemma_singles(init);
        assert(address_views(list).drop_last() =~= address_views(init));
        assert(list[n] is Single);
        assert(address_views(list).last() == list[n]@);
        let all = flattened(address_views(list));
        assert forall|i: int| 0 <= i < list.len() implies #[trigger] all[i]
            == list[i]->Single_0@ by {
            if i < n {
                assert(init[i] == list[i]);
                assert(all[i] == flattened(address_views(init))[i]);
            }
        }
    }
}

/// Mailboxes with addresses of their own are written in order.
pub proof fn law_render(boxes: &Vec<Mailbox>, addresses: &Vec<String>, r: String)
    requires
        boxes@.len() == addresses@.len(),
        boxes@.len() > 0,
        call_ensures(render_mailboxes, (boxes, addresses), r),
    ensures
        r@ == formatted(boxes@[0].display_name@, addresses@[0]@) + Seq::new(
            (boxes@.len() - 1) as nat,
            |i: int|
                seq![',', ' '] + formatted(boxes@[i + 1].display_name@, addresses@[i + 1]@),
        ).flatten(),
{
    reveal_strlit(", ");
    assert(", "@ =~= seq![',', ' ']);
    let forms = Seq::new(
        boxes@.len(),
        |i: int| formatted(boxes@[i].display_name@, addresses@[i]@),
    );
    law_joined(forms, ", "@);
    assert(forms.skip(1).map_values(|p: Seq<char>| ", "@ + p) =~= Seq::new(
        (boxes@.len() - 1) as nat,
        |i: int| seq![',', ' '] + formatted(boxes@[i + 1].display_name@, addresses@[i + 1]@),
    ));
}

/// Escaping, undoing escapes, and login lines.
pub proof fn law_coding_functions(s: &[char], plain: Vec<char>, marked: String)
    ensures
        call_ensures(unescape, (s,), plain) ==> plain@ == unescaped(s@),
        call_ensures(escape, (s,), marked) ==> marked@ == escaped(s@),
{
}

/// A map has a key that was put in, with the value that was put in last, and every other key as
/// before.
pub proof fn law_maps(m: &mut TextMap, key: String, value: String, other: &str, new: TextMap)
    ensures
        call_ensures(TextMap::new, (), new) ==> !new@.contains_key(other@),
        call_ensures(TextMap::insert, (m, key, value), ()) ==> {
            &&& final(m)@.contains_key(key@) && final(m)@[key@] == value@
            &&& other@ != key@ ==> final(m)@.contains_key(other@) == old(m)@.contains_key(other@)
            &&& other@ != key@ && old(m)@.contains_key(other@) ==> final(m)@[other@]
                == old(m)@[other@]
        },
{
}

/// What is looked up in a map is what it holds.
pub proof fn law_map_lookups(m: &TextMap, key: &str, r: Option<&String>)
    requires
        call_ensures(TextMap::get, (m, key), r),
    ensures
        r is Some <==> m@.contains_key(key@),
        r matches Some(v) ==> v@ == m@[key@],
{
}

/// Lines of fields or sections are in order, none is left out.
pub proof fn law_all_lines(fields: Seq<Seq<Seq<u8>>>)
    ensures
        all_lines(fields) == fields.flatten(),
    decreases fields.len(),
{
    if fields.len() > 0 {
        law_all_lines(fields.drop_last());
        fields.drop_last().lemma_flatten_push(fields.last());
        assert(fields.drop_last().push(fields.last()) =~= fields);
    } else {
        assert(all_lines(fields) =~= fields.flatten());
    }
}

/// Taking a message apart loses nothing: its lines make up its bytes, its parts the message, and
/// the lines before the first field and the sections the header.
pub proof fn law_message_functions(
    data: &[u8],
    lines: Vec<Vec<u8>>,
    parts: MessageParts,
    taken: (Vec<Vec<u8>>, Vec<FieldLines>),
    section: &FieldLines,
    field: FieldLines,
)
    ensures
        call_ensures(split_lines, (data,), lines) ==> lines@.map_values(
            |l: Vec<u8>| l@,
        ).flatten() == data@,
        call_ensures(split_message, (data,), parts) ==> parts.head@ + parts.gap@ + parts.body@
            == data@,
        call_ensures(sections_of, (lines,), taken) ==> taken.0@.map_values(|l: Vec<u8>| l@)
            + taken.1@.map_values(|s: FieldLines| views(s@)).flatten() == lines@.map_values(
            |l: Vec<u8>| l@,
        ),
        call_ensures(field_of, (section,), field) ==> views(field@) == views(section@).filter(
            |l: Seq<u8>| l.contains(58) || (l.len() > 0 && (l[0] == 32 || l[0] == 9)),
        ),
{
    crate::laws::message::law_lines_make_up_the_bytes(data@);
    crate::laws::message::law_parts_make_up_the_message(data@);
    assert(views(lines@) =~= lines@.map_values(|l: Vec<u8>| l@));
    law_sections_make_up_the_header(views(lines@));
    assert(views(taken.0@) =~= taken.0@.map_values(|l: Vec<u8>| l@));
    let all = crate::message::field_views(taken.1@);
    assert(all =~= taken.1@.map_values(|s: FieldLines| views(s@)));
    law_all_lines(all);
    assert((|l: Seq<u8>| !is_loose(l)) =~= (|l: Seq<u8>|
        l.contains(58) || (l.len() > 0 && (l[0] == 32 || l[0] == 9))));
}

/// What values stand for: their own fields, each as it is, and lists in order.
pub proof fn law_views(
    s: Session,
    step: Step,
    job: Job,
    m: Mailbox,
    e: Exchange,
    lookup: Lookup,
    entry: AliasEntry,
    parts: MessageParts,
)
    ensures
        s@.secure == s.secure && s@.authed == s.authed && s@.mail_from == s.mail_from@,
        s@.rcpts.len() == s.rcpts@.len(),
        forall|i: int| 0 <= i < s.rcpts@.len() ==> #[trigger] s@.rcpts[i] == s.rcpts@[i]@,
        match s.phase {
            Phase::Command => s@.phase == PhaseView::Command,
            Phase::LoginUser => s@.phase == PhaseView::LoginUser,
            Phase::LoginPassword(name) => s@.phase == PhaseView::LoginPassword(name@),
            Phase::Data(data) => s@.phase == PhaseView::Data(data@),
        },
        step@.replies.len() == step.replies@.len(),
        forall|i: int|
            0 <= i < step.replies@.len() ==> #[trigger] step@.replies[i] == step.replies@[i]@,
        match step.next {
            Next::Listen => step@.next == NextView::Listen,
            Next::Close => step@.next == NextView::Close,
            Next::Relay { mail_from, rcpts, data } => step@.next == (NextView::Relay {
                mail_from: mail_from@,
                rcpts: rcpts@.map_values(|t: String| t@),
                data: data@,
            }),
        },
        job@.mail_from == job.mail_from@ && job@.data == job.data@,
        job@.rcpt_tos == job.rcpt_tos@.map_values(|t: String| t@),
        job@.reverses == job.reverses@.map_values(|t: String| t@),
        job@.lookup is Some <==> job.lookup is Some,
        job.lookup matches Some(l) ==> job@.lookup->0 == l@,
        m@.display_name == m.display_name@ && m@.address == m.address@,
        e@.send == e.send@ && e@.want == e.want && e@.upgrade == e.upgrade,
        lookup@.sender == lookup.sender@ && lookup@.recipient == lookup.recipient@ && lookup@.phase
            == lookup.phase,
        entry@.id == entry.id && entry@.email == entry.email@,
        parts@.head == parts.head@ && parts@.gap == parts.gap@ && parts@.body == parts.body@,
{
    assert(texts(job.rcpt_tos@) =~= job.rcpt_tos@.map_values(|t: String| t@));
    assert(texts(job.reverses@) =~= job.reverses@.map_values(|t: String| t@));
    if let Next::Relay { mail_from, rcpts, data } = step.next {
        assert(texts(rcpts@) =~= rcpts@.map_values(|t: String| t@));
    }
}

/// A line is taken as the session's state says, in every phase.
pub proof fn law_session_steps(
    s: &mut Session,
    line: &str,
    user: &str,
    pass: &str,
    r: Step,
    upper: &str,
    command: Command,
)
    ensures
        call_ensures(Session::take_line, (s, line, user, pass), r) ==> (final(s)@, r@)
            == old(s)@.after(line@, user@, pass@),
        call_ensures(read_command, (line, upper), command) ==> command@ == command_of(
            line@,
            upper@,
        ),
{
}

} // verus!
