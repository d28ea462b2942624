//! Address headers: parsing, formatting and replacing of mailboxes.
use crate::chars::{chars_of, is_space, text_of, trim, trimmed, CharClass};
use crate::map::AliasMap;
use crate::quoting::{
    enclosed_end, enclosed_len, entries, escape, escaped, find_outside, is_quoted_string,
    lemma_token_len, outside, split_entries, unescape, unescaped,
};
use crate::text::{
    copy_range, find, first_match, join, joined, last_index, pieces, rfind, split, views,
};
use vstd::prelude::*;
use vstd::string::StringExecFns;

verus! {

/// One mailbox of an address header. The display name is empty where there is none.
#[derive(Debug, Clone, PartialEq, Eq)]
pub struct Mailbox {
    pub display_name: String,
    pub address: String,
}

/// What a [`Mailbox`] holds.
#[verifier::ext_equal]
pub struct MailboxView {
    pub display_name: Seq<char>,
    pub address: Seq<char>,
}

impl View for Mailbox {
    type V = MailboxView;

    open spec fn view(&self) -> MailboxView {
        MailboxView { display_name: self.display_name@, address: self.address@ }
    }
}

/// A mailbox as the strict address parser gives it.
pub struct ParsedMailbox {
    pub display_name: Option<String>,
    pub address: String,
}

impl View for ParsedMailbox {
    type V = MailboxView;

    open spec fn view(&self) -> MailboxView {
        MailboxView {
            display_name: match self.display_name {
                Some(name) => name@,
                None => Seq::empty(),
            },
            address: self.address@,
        }
    }
}

/// An entry of an address header as the strict address parser gives it.
pub enum ParsedAddress {
    Single(ParsedMailbox),
    Group(Vec<ParsedMailbox>),
}

/// What a [`ParsedAddress`] holds.
pub enum AddressView {
    Single(MailboxView),
    Group(Seq<MailboxView>),
}

impl View for ParsedAddress {
    type V = AddressView;

    open spec fn view(&self) -> AddressView {
        match self {
            ParsedAddress::Single(m) => AddressView::Single(m@),
            ParsedAddress::Group(members) => AddressView::Group(
                members@.map_values(|m: ParsedMailbox| m@),
            ),
        }
    }
}

/// What a list of parsed entries holds.
pub open spec fn address_views(list: Seq<ParsedAddress>) -> Seq<AddressView> {
    list.map_values(|a: ParsedAddress| a@)
}

/// What the address parser read, if it read anything.
pub open spec fn optional_views(parsed: Option<Vec<ParsedAddress>>) -> Option<Seq<AddressView>> {
    match parsed {
        Some(list) => Some(address_views(list@)),
        None => None,
    }
}

/// What a list of mailboxes holds.
pub open spec fn mailbox_views(list: Seq<Mailbox>) -> Seq<MailboxView> {
    list.map_values(|m: Mailbox| m@)
}

/// Why `mailparse` refused an address header.
#[verifier::external_type_specification]
#[verifier::external_body]
pub struct ExMailParseError(mailparse::MailParseError);

/// The entries that `mailparse` reads in a text; `None` where it refuses the text.
pub uninterp spec fn parsed_addresses(text: Seq<char>) -> Option<Seq<AddressView>>;

/// A character that means something to an address parser.
pub open spec fn is_delimiter(c: char) -> bool {
    is_space(c) || c == '"' || c == '<' || c == '>' || c == ',' || c == ';' || c == ':' || c == '('
        || c == ')' || c == '\\'
}

/// An address and nothing else: it holds an `@` and no delimiter.
pub open spec fn is_bare_address(text: Seq<char>) -> bool {
    text.contains('@') && forall|i: int| 0 <= i < text.len() ==> !is_delimiter(#[trigger] text[i])
}

/// Every character of the mailbox occurs in the text.
pub open spec fn is_drawn_from(m: MailboxView, text: Seq<char>) -> bool {
    &&& forall|c: char| #[trigger] m.display_name.contains(c) ==> text.contains(c)
    &&& forall|c: char| #[trigger] m.address.contains(c) ==> text.contains(c)
}

/// Every character of the mailboxes occurs in the text.
pub open spec fn are_drawn_from(boxes: Seq<MailboxView>, text: Seq<char>) -> bool {
    forall|i: int| 0 <= i < boxes.len() ==> is_drawn_from(#[trigger] boxes[i], text)
}

/// The entries of an address header: a bare address stands for itself, any other text is read by
/// `mailparse`, whose mailboxes hold characters of the text only.
pub open spec fn address_list(text: Seq<char>) -> Option<Seq<AddressView>> {
    if is_bare_address(text) {
        Some(
            seq![AddressView::Single(MailboxView { display_name: Seq::empty(), address: text })],
        )
    } else {
        match parsed_addresses(text) {
            Some(list) => if are_drawn_from(flattened(list), text) {
                Some(list)
            } else {
                None
            },
            None => None,
        }
    }
}

/// `mailparse::addrparse`: a bare address is one mailbox without a display name; of any other
/// text the result is a function of the text alone. Display names and addresses hold no character
/// that does not occur in the text.
#[verifier::external_body]
pub(crate) fn read_addresses(text: &str) -> (r: Result<Vec<ParsedAddress>, mailparse::MailParseError>)
    ensures
        match r {
            Ok(list) => are_drawn_from(flattened(address_views(list@)), text@) && Some(
                address_views(list@),
            ) == if is_bare_address(text@) {
                address_list(text@)
            } else {
                parsed_addresses(text@)
            },
            Err(_) => !is_bare_address(text@) && parsed_addresses(text@) is None,
        },
{
    let single = |i: mailparse::SingleInfo| ParsedMailbox {
        display_name: i.display_name,
        address: i.addr,
    };
    let entry = |a: mailparse::MailAddr| match a {
        mailparse::MailAddr::Single(i) => ParsedAddress::Single(single(i)),
        mailparse::MailAddr::Group(g) => ParsedAddress::Group(
            g.addrs.into_iter().map(single).collect(),
        ),
    };
    Ok(mailparse::addrparse(text)?.into_inner().into_iter().map(entry).collect())
}

/// The display name that stands before an address: the content of a quoted string, or the text
/// itself, without quotes around it.
pub open spec fn display_name_of(text: Seq<char>) -> Seq<char> {
    let bare = trimmed(text, CharClass::Whitespace);
    if is_quoted_string(bare) {
        unescaped(bare.subrange(1, bare.len() - 1))
    } else {
        trimmed(bare, CharClass::Quote)
    }
}

/// The mailbox of a text that holds an address in angle brackets: the address stands between the
/// last `<` and the first `>` after it, the display name before it.
pub open spec fn angle_mailbox(text: Seq<char>) -> Option<MailboxView> {
    match last_index(text, '<') {
        Some(start) => match first_match(text.skip(start + 1), seq!['>']) {
            Some(len) => Some(
                MailboxView {
                    display_name: display_name_of(text.take(start)),
                    address: trimmed(
                        text.subrange(start + 1, start + 1 + len),
                        CharClass::Whitespace,
                    ),
                },
            ),
            None => None,
        },
        None => None,
    }
}

/// The mailbox of an address with a comment after it: the comment is the display name.
pub open spec fn commented_mailbox(text: Seq<char>) -> Option<MailboxView> {
    match outside(text, '(') {
        Some(i) => {
            let address = trimmed(text.take(i), CharClass::Whitespace);
            if address.len() > 0 && enclosed_len(text.skip(i)) == Some(text.len() - i) {
                Some(
                    MailboxView {
                        display_name: trimmed(
                            unescaped(text.subrange(i + 1, text.len() - 1)),
                            CharClass::Whitespace,
                        ),
                        address,
                    },
                )
            } else {
                None
            }
        },
        None => None,
    }
}

/// The mailbox of one entry of a comma-separated list; `None` where the entry is blank.
pub open spec fn entry_mailbox(part: Seq<char>) -> Option<MailboxView> {
    let bare = trimmed(part, CharClass::Whitespace);
    if bare.len() == 0 {
        None
    } else if angle_mailbox(bare) is Some {
        angle_mailbox(bare)
    } else if commented_mailbox(bare) is Some {
        commented_mailbox(bare)
    } else {
        Some(MailboxView { display_name: Seq::empty(), address: bare })
    }
}

/// The mailbox of one entry of a comma-separated list whose parts are not looked into.
pub open spec fn opaque_mailbox(part: Seq<char>) -> Option<MailboxView> {
    let bare = trimmed(part, CharClass::Whitespace);
    if bare.len() == 0 {
        None
    } else {
        Some(MailboxView { display_name: Seq::empty(), address: bare })
    }
}

/// The values among the options, in order.
pub open spec fn present<A>(s: Seq<Option<A>>) -> Seq<A>
    decreases s.len(),
{
    if s.len() == 0 {
        Seq::empty()
    } else {
        present(s.drop_last()) + match s.last() {
            Some(a) => seq![a],
            None => Seq::empty(),
        }
    }
}

/// The mailboxes of a comma-separated list. Commas inside quoted strings and comments separate
/// nothing.
pub open spec fn listed_mailboxes(header: Seq<char>) -> Seq<MailboxView> {
    present(entries(header).map_values(|part: Seq<char>| entry_mailbox(part)))
}

/// The mailboxes of a list that is split at every comma and whose entries are not looked into.
pub open spec fn opaque_mailboxes(header: Seq<char>) -> Seq<MailboxView> {
    present(pieces(header, seq![',']).map_values(|part: Seq<char>| opaque_mailbox(part)))
}

/// The mailboxes of one parsed entry: a group stands for its members.
pub open spec fn members(a: AddressView) -> Seq<MailboxView> {
    match a {
        AddressView::Single(m) => seq![m],
        AddressView::Group(g) => g,
    }
}

/// The mailboxes of a list of parsed entries, with groups flattened.
pub open spec fn flattened(list: Seq<AddressView>) -> Seq<MailboxView>
    decreases list.len(),
{
    if list.len() == 0 {
        Seq::empty()
    } else {
        flattened(list.drop_last()) + members(list.last())
    }
}

/// The mailboxes of an address header. A header without a colon is a comma-separated list; any
/// other is what the strict parser read in it, or an opaque list where that refused it.
pub open spec fn header_mailboxes(header: Seq<char>, parsed: Option<Seq<AddressView>>) -> Seq<
    MailboxView,
> {
    if !header.contains(':') {
        listed_mailboxes(header)
    } else {
        match parsed {
            Some(list) => flattened(list),
            None => opaque_mailboxes(header),
        }
    }
}

/// The display name and the address of a text that stands for one mailbox. An address in angle
/// brackets comes first; then the first mailbox that the strict parser read; then the text itself.
pub open spec fn single_mailbox(text: Seq<char>, parsed: Option<Seq<AddressView>>) -> MailboxView {
    let whole = MailboxView {
        display_name: Seq::empty(),
        address: trimmed(text, CharClass::Whitespace),
    };
    match angle_mailbox(text) {
        Some(m) => m,
        None => match parsed {
            Some(list) => if list.len() > 0 && members(list[0]).len() > 0 {
                members(list[0])[0]
            } else {
                whole
            },
            None => whole,
        },
    }
}

/// A character that a display name must be quoted for.
pub open spec fn is_special(c: char) -> bool {
    c == '(' || c == ')' || c == '<' || c == '>' || c == '@' || c == ',' || c == ';' || c == ':'
        || c == '\\' || c == '"' || c == '.' || c == '[' || c == ']'
}

/// A mailbox as it stands in a header.
pub open spec fn formatted(name: Seq<char>, addr: Seq<char>) -> Seq<char> {
    if name.len() == 0 {
        addr
    } else if exists|i: int| 0 <= i < name.len() && is_special(#[trigger] name[i]) {
        "\""@ + escaped(name) + "\" <"@ + addr + ">"@
    } else {
        name + " <"@ + addr + ">"@
    }
}

/// The address that stands for `address`: the bare address of its reverse alias, or itself where
/// it has none.
pub open spec fn replacement(address: Seq<char>, aliases: Map<Seq<char>, Seq<char>>) -> Seq<char> {
    if aliases.contains_key(address) {
        let reverse = aliases[address];
        single_mailbox(reverse, address_list(reverse)).address
    } else {
        address
    }
}

/// The mailboxes as a header: each with its display name and the address that stands for its own.
pub open spec fn replaced(boxes: Seq<MailboxView>, aliases: Map<Seq<char>, Seq<char>>) -> Seq<
    char,
> {
    joined(
        boxes.map_values(
            |m: MailboxView| formatted(m.display_name, replacement(m.address, aliases)),
        ),
        ", "@,
    )
}

/// The display name that stands before an address.
fn read_display_name(text: &[char]) -> (r: String)
    ensures
        r@ == display_name_of(text@),
{
    let bare = trim(text, CharClass::Whitespace);
    let n: usize = bare.len();
    if n > 0 && bare[0] == '"' {
        assert(bare@.skip(0) =~= bare@);
        match enclosed_end(bare.as_slice(), 0) {
            Some(end) => {
                if end == n {
                    proof {
                        lemma_token_len(bare@);
                    }
                    let inner = copy_range(bare.as_slice(), 1, n - 1);
                    return text_of(unescape(inner.as_slice()).as_slice());
                }
            },
            None => {},
        }
    }
    text_of(trim(bare.as_slice(), CharClass::Quote).as_slice())
}

/// The mailbox of an address with a comment after it.
fn commented_form(text: &[char]) -> (r: Option<Mailbox>)
    ensures
        match r {
            Some(m) => commented_mailbox(text@) == Some(m@),
            None => commented_mailbox(text@) is None,
        },
{
    assert(text@.skip(0) =~= text@);
    match find_outside(text, 0, '(') {
        Some(i) => {
            let before = copy_range(text, 0, i);
            assert(before@ =~= text@.take(i as int));
            let address = trim(before.as_slice(), CharClass::Whitespace);
            if address.len() == 0 {
                return None;
            }
            match enclosed_end(text, i) {
                Some(end) => {
                    if end != text.len() {
                        return None;
                    }
                    proof {
                        lemma_token_len(text@.skip(i as int));
                    }
                    let inner = copy_range(text, i + 1, end - 1);
                    let name = unescape(inner.as_slice());
                    Some(
                        Mailbox {
                            display_name: text_of(
                                trim(name.as_slice(), CharClass::Whitespace).as_slice(),
                            ),
                            address: text_of(address.as_slice()),
                        },
                    )
                },
                None => None,
            }
        },
        None => None,
    }
}

/// The mailbox of a text that holds an address in angle brackets.
fn angle_form(text: &[char]) -> (r: Option<Mailbox>)
    ensures
        match r {
            Some(m) => angle_mailbox(text@) == Some(m@),
            None => angle_mailbox(text@) is None,
        },
{
    let close: Vec<char> = vec!['>'];
    assert(close@ =~= seq!['>']);
    match rfind(text, '<') {
        Some(start) => {
            let rest = copy_range(text, start + 1, text.len());
            assert(rest@ =~= text@.skip(start + 1));
            match find(rest.as_slice(), close.as_slice()) {
                Some(len) => {
                    let before = copy_range(text, 0, start);
                    assert(before@ =~= text@.take(start as int));
                    let inner = copy_range(text, start + 1, start + 1 + len);
                    let addr = trim(inner.as_slice(), CharClass::Whitespace);
                    Some(
                        Mailbox {
                            display_name: read_display_name(before.as_slice()),
                            address: text_of(addr.as_slice()),
                        },
                    )
                },
                None => None,
            }
        },
        None => None,
    }
}

/// The mailbox of one entry of a comma-separated list.
fn read_entry(part: &[char], look_inside: bool) -> (r: Option<Mailbox>)
    ensures
        match r {
            Some(m) => (if look_inside {
                entry_mailbox(part@)
            } else {
                opaque_mailbox(part@)
            }) == Some(m@),
            None => (if look_inside {
                entry_mailbox(part@)
            } else {
                opaque_mailbox(part@)
            }) is None,
        },
{
    let bare = trim(part, CharClass::Whitespace);
    if bare.len() == 0 {
        return None;
    }
    if look_inside {
        match angle_form(bare.as_slice()) {
            Some(m) => {
                return Some(m);
            },
            None => {},
        }
        match commented_form(bare.as_slice()) {
            Some(m) => {
                return Some(m);
            },
            None => {},
        }
    }
    let r = Mailbox { display_name: String::new(), address: text_of(bare.as_slice()) };
    assert(r@ =~= MailboxView { display_name: Seq::empty(), address: bare@ });
    Some(r)
}

/// The mailboxes of the entries of a list.
fn read_parts(parts: &Vec<Vec<char>>, look_inside: bool) -> (r: Vec<Mailbox>)
    ensures
        look_inside ==> mailbox_views(r@) == present(
            views(parts@).map_values(|part: Seq<char>| entry_mailbox(part)),
        ),
        !look_inside ==> mailbox_views(r@) == present(
            views(parts@).map_values(|part: Seq<char>| opaque_mailbox(part)),
        ),
{
    let ghost found = views(parts@).map_values(
        |part: Seq<char>|
            if look_inside {
                entry_mailbox(part)
            } else {
                opaque_mailbox(part)
            },
    );
    let mut out: Vec<Mailbox> = Vec::new();
    let mut i: usize = 0;
    assert(mailbox_views(out@) =~= present(found.take(0)));
    while i < parts.len()
        invariant
            i <= parts.len(),
            found == views(parts@).map_values(
                |part: Seq<char>|
                    if look_inside {
                        entry_mailbox(part)
                    } else {
                        opaque_mailbox(part)
                    },
            ),
            mailbox_views(out@) == present(found.take(i as int)),
        decreases parts.len() - i,
    {
        let ghost before = out@;
        assert(found.take(i + 1).drop_last() =~= found.take(i as int));
        match read_entry(parts[i].as_slice(), look_inside) {
            Some(m) => {
                out.push(m);
                assert(mailbox_views(out@) =~= mailbox_views(before) + seq![m@]);
            },
            None => {
                assert(mailbox_views(out@) =~= mailbox_views(before) + Seq::empty());
            },
        }
        i += 1;
    }
    assert(found.take(i as int) =~= found);
    proof {
        if look_inside {
            assert(found =~= views(parts@).map_values(|part: Seq<char>| entry_mailbox(part)));
        } else {
            assert(found =~= views(parts@).map_values(|part: Seq<char>| opaque_mailbox(part)));
        }
    }
    out
}

/// The mailboxes of a comma-separated list.
fn read_list(header: &[char], look_inside: bool) -> (r: Vec<Mailbox>)
    ensures
        mailbox_views(r@) == if look_inside {
            listed_mailboxes(header@)
        } else {
            opaque_mailboxes(header@)
        },
{
    if look_inside {
        return read_parts(&split_entries(header), true);
    }
    let comma: Vec<char> = vec![','];
    assert(comma@ =~= seq![',']);
    read_parts(&split(header, comma.as_slice()), false)
}

/// The mailbox with an absent display name made empty.
fn named(m: &ParsedMailbox) -> (r: Mailbox)
    ensures
        r@ == m@,
{
    let display_name: String = match &m.display_name {
        Some(name) => name.clone(),
        None => String::new(),
    };
    Mailbox { display_name, address: m.address.clone() }
}

/// Appends the mailboxes of one parsed entry.
fn collect_mailboxes(addr: &ParsedAddress, out: &mut Vec<Mailbox>)
    ensures
        mailbox_views(final(out)@) == mailbox_views(old(out)@) + members(addr@),
{
    match addr {
        ParsedAddress::Single(info) => {
            let m = named(info);
            let ghost v = m@;
            out.push(m);
            assert(mailbox_views(out@) =~= mailbox_views(old(out)@) + seq![v]);
        },
        ParsedAddress::Group(group) => {
            let ghost all = members(addr@);
            let mut i: usize = 0;
            assert(mailbox_views(out@) =~= mailbox_views(old(out)@) + all.take(0));
            while i < group.len()
                invariant
                    i <= group.len(),
                    all == group@.map_values(|m: ParsedMailbox| m@),
                    mailbox_views(out@) == mailbox_views(old(out)@) + all.take(i as int),
                decreases group.len() - i,
            {
                let m = named(&group[i]);
                let ghost v = m@;
                let ghost before = out@;
                out.push(m);
                assert(mailbox_views(out@) =~= mailbox_views(before) + seq![v]);
                assert(mailbox_views(out@) =~= mailbox_views(old(out)@) + all.take(i + 1));
                i += 1;
            }
            assert(all.take(i as int) =~= all);
        },
    }
}

/// The mailboxes of an address header, given what the strict parser read in it.
pub fn mailboxes_of(header_value: &str, parsed: &Option<Vec<ParsedAddress>>) -> (r: Vec<Mailbox>)
    ensures
        mailbox_views(r@) == header_mailboxes(
            header_value@,
            optional_views(*parsed),
        ),
{
    let header = chars_of(header_value);
    if !holds(header.as_slice(), ':') {
        return read_list(header.as_slice(), true);
    }
    match parsed {
        Some(list) => {
            let ghost all = address_views(list@);
            let mut out: Vec<Mailbox> = Vec::new();
            let mut i: usize = 0;
            assert(mailbox_views(out@) =~= flattened(all.take(0)));
            while i < list.len()
                invariant
                    i <= list.len(),
                    all == address_views(list@),
                    mailbox_views(out@) == flattened(all.take(i as int)),
                decreases list.len() - i,
            {
                assert(all.take(i + 1).drop_last() =~= all.take(i as int));
                collect_mailboxes(&list[i], &mut out);
                i += 1;
            }
            assert(all.take(i as int) =~= all);
            out
        },
        None => read_list(header.as_slice(), false),
    }
}

/// The mailboxes of a `To` or `Cc` header, with groups flattened to their members.
pub fn parse_addresses(header_value: &str) -> (r: Vec<Mailbox>)
    ensures
        mailbox_views(r@) == header_mailboxes(header_value@, address_list(header_value@)),
{
    let header = chars_of(header_value);
    if !holds(header.as_slice(), ':') {
        return mailboxes_of(header_value, &None);
    }
    match read_addresses(header_value) {
        Ok(list) => mailboxes_of(header_value, &Some(list)),
        Err(_) => mailboxes_of(header_value, &None),
    }
}

/// The display name and the address of a text that stands for one mailbox, given what the strict
/// parser read in it.
pub fn single_addr_of(value: &str, parsed: &Option<Vec<ParsedAddress>>) -> (r: (String, String))
    ensures
        (MailboxView { display_name: r.0@, address: r.1@ }) == single_mailbox(
            value@,
            optional_views(*parsed),
        ),
{
    let text = chars_of(value);
    match angle_form(text.as_slice()) {
        Some(m) => {
            return (m.display_name, m.address);
        },
        None => {},
    }
    match parsed {
        Some(list) => {
            if list.len() > 0 {
                assert(address_views(list@)[0] == list@[0]@);
                match &list[0] {
                    ParsedAddress::Single(info) => {
                        let m = named(info);
                        return (m.display_name, m.address);
                    },
                    ParsedAddress::Group(group) => {
                        if group.len() > 0 {
                            let m = named(&group[0]);
                            return (m.display_name, m.address);
                        }
                    },
                }
            }
        },
        None => {},
    }
    (String::new(), text_of(trim(text.as_slice(), CharClass::Whitespace).as_slice()))
}

/// The display name and the address of a text that stands for one mailbox, such as a reverse
/// alias: `Name <addr>` or `addr`.
pub fn parse_single_addr(value: &str) -> (r: (String, String))
    ensures
        (MailboxView { display_name: r.0@, address: r.1@ }) == single_mailbox(
            value@,
            address_list(value@),
        ),
{
    match angle_form(chars_of(value).as_slice()) {
        Some(m) => {
            return (m.display_name, m.address);
        },
        None => {},
    }
    match read_addresses(value) {
        Ok(list) => single_addr_of(value, &Some(list)),
        Err(_) => single_addr_of(value, &None),
    }
}

/// Whether `c` occurs in `s`.
fn holds(s: &[char], c: char) -> (r: bool)
    ensures
        r == s@.contains(c),
{
    let mut i: usize = 0;
    while i < s.len()
        invariant
            i <= s.len(),
            forall|j: int| 0 <= j < i ==> s@[j] != c,
        decreases s.len() - i,
    {
        if s[i] == c {
            return true;
        }
        i += 1;
    }
    false
}

/// Whether a display name must be quoted for `c`.
fn needs_quotes(c: char) -> (r: bool)
    ensures
        r == is_special(c),
{
    matches!(c, '(' | ')' | '<' | '>' | '@' | ',' | ';' | ':' | '\\' | '"' | '.' | '[' | ']')
}

/// A mailbox as it stands in a header: the bare address where there is no display name, else the
/// display name, quoted if it holds a special character, and the address in angle brackets.
pub fn format_addr(display_name: &str, addr: &str) -> (r: String)
    ensures
        r@ == formatted(display_name@, addr@),
{
    let name = chars_of(display_name);
    if name.len() == 0 {
        return addr.to_owned();
    }
    let mut quoted: bool = false;
    let mut i: usize = 0;
    while i < name.len()
        invariant
            i <= name.len(),
            quoted == exists|j: int| 0 <= j < i && is_special(#[trigger] name@[j]),
        decreases name.len() - i,
    {
        if needs_quotes(name[i]) {
            assert(is_special(name@[i as int]));
            quoted = true;
        }
        i += 1;
    }
    let mut out: String = String::new();
    if quoted {
        let inner = escape(name.as_slice());
        out.append("\"");
        out.append(inner.as_str());
        out.append("\" <");
        out.append(addr);
        out.append(">");
        assert(out@ =~= "\""@ + escaped(name@) + "\" <"@ + addr@ + ">"@);
    } else {
        out.append(display_name);
        out.append(" <");
        out.append(addr);
        out.append(">");
        assert(out@ =~= name@ + " <"@ + addr@ + ">"@);
    }
    out
}

/// The mailboxes as a header, each with its display name and the address at its position in
/// `addresses`.
pub fn render_mailboxes(boxes: &Vec<Mailbox>, addresses: &Vec<String>) -> (r: String)
    requires
        boxes.len() == addresses.len(),
    ensures
        r@ == joined(
            Seq::new(
                boxes@.len(),
                |i: int| formatted(boxes@[i].display_name@, addresses@[i]@),
            ),
            ", "@,
        ),
{
    let ghost all = Seq::new(
        boxes@.len(),
        |i: int| formatted(boxes@[i].display_name@, addresses@[i]@),
    );
    let mut parts: Vec<Vec<char>> = Vec::new();
    let mut i: usize = 0;
    while i < boxes.len()
        invariant
            i <= boxes.len(),
            boxes.len() == addresses.len(),
            all == Seq::new(
                boxes@.len(),
                |i: int| formatted(boxes@[i].display_name@, addresses@[i]@),
            ),
            views(parts@) == all.take(i as int),
        decreases boxes.len() - i,
    {
        let part = chars_of(
            format_addr(boxes[i].display_name.as_str(), addresses[i].as_str()).as_str(),
        );
        let ghost before = parts@;
        let ghost text = part@;
        parts.push(part);
        assert(views(parts@) =~= views(before).push(text));
        assert(views(parts@) =~= all.take(i + 1));
        i += 1;
    }
    assert(all.take(i as int) =~= all);
    let sep = chars_of(", ");
    text_of(join(&parts, sep.as_slice()).as_slice())
}

/// Replaces the addresses of a `To` or `Cc` header that have a reverse alias by the bare address
/// of that alias. Display names stay, and so do addresses without a reverse alias.
pub fn replace_addresses(header_value: &str, alias_map: &AliasMap) -> (r: String)
    ensures
        r@ == replaced(
            header_mailboxes(header_value@, address_list(header_value@)),
            alias_map@,
        ),
{
    let boxes = parse_addresses(header_value);
    let mut addresses: Vec<String> = Vec::new();
    let mut i: usize = 0;
    while i < boxes.len()
        invariant
            i <= boxes.len(),
            addresses.len() == i,
            forall|j: int|
                0 <= j < i ==> (#[trigger] addresses@[j])@ == replacement(
                    boxes@[j].address@,
                    alias_map@,
                ),
        decreases boxes.len() - i,
    {
        let address: String = match alias_map.get(boxes[i].address.as_str()) {
            Some(reverse) => parse_single_addr(reverse.as_str()).1,
            None => boxes[i].address.clone(),
        };
        addresses.push(address);
        i += 1;
    }
    proof {
        let views = header_mailboxes(header_value@, address_list(header_value@));
        assert(views == mailbox_views(boxes@));
        assert(Seq::new(
            boxes@.len(),
            |i: int| formatted(boxes@[i].display_name@, addresses@[i]@),
        ) =~= views.map_values(
            |m: MailboxView| formatted(m.display_name, replacement(m.address, alias_map@)),
        ));
    }
    render_mailboxes(&boxes, &addresses)
}

} // verus!
