//! Laws of the lookups of reverse aliases.
use crate::chars::{digits_value, CharClass};
use crate::laws::basics::law_trimmed_end;
use crate::simplelogin_client::{
    first_id, page_view, take_contact, AliasEntry, ApiRequest, ClientView, EntryView, Lookup,
    LookupError, LookupErrorView, LookupPhase, LookupView, RequestView, SimpleLoginClient,
};
use vstd::prelude::*;

verus! {

/// The lookup after the pages.
pub open spec fn after_pages(lookup: LookupView, pages: Seq<Seq<EntryView>>) -> LookupView
    decreases pages.len(),
{
    if pages.len() == 0 {
        lookup
    } else {
        after_pages(lookup, pages.drop_last()).turned(pages.last())
    }
}

/// The alias ids that a client has after the pages of a lookup.
pub open spec fn learned_from(
    client: ClientView,
    lookup: LookupView,
    pages: Seq<Seq<EntryView>>,
) -> ClientView
    decreases pages.len(),
{
    if pages.len() == 0 {
        client
    } else {
        learned_from(client, lookup, pages.drop_last()).learned(
            after_pages(lookup, pages.drop_last()),
            pages.last(),
        )
    }
}

/// A lookup for a sender that is not in the cache asks for the pages one after the other, as long
/// as they hold other aliases only.
pub proof fn law_pages_are_asked_for_in_order(
    client: ClientView,
    sender: Seq<char>,
    recipient: Seq<char>,
    pages: Seq<Seq<EntryView>>,
)
    requires
        !client.alias_cache.contains_key(sender),
        pages.len() <= u64::MAX,
        forall|i: int|
            0 <= i < pages.len() ==> (#[trigger] pages[i]).len() > 0 && first_id(
                pages[i],
                sender,
            ) is None,
    ensures
        after_pages(client.started(sender, recipient), pages) == (LookupView {
            sender,
            recipient,
            phase: LookupPhase::Paging(pages.len() as u64),
        }),
        learned_from(client, client.started(sender, recipient), pages) == client,
    decreases pages.len(),
{
    if pages.len() > 0 {
        let init = pages.drop_last();
        assert forall|i: int| 0 <= i < init.len() implies (#[trigger] init[i]).len() > 0
            && first_id(init[i], sender) is None by {
            assert(init[i] == pages[i]);
        }
        law_pages_are_asked_for_in_order(client, sender, recipient, init);
        let last = pages[pages.len() - 1];
        assert(last.len() > 0 && first_id(last, sender) is None);
    }
}

/// The first page that holds the sender's alias gives its id, and the recipient's contact is asked
/// for next.
pub proof fn law_first_match_is_taken(
    client: ClientView,
    sender: Seq<char>,
    recipient: Seq<char>,
    pages: Seq<Seq<EntryView>>,
    last: Seq<EntryView>,
)
    requires
        !client.alias_cache.contains_key(sender),
        pages.len() < u64::MAX,
        forall|i: int|
            0 <= i < pages.len() ==> (#[trigger] pages[i]).len() > 0 && first_id(
                pages[i],
                sender,
            ) is None,
        first_id(last, sender) is Some,
    ensures
        after_pages(client.started(sender, recipient), pages.push(last)).phase
            == LookupPhase::Contact(first_id(last, sender)->0),
        learned_from(
            client,
            client.started(sender, recipient),
            pages.push(last),
        ).alias_cache == client.alias_cache.insert(sender, first_id(last, sender)->0),
{
    law_pages_are_asked_for_in_order(client, sender, recipient, pages);
    assert(pages.push(last).drop_last() =~= pages);
}

/// Once a page held the sender's alias, later lookups for that sender, whoever the recipient is,
/// ask for the contact at once.
pub proof fn law_found_alias_is_cached(
    client: ClientView,
    lookup: LookupView,
    page: Seq<EntryView>,
    recipient: Seq<char>,
)
    requires
        first_id(page, lookup.sender) is Some,
    ensures
        client.learned(lookup, page).started(lookup.sender, recipient).phase
            == LookupPhase::Contact(first_id(page, lookup.sender)->0),
{
}

/// What a client has learned of one sender does not change what it knows of another.
pub proof fn law_cache_is_per_sender(
    client: ClientView,
    lookup: LookupView,
    page: Seq<EntryView>,
    sender: Seq<char>,
    recipient: Seq<char>,
)
    requires
        sender != lookup.sender,
    ensures
        client.learned(lookup, page).started(sender, recipient) == client.started(
            sender,
            recipient,
        ),
{
}

/// The id that is found belongs to an entry of the page with the sender's address.
pub proof fn law_found_id_is_the_senders(page: Seq<EntryView>, email: Seq<char>)
    ensures
        first_id(page, email) is Some <==> exists|i: int|
            0 <= i < page.len() && (#[trigger] page[i]).email == email,
        first_id(page, email) matches Some(id) ==> exists|i: int|
            0 <= i < page.len() && (#[trigger] page[i]).email == email && page[i].id == id,
    decreases page.len(),
{
    if page.len() > 0 {
        let rest = page.skip(1);
        law_found_id_is_the_senders(rest, email);
        if page[0].email != email {
            if first_id(rest, email) is Some {
                let i = choose|i: int|
                    0 <= i < rest.len() && (#[trigger] rest[i]).email == email && rest[i].id
                        == first_id(rest, email)->0;
                assert(page[i + 1] == rest[i]);
            }
            if exists|i: int| 0 <= i < page.len() && (#[trigger] page[i]).email == email {
                let i = choose|i: int| 0 <= i < page.len() && (#[trigger] page[i]).email == email;
                assert(rest[i - 1] == page[i]);
            }
        } else {
            assert(page[0].email == email && page[0].id == first_id(page, email)->0);
        }
    }
}

/// The entry that is found is the first with the sender's address: no entry before it has it.
pub proof fn law_first_entry_counts(page: Seq<EntryView>, email: Seq<char>, i: int)
    requires
        0 <= i < page.len(),
        page[i].email == email,
        forall|j: int| 0 <= j < i ==> (#[trigger] page[j]).email != email,
    ensures
        first_id(page, email) == Some(page[i].id),
    decreases page.len(),
{
    if i > 0 {
        let rest = page.skip(1);
        assert(page[0].email != email);
        assert forall|j: int| 0 <= j < i - 1 implies (#[trigger] rest[j]).email != email by {
            assert(rest[j] == page[j + 1]);
        }
        law_first_entry_counts(rest, email, i - 1);
    }
}

/// Every answer that is not empty is taken as it is. There is no reverse alias if and only if the
/// answer is missing or empty, and the error names the recipient.
pub proof fn law_answers_are_taken_as_they_are(lookup: LookupView, answer: Option<Seq<char>>)
    ensures
        forall|r: Seq<char>|
            #![trigger lookup.outcome(Some(r))]
            r.len() > 0 ==> lookup.outcome(Some(r)) == Ok::<Seq<char>, LookupErrorView>(r),
        lookup.outcome(answer) is Err <==> answer is None || answer->0.len() == 0,
        lookup.outcome(answer) matches Err(e) ==> e == LookupErrorView::NoReverseAlias(
            lookup.recipient,
        ),
{
}

/// What `take_contact` gives back: the answer itself, or an error where it is missing or empty.
pub proof fn law_take_contact(
    lookup: &Lookup,
    answer: Option<String>,
    r: Result<String, LookupError>,
)
    requires
        call_ensures(take_contact, (lookup, answer), r),
    ensures
        r is Ok <==> answer is Some && answer->0@.len() > 0,
        r matches Ok(s) ==> s@ == answer->0@,
        r matches Err(e) ==> e is NoReverseAlias && e->NoReverseAlias_0@ == lookup.recipient@,
{
}

/// What a client gives back. A new client has the base URL without any slash at its end, and no
/// alias. A lookup is for the sender and the recipient that it was started with; it asks for the
/// first page unless the client has the sender's alias.
pub proof fn law_client_functions(
    url: &str,
    key: &str,
    new: SimpleLoginClient,
    client: &SimpleLoginClient,
    sender: &str,
    recipient: &str,
    lookup: Lookup,
)
    requires
        call_ensures(SimpleLoginClient::new, (url, key), new),
        call_ensures(SimpleLoginClient::get_reverse_alias, (client, sender, recipient), lookup),
    ensures
        new@.api_key == key@,
        new@.api_url.is_prefix_of(url@),
        new@.api_url.len() > 0 ==> new@.api_url.last() != '/',
        forall|i: int| new@.api_url.len() <= i < url@.len() ==> url@[i] == '/',
        forall|s: Seq<char>| !(#[trigger] new@.alias_cache.contains_key(s)),
        lookup.sender@ == sender@,
        lookup.recipient@ == recipient@,
        client@.alias_cache.contains_key(sender@) ==> lookup.phase == LookupPhase::Contact(
            client@.alias_cache[sender@],
        ),
        !client@.alias_cache.contains_key(sender@) ==> lookup.phase == LookupPhase::Paging(0),
{
    let n = law_trimmed_end(url@, CharClass::Slash);
    assert(new@.api_url =~= url@.take(n));
    assert forall|i: int| new@.api_url.len() <= i < url@.len() implies url@[i] == '/' by {
        assert(CharClass::Slash.has(url@[i]));
    }
}

/// What a lookup asks for: the page that it is at, with the sender for a query, under the base URL;
/// then the contact of the recipient, under the id of the sender's alias in decimal.
pub proof fn law_requests(client: &SimpleLoginClient, lookup: &Lookup, r: ApiRequest)
    requires
        call_ensures(SimpleLoginClient::request, (client, lookup), r),
    ensures
        lookup.phase matches LookupPhase::Paging(n) ==> r@ == (RequestView::ListAliases {
            url: client@.api_url + "/api/v2/aliases"@,
            key: client@.api_key,
            page_id: n,
            query: lookup.sender@,
        }),
        lookup.phase matches LookupPhase::Contact(id) ==> {
            &&& r@ is CreateContact
            &&& r@->CreateContact_key == client@.api_key
            &&& r@->contact == lookup.recipient@
            &&& exists|digits: Seq<char>|
                r@->CreateContact_url == client@.api_url + "/api/aliases/"@ + (if id < 0 {
                    seq!['-']
                } else {
                    Seq::empty()
                } + digits) + "/contacts"@ && #[trigger] digits_value(digits) == if id < 0 {
                    -id
                } else {
                    id as int
                } && crate::laws::basics::are_digits(digits)
        },
{
    if let LookupPhase::Contact(id) = lookup.phase {
        let size = if id < 0 {
            (-id) as nat
        } else {
            id as nat
        };
        crate::laws::basics::lemma_number_reads_back(size);
        let digits = crate::chars::nat_text(size);
        let text = crate::chars::int_text(id as int);
        assert(text =~= if id < 0 {
            seq!['-']
        } else {
            Seq::empty()
        } + digits);
        assert(digits_value(digits) == size);
    }
}

/// What a page leads to. Without an entry there is an error that names the sender. The first entry
/// with the sender's address gives the id that is asked under, now and in later lookups. Any other
/// page leads to the next, and is forgotten.
pub proof fn law_pages(
    client: &mut SimpleLoginClient,
    lookup: &mut Lookup,
    page: &Vec<AliasEntry>,
    r: Result<(), LookupError>,
    n: u64,
    i: int,
)
    requires
        call_ensures(SimpleLoginClient::take_page, (client, lookup, page), r),
        old(lookup).phase == LookupPhase::Paging(n),
        n < u64::MAX,
    ensures
        final(client)@.api_url == old(client)@.api_url,
        final(client)@.api_key == old(client)@.api_key,
        final(lookup).sender@ == old(lookup).sender@,
        final(lookup).recipient@ == old(lookup).recipient@,
        r is Err <==> page@.len() == 0,
        r matches Err(e) ==> e is AliasNotFound && e->AliasNotFound_0@ == old(lookup).sender@,
        0 <= i < page@.len() && page@[i].email@ == old(lookup).sender@ && (forall|j: int|
            0 <= j < i ==> (#[trigger] page@[j]).email@ != old(lookup).sender@) ==> {
            &&& final(lookup).phase == LookupPhase::Contact(page@[i].id)
            &&& final(client)@.alias_cache == old(client)@.alias_cache.insert(
                old(lookup).sender@,
                page@[i].id,
            )
        },
        (forall|j: int|
            0 <= j < page@.len() ==> (#[trigger] page@[j]).email@ != old(lookup).sender@) ==> {
            &&& final(client)@.alias_cache == old(client)@.alias_cache
            &&& final(lookup).phase == if page@.len() > 0 {
                LookupPhase::Paging((n + 1) as u64)
            } else {
                LookupPhase::Paging(n)
            }
        },
{
    let entries = page_view(page@);
    let email = old(lookup).sender@;
    assert(old(lookup)@.sender == email);
    assert(final(lookup)@ == old(lookup)@.turned(entries));
    assert(final(lookup)@.phase == final(lookup).phase);
    law_found_id_is_the_senders(entries, email);
    if 0 <= i < page@.len() && page@[i].email@ == email && (forall|j: int|
        0 <= j < i ==> (#[trigger] page@[j]).email@ != email) {
        assert forall|j: int| 0 <= j < i implies (#[trigger] entries[j]).email != email by {
            assert(page@[j].email@ != email);
        }
        law_first_entry_counts(entries, email, i);
    }
    if forall|j: int| 0 <= j < page@.len() ==> (#[trigger] page@[j]).email@ != email {
        assert forall|j: int| 0 <= j < entries.len() implies (#[trigger] entries[j]).email
            != email by {
            assert(page@[j].email@ != email);
        }
    }
}

/// Errors in words.
pub proof fn law_lookup_errors_in_words(e: &LookupError, r: String)
    requires
        call_ensures(LookupError::message, (e,), r),
    ensures
        match e {
            LookupError::AliasNotFound(s) => r@ == "Alias not found: "@ + s@,
            LookupError::NoReverseAlias(s) => r@ == "No reverse_alias in response for "@ + s@,
        },
{
}

} // verus!
