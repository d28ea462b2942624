//! Lookups of reverse aliases in the SimpleLogin API.
//!
//! A lookup first finds the id of the sender's alias, page by page, unless the client has it in
//! its cache, and then asks for the contact of the recipient. The client says what to ask and
//! what follows from an answer; the program around it makes the requests.
use crate::chars::{
    chars_of, int_text, optional_text, same_text, text_of, trim_end, trimmed_end, write_int,
    CharClass,
};
use vstd::hash_map::StringHashMap;
use vstd::prelude::*;
use vstd::string::StringExecFns;

verus! {

/// An alias of the account.
pub struct AliasEntry {
    pub id: i64,
    pub email: String,
}

/// What an [`AliasEntry`] holds.
pub struct EntryView {
    pub id: i64,
    pub email: Seq<char>,
}

impl View for AliasEntry {
    type V = EntryView;

    open spec fn view(&self) -> EntryView {
        EntryView { id: self.id, email: self.email@ }
    }
}

/// What a page of aliases holds.
pub open spec fn page_view(page: Seq<AliasEntry>) -> Seq<EntryView> {
    page.map_values(|e: AliasEntry| e@)
}

/// A request to the API. Each carries the key that authenticates it.
pub enum ApiRequest {
    /// A `GET` of a page of the aliases that match a query.
    ListAliases { url: String, key: String, page_id: u64, query: String },
    /// A `POST` that names a contact.
    CreateContact { url: String, key: String, contact: String },
}

/// What an [`ApiRequest`] holds.
pub enum RequestView {
    ListAliases { url: Seq<char>, key: Seq<char>, page_id: u64, query: Seq<char> },
    CreateContact { url: Seq<char>, key: Seq<char>, contact: Seq<char> },
}

impl View for ApiRequest {
    type V = RequestView;

    open spec fn view(&self) -> RequestView {
        match self {
            ApiRequest::ListAliases { url, key, page_id, query } => RequestView::ListAliases {
                url: url@,
                key: key@,
                page_id: *page_id,
                query: query@,
            },
            ApiRequest::CreateContact { url, key, contact } => RequestView::CreateContact {
                url: url@,
                key: key@,
                contact: contact@,
            },
        }
    }
}

/// Why a lookup failed.
#[derive(Debug)]
pub enum LookupError {
    /// The sender has no alias.
    AliasNotFound(String),
    /// The answer held no reverse alias for the recipient.
    NoReverseAlias(String),
}

/// What a [`LookupError`] holds.
pub enum LookupErrorView {
    AliasNotFound(Seq<char>),
    NoReverseAlias(Seq<char>),
}

impl View for LookupError {
    type V = LookupErrorView;

    open spec fn view(&self) -> LookupErrorView {
        match self {
            LookupError::AliasNotFound(s) => LookupErrorView::AliasNotFound(s@),
            LookupError::NoReverseAlias(s) => LookupErrorView::NoReverseAlias(s@),
        }
    }
}

impl LookupErrorView {
    /// The error in words.
    pub open spec fn text(self) -> Seq<char> {
        match self {
            LookupErrorView::AliasNotFound(s) => "Alias not found: "@ + s,
            LookupErrorView::NoReverseAlias(s) => "No reverse_alias in response for "@ + s,
        }
    }
}

impl LookupError {
    /// The error in words.
    pub fn message(&self) -> (r: String)
        ensures
            r@ == self@.text(),
    {
        let mut r: String = String::new();
        match self {
            LookupError::AliasNotFound(s) => {
                r.append("Alias not found: ");
                r.append(s.as_str());
            },
            LookupError::NoReverseAlias(s) => {
                r.append("No reverse_alias in response for ");
                r.append(s.as_str());
            },
        }
        assert(r@ =~= self@.text());
        r
    }
}

/// How far a lookup is.
#[derive(Clone, Copy, Debug)]
pub enum LookupPhase {
    /// The sender's alias is looked for on this page.
    Paging(u64),
    /// The recipient's contact is asked for under this alias.
    Contact(i64),
}

/// A lookup under way.
pub struct Lookup {
    pub sender: String,
    pub recipient: String,
    pub phase: LookupPhase,
}

/// What a [`Lookup`] holds.
#[verifier::ext_equal]
pub struct LookupView {
    pub sender: Seq<char>,
    pub recipient: Seq<char>,
    pub phase: LookupPhase,
}

impl View for Lookup {
    type V = LookupView;

    open spec fn view(&self) -> LookupView {
        LookupView { sender: self.sender@, recipient: self.recipient@, phase: self.phase }
    }
}

/// A client of the API.
pub struct SimpleLoginClient {
    api_url: String,
    api_key: String,
    alias_cache: StringHashMap<i64>,
}

/// What a [`SimpleLoginClient`] holds.
#[verifier::ext_equal]
pub struct ClientView {
    /// The base URL, without slashes at its end.
    pub api_url: Seq<char>,
    pub api_key: Seq<char>,
    /// The ids of the aliases that were found.
    pub alias_cache: Map<Seq<char>, i64>,
}

impl View for SimpleLoginClient {
    type V = ClientView;

    closed spec fn view(&self) -> ClientView {
        ClientView {
            api_url: self.api_url@,
            api_key: self.api_key@,
            alias_cache: self.alias_cache@,
        }
    }
}

/// The id of the first entry with this email address.
pub open spec fn first_id(page: Seq<EntryView>, email: Seq<char>) -> Option<i64>
    decreases page.len(),
{
    if page.len() == 0 {
        None
    } else if page[0].email == email {
        Some(page[0].id)
    } else {
        first_id(page.skip(1), email)
    }
}

impl ClientView {
    /// The lookup as it starts.
    pub open spec fn started(self, sender: Seq<char>, recipient: Seq<char>) -> LookupView {
        LookupView {
            sender,
            recipient,
            phase: if self.alias_cache.contains_key(sender) {
                LookupPhase::Contact(self.alias_cache[sender])
            } else {
                LookupPhase::Paging(0)
            },
        }
    }

    /// What a lookup asks for next.
    pub open spec fn request(self, lookup: LookupView) -> RequestView {
        match lookup.phase {
            LookupPhase::Paging(page_id) => RequestView::ListAliases {
                url: self.api_url + "/api/v2/aliases"@,
                key: self.api_key,
                page_id,
                query: lookup.sender,
            },
            LookupPhase::Contact(id) => RequestView::CreateContact {
                url: self.api_url + "/api/aliases/"@ + int_text(id as int) + "/contacts"@,
                key: self.api_key,
                contact: lookup.recipient,
            },
        }
    }

    /// The client after a page of aliases: it has the id of the sender's alias, if the page does.
    pub open spec fn learned(self, lookup: LookupView, page: Seq<EntryView>) -> ClientView {
        match first_id(page, lookup.sender) {
            Some(id) => ClientView {
                alias_cache: self.alias_cache.insert(lookup.sender, id),
                ..self
            },
            None => self,
        }
    }
}

impl LookupView {
    /// The lookup after a page of aliases. It goes on to the contact where the page holds the
    /// sender's alias, and to the next page otherwise.
    pub open spec fn turned(self, page: Seq<EntryView>) -> LookupView {
        match (self.phase, first_id(page, self.sender)) {
            (LookupPhase::Paging(_), Some(id)) => LookupView {
                phase: LookupPhase::Contact(id),
                ..self
            },
            (LookupPhase::Paging(n), None) => if page.len() > 0 {
                LookupView { phase: LookupPhase::Paging((n + 1) as u64), ..self }
            } else {
                self
            },
            _ => self,
        }
    }

    /// The reverse alias that an answer gives: a text that is not empty.
    pub open spec fn outcome(self, answer: Option<Seq<char>>) -> Result<
        Seq<char>,
        LookupErrorView,
    > {
        match answer {
            Some(reverse) => if reverse.len() > 0 {
                Ok(reverse)
            } else {
                Err(LookupErrorView::NoReverseAlias(self.recipient))
            },
            None => Err(LookupErrorView::NoReverseAlias(self.recipient)),
        }
    }
}

/// The id of the first entry with this email address.
fn find_id(page: &Vec<AliasEntry>, email: &str) -> (r: Option<i64>)
    ensures
        r == first_id(page_view(page@), email@),
{
    let ghost all = page_view(page@);
    let mut i: usize = 0;
    assert(all.skip(0) =~= all);
    while i < page.len()
        invariant
            i <= page.len(),
            all == page_view(page@),
            first_id(all, email@) == first_id(all.skip(i as int), email@),
        decreases page.len() - i,
    {
        assert(all.skip(i as int)[0] == page@[i as int]@);
        assert(all.skip(i as int).skip(1) =~= all.skip(i + 1));
        if same_text(page[i].email.as_str(), email) {
            return Some(page[i].id);
        }
        i += 1;
    }
    None
}

impl SimpleLoginClient {
    /// A client with an empty cache. Slashes at the end of the base URL are dropped.
    pub fn new(api_url: &str, api_key: &str) -> (r: SimpleLoginClient)
        ensures
            r@ == (ClientView {
                api_url: trimmed_end(api_url@, CharClass::Slash),
                api_key: api_key@,
                alias_cache: Map::empty(),
            }),
    {
        let url = trim_end(chars_of(api_url).as_slice(), CharClass::Slash);
        SimpleLoginClient {
            api_url: text_of(url.as_slice()),
            api_key: api_key.to_owned(),
            alias_cache: StringHashMap::new(),
        }
    }

    /// Starts the lookup of the reverse alias for a recipient of the sender's mail.
    pub fn get_reverse_alias(&self, sender: &str, recipient: &str) -> (r: Lookup)
        ensures
            r@ == self@.started(sender@, recipient@),
    {
        let phase: LookupPhase = match self.alias_cache.get(sender) {
            Some(id) => LookupPhase::Contact(*id),
            None => LookupPhase::Paging(0),
        };
        Lookup { sender: sender.to_owned(), recipient: recipient.to_owned(), phase }
    }

    /// What a lookup asks for next.
    pub fn request(&self, lookup: &Lookup) -> (r: ApiRequest)
        ensures
            r@ == self@.request(lookup@),
    {
        let mut url: String = self.api_url.clone();
        match lookup.phase {
            LookupPhase::Paging(page_id) => {
                url.append("/api/v2/aliases");
                ApiRequest::ListAliases {
                    url,
                    key: self.api_key.clone(),
                    page_id,
                    query: lookup.sender.clone(),
                }
            },
            LookupPhase::Contact(id) => {
                url.append("/api/aliases/");
                url.append(write_int(id).as_str());
                url.append("/contacts");
                ApiRequest::CreateContact {
                    url,
                    key: self.api_key.clone(),
                    contact: lookup.recipient.clone(),
                }
            },
        }
    }

    /// Takes a page of aliases. An empty page ends the search without success; a page with the
    /// sender's alias ends it, and the alias is kept in the cache; any other leads to the next
    /// page.
    pub fn take_page(&mut self, lookup: &mut Lookup, page: &Vec<AliasEntry>) -> (r: Result<
        (),
        LookupError,
    >)
        requires
            old(lookup)@.phase matches LookupPhase::Paging(n) && n < u64::MAX,
        ensures
            final(self)@ == old(self)@.learned(old(lookup)@, page_view(page@)),
            final(lookup)@ == old(lookup)@.turned(page_view(page@)),
            r is Ok <==> page@.len() > 0,
            r matches Err(e) ==> e@ == LookupErrorView::AliasNotFound(old(lookup)@.sender),
    {
        if page.len() == 0 {
            return Err(LookupError::AliasNotFound(lookup.sender.clone()));
        }
        match find_id(page, lookup.sender.as_str()) {
            Some(id) => {
                self.alias_cache.insert(lookup.sender.clone(), id);
                lookup.phase = LookupPhase::Contact(id);
            },
            None => match lookup.phase {
                LookupPhase::Paging(n) => {
                    lookup.phase = LookupPhase::Paging(n + 1);
                },
                LookupPhase::Contact(_) => {},
            },
        }
        Ok(())
    }
}

/// Takes the answer that names a contact's reverse alias.
pub fn take_contact(lookup: &Lookup, reverse_alias: Option<String>) -> (r: Result<
    String,
    LookupError,
>)
    ensures
        match r {
            Ok(s) => lookup@.outcome(optional_text(reverse_alias)) == Ok::<_, LookupErrorView>(s@),
            Err(e) => lookup@.outcome(optional_text(reverse_alias)) == Err::<Seq<char>, _>(e@),
        },
{
    match reverse_alias {
        Some(reverse) => if reverse.as_str().is_empty() {
            Err(LookupError::NoReverseAlias(lookup.recipient.clone()))
        } else {
            Ok(reverse)
        },
        None => Err(LookupError::NoReverseAlias(lookup.recipient.clone())),
    }
}

} // verus!
