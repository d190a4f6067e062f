//! CardDAV connections, address books and remote objects, and what happens to the contacts that
//! they are bound to.

use crate::files::dav::{has_room, room_for_segments, segments_length};
use crate::files::transport::{parse_url, parsed_url};
use crate::repo::contacts::ContactRecord;
use crate::text::{has_member, lit, opt, stands_at, strip_prefix, texts};
use vstd::prelude::*;
use vstd::string::*;

verus! {

/// The connection of an account to its address books.
#[derive(Debug, Clone, PartialEq, Eq)]
pub struct CardDavConfig {
    pub account_id: i64,
    pub base_url: String,
    pub username: String,
    pub principal_url: Option<String>,
    pub home_set_url: String,
    pub enabled: bool,
    pub last_error: Option<String>,
}

/// A resource of an address book.
#[derive(Debug, Clone)]
pub struct CardDavObject {
    pub id: i64,
    pub addressbook_id: i64,
    pub contact_id: Option<i64>,
    pub href: String,
    pub etag: Option<String>,
    pub vcard_raw: String,
    pub remote_exists: bool,
    pub dirty: bool,
    pub deleted: bool,
}

/// An address book that is known.
#[derive(Debug)]
pub struct KnownBook {
    pub id: i64,
    pub url: String,
}

/// The address books that are no longer advertised.
pub open spec fn dropped(books: Seq<KnownBook>, urls: Seq<Seq<char>>) -> Seq<i64>
    decreases books.len(),
{
    if books.len() == 0 {
        Seq::empty()
    } else {
        let before = dropped(books.drop_last(), urls);
        if urls.contains(books.last().url@) {
            before
        } else {
            before.push(books.last().id)
        }
    }
}

/// The collections to remove because they are no longer advertised during an explicit reconnect.
/// Their contact rows remain local, matching disconnect behavior.
pub fn retain_addressbooks(books: &Vec<KnownBook>, urls: &Vec<String>) -> (r: Vec<i64>)
    ensures
        r@ == dropped(books@, texts(urls@)),
{
    let mut out: Vec<i64> = Vec::new();
    let mut i: usize = 0;
    proof {
        assert(books@.take(0) =~= Seq::<KnownBook>::empty());
    }
    while i < books.len()
        invariant
            i <= books.len(),
            out@ == dropped(books@.take(i as int), texts(urls@)),
        decreases books.len() - i,
    {
        proof {
            assert(books@.take(i + 1).drop_last() =~= books@.take(i as int));
            assert(books@.take(i + 1).last() == books@[i as int]);
        }
        if !has_member(urls, books[i].url.as_str()) {
            out.push(books[i].id);
        }
        i = i + 1;
    }
    proof {
        assert(books@.take(books@.len() as int) =~= books@);
    }
    out
}

/// Whether a book becomes the default of its account: where the account has none.
pub fn ensure_default(defaults: i64) -> (r: bool)
    ensures
        r == (defaults == 0),
{
    defaults == 0
}

/// The query of the address books of one account, or of all.
pub fn list_addressbooks(account_id: Option<i64>) -> (r: &'static str)
    ensures
        r@ == if account_id is Some {
            "SELECT id,account_id,url,display_name,read_only,enabled,is_default,last_synced_at FROM carddav_addressbooks WHERE account_id=?1 ORDER BY is_default DESC,display_name COLLATE NOCASE,id"@
        } else {
            "SELECT id,account_id,url,display_name,read_only,enabled,is_default,last_synced_at FROM carddav_addressbooks ORDER BY account_id,is_default DESC,display_name COLLATE NOCASE,id"@
        },
{
    if account_id.is_some() {
        "SELECT id,account_id,url,display_name,read_only,enabled,is_default,last_synced_at FROM carddav_addressbooks WHERE account_id=?1 ORDER BY is_default DESC,display_name COLLATE NOCASE,id"
    } else {
        "SELECT id,account_id,url,display_name,read_only,enabled,is_default,last_synced_at FROM carddav_addressbooks ORDER BY account_id,is_default DESC,display_name COLLATE NOCASE,id"
    }
}

/// How a remote object is bound to a contact.
#[derive(Debug, Clone, Copy)]
pub struct Binding {
    pub contact_id: Option<i64>,
    /// Whether the object brought the contact here.
    pub owns_contact: bool,
}

/// What becomes of a contact that a remote object let go.
#[derive(Debug, Clone, Copy, PartialEq, Eq, Structural)]
pub enum Fate {
    Stays,
    /// It is no entry of the address book any more, but mail shows it.
    Unmanaged(i64),
    Deleted(i64),
}

/// Whether an object that a server sent owns its contact: it did before, or the contact is new.
pub open spec fn owns(object: Option<Binding>, contact: Option<i64>) -> bool {
    (object is Some && object->0.owns_contact) || contact is None
}

/// Whether an object that a server sent owns its contact.
pub fn takes_ownership(object: Option<Binding>, contact: Option<i64>) -> (r: bool)
    ensures
        r == owns(object, contact),
{
    match object {
        Some(b) => b.owns_contact || contact.is_none(),
        None => contact.is_none(),
    }
}

/// The contact that an object leaves when it is bound to another.
pub open spec fn left(object: Option<Binding>, owned: bool, contact_id: i64) -> Option<i64> {
    if owned && object is Some && object->0.contact_id is Some && object->0.contact_id != Some(
        contact_id,
    ) {
        object->0.contact_id
    } else {
        None
    }
}

/// The contact that an object leaves when it is bound to `contact_id`.
pub fn left_behind(object: Option<Binding>, owned: bool, contact_id: i64) -> (r: Option<i64>)
    ensures
        r == left(object, owned, contact_id),
{
    if !owned {
        return None;
    }
    match object {
        Some(b) => match b.contact_id {
            Some(old) => if old != contact_id {
                Some(old)
            } else {
                None
            },
            None => None,
        },
        None => None,
    }
}

/// What becomes of a contact that an object left for another: nothing keeps it where no other
/// object refers to it and mail never showed it.
pub fn upsert_remote(left: Option<i64>, references: i64, interactions: i64) -> (r: Fate)
    ensures
        r == (if left is Some && references == 0 && interactions == 0 {
            Fate::Deleted(left->0)
        } else {
            Fate::Stays
        }),
{
    match left {
        Some(id) => if references == 0 && interactions == 0 {
            Fate::Deleted(id)
        } else {
            Fate::Stays
        },
        None => Fate::Stays,
    }
}

/// What becomes of the contact of an object that a server no longer has.
pub open spec fn removed(object: Binding, references: i64, interactions: i64) -> Fate {
    if object.owns_contact && object.contact_id is Some && references == 0 {
        if interactions == 0 {
            Fate::Deleted(object.contact_id->0)
        } else {
            Fate::Unmanaged(object.contact_id->0)
        }
    } else {
        Fate::Stays
    }
}

/// What becomes of the contact of an object that a server no longer has; `references` counts the
/// other objects that refer to it.
pub fn remove_remote(object: Binding, references: i64, interactions: i64) -> (r: Fate)
    ensures
        r == removed(object, references, interactions),
{
    match object.contact_id {
        Some(id) => if object.owns_contact && references == 0 {
            if interactions == 0 {
                Fate::Deleted(id)
            } else {
                Fate::Unmanaged(id)
            }
        } else {
            Fate::Stays
        },
        None => Fate::Stays,
    }
}

/// A server never makes a contact go that was here before it, that another object refers to or
/// that mail showed.
pub proof fn servers_delete_only_what_they_brought(object: Binding, references: i64, interactions: i64)
    ensures
        !object.owns_contact ==> removed(object, references, interactions) == Fate::Stays,
        references != 0 ==> removed(object, references, interactions) == Fate::Stays,
        interactions != 0 ==> !(removed(object, references, interactions) is Deleted),
        forall|contact: Option<i64>, id: i64|
            contact is Some && !object.owns_contact ==> #[trigger] left(
                Some(object),
                owns(Some(object), contact),
                id,
            ) is None,
{
}

/// The text that a contact is found by.
pub open spec fn found_text(r: ContactRecord) -> Seq<char> {
    r.name@ + " "@ + r.email@ + " "@ + r.company@ + " "@ + r.phone@ + " "@ + r.job_title@ + " "@
        + r.website@ + " "@ + r.tags@ + " "@ + r.postal_address@
}

/// The text that a contact is found by, before it is folded.
pub fn contact_text(record: &ContactRecord) -> (r: String)
    ensures
        r@ == found_text(*record),
{
    record.name.clone().concat(" ").concat(record.email.as_str()).concat(" ").concat(
        record.company.as_str(),
    ).concat(" ").concat(record.phone.as_str()).concat(" ").concat(
        record.job_title.as_str(),
    ).concat(" ").concat(record.website.as_str()).concat(" ").concat(
        record.tags.as_str(),
    ).concat(" ").concat(record.postal_address.as_str())
}

/// What happens to a new contact of an account.
#[derive(Debug, Clone, Copy, PartialEq, Eq, Structural)]
pub enum Attach {
    /// The contact is on the server already, and is sent there anew.
    Known,
    /// The account has no address book that can be written.
    NoBook,
    /// The contact was deleted in the meantime.
    Gone,
    /// The contact is queued for the address book.
    Queue,
}

/// Decide what happens to a newly-created contact of an account: it is queued for the account's
/// default writable address book. Saving merges by email, so if a "new" entry resolved to an
/// existing remote contact (`refreshed` objects were marked), that resource is updated instead of
/// creating a duplicate vCard on the same server.
pub fn attach_new_contact(refreshed: usize, has_book: bool, has_contact: bool) -> (r: Attach)
    ensures
        r == (if refreshed > 0 {
            Attach::Known
        } else if !has_book {
            Attach::NoBook
        } else if !has_contact {
            Attach::Gone
        } else {
            Attach::Queue
        }),
{
    if refreshed > 0 {
        Attach::Known
    } else if !has_book {
        Attach::NoBook
    } else if !has_contact {
        Attach::Gone
    } else {
        Attach::Queue
    }
}

/// A text without any of the prefixes at its start.
pub open spec fn without_prefixes(s: Seq<char>, prefix: Seq<char>) -> Seq<char>
    decreases s.len(),
{
    if prefix.len() > 0 && prefix.len() <= s.len() && stands_at(s, prefix, 0) {
        without_prefixes(s.skip(prefix.len() as int), prefix)
    } else {
        s
    }
}

/// The name of the resource of a contact.
pub open spec fn resource(uid: Seq<char>) -> Seq<char> {
    without_prefixes(uid, "urn:uuid:"@) + ".vcf"@
}

/// The name of the resource of a contact with that unique id.
pub fn resource_name(uid: &str) -> (r: String)
    ensures
        r@ == resource(uid@),
{
    proof {
        reveal_strlit("urn:uuid:");
    }
    let mut rest = lit(uid);
    loop
        invariant_except_break
            without_prefixes(rest@, "urn:uuid:"@) == without_prefixes(uid@, "urn:uuid:"@),
            "urn:uuid:"@.len() == 9,
        ensures
            rest@ == without_prefixes(uid@, "urn:uuid:"@),
        decreases rest@.len(),
    {
        match strip_prefix(rest.as_str(), "urn:uuid:") {
            Some(tail) => {
                rest = tail;
            },
            None => {
                break ;
            },
        }
    }
    rest.concat(".vcf")
}

/// The path and the query of a URL with one more segment behind its path; `None` where the text is
/// no URL or has no path to change.
pub uninterp spec fn with_last_segment(url: Seq<char>, segment: Seq<char>) -> Option<
    (Seq<char>, Option<Seq<char>>),
>;

/// The model of a path and a query.
pub open spec fn path_and_query(o: Option<(String, Option<String>)>) -> Option<
    (Seq<char>, Option<Seq<char>>),
> {
    match o {
        Some((path, query)) => Some((path@, opt(query))),
        None => None,
    }
}

/// Calls `url::Url::path_segments_mut`, then `pop_if_empty` and `push` on the segments, and reads
/// the path and the query. The result depends on the two texts alone.
#[verifier::external_body]
fn push_segment(url: &str, segment: &str) -> (r: Option<(String, Option<String>)>)
    requires
        has_room(url@, segments_length(seq![segment@]), false),
    ensures
        path_and_query(r) == with_last_segment(url@, segment@),
{
    let mut url = url::Url::parse(url).ok()?;
    url.path_segments_mut().ok()?.pop_if_empty().push(segment);
    Some((url.path().to_owned(), url.query().map(str::to_owned)))
}

/// Why an address book cannot take a contact.
#[derive(Debug, Clone, Copy, PartialEq, Eq, Structural)]
pub enum HrefError {
    /// The address book has no URL that can be read.
    NotUrl,
    /// "address book URL cannot accept a contact path"
    NoPath,
}

/// A path with its query behind it.
pub open spec fn href(path: Seq<char>, query: Option<Seq<char>>) -> Seq<char> {
    match query {
        Some(q) => path + "?"@ + q,
        None => path,
    }
}

/// Write a path and a query as the place of a resource.
pub fn resource_href(path: String, query: Option<String>) -> (r: String)
    ensures
        r@ == href(path@, opt(query)),
{
    match query {
        Some(q) => path.concat("?").concat(q.as_str()),
        None => path,
    }
}

/// Where a new contact stands in an address book.
pub fn contact_href(book_url: &str, name: &str) -> (r: std::result::Result<String, HrefError>)
    ensures
        if parsed_url(book_url@) is None {
            r == Err::<String, HrefError>(HrefError::NotUrl)
        } else if !has_room(book_url@, segments_length(seq![name@]), false) {
            r == Err::<String, HrefError>(HrefError::NoPath)
        } else {
            match with_last_segment(book_url@, name@) {
                Some((path, query)) => r is Ok && r->Ok_0@ == href(path, query),
                None => r == Err::<String, HrefError>(HrefError::NoPath),
            }
        },
{
    if parse_url(book_url).is_none() {
        return Err(HrefError::NotUrl);
    }
    let segments = vec![lit(name)];
    proof {
        assert(texts(segments@) =~= seq![name@]);
    }
    if !room_for_segments(book_url, &segments, false) {
        return Err(HrefError::NoPath);
    }
    match push_segment(book_url, name) {
        Some((path, query)) => Ok(resource_href(path, query)),
        None => Err(HrefError::NoPath),
    }
}

} // verus!
