//! The address book, and the people that mail shows.

use crate::error::{fails, other, says, Result};
use crate::repo::contact_rows::{lists_contact, lists_show_their_contacts};
use crate::repo::rows::{asks_for, Database, Scope};
use crate::repo::sql::{
    bounds, escape_like, holding, holding_pattern, like_escaped, numbered_parameters, parameter,
    parameters, parse_numbers, read_numbers, Bind, Bound, Conditions, Filter,
};
use crate::repo::threads::{count, counted};
use crate::text::{
    has_char, lit, lowercase, opt, same, split, split_char, split_words, texts, trim, trimmed,
    words,
};
use vstd::prelude::*;
use vstd::string::*;

verus! {

/// A mail address with its name.
#[derive(Debug, Clone)]
pub struct Address {
    pub name: Option<String>,
    pub email: String,
}

/// An entry of the address book.
#[derive(Debug)]
pub struct ContactRecord {
    pub id: i64,
    pub name: String,
    pub email: String,
    pub phone: String,
    pub company: String,
    pub job_title: String,
    pub website: String,
    pub birthday: String,
    pub postal_address: String,
    pub notes: String,
    pub tags: String,
    pub is_favorite: bool,
    pub interactions: i64,
    pub last_interacted: Option<i64>,
    pub is_managed: bool,
    pub account_ids: Vec<i64>,
}

/// Where a page of the address book ended.
#[derive(Debug)]
pub struct ContactRecordCursor {
    pub is_favorite: bool,
    pub sort_name: String,
    pub email: String,
    pub id: i64,
}

/// What makes a contact a real entry of the address book.
pub open spec fn saved_predicate(alias: Seq<char>) -> Seq<char> {
    "("@ + alias + ".is_managed = 1 OR "@ + alias
        + ".is_favorite = 1 OR EXISTS ( SELECT 1 FROM carddav_objects co WHERE co.contact_id = "@
        + alias + ".id AND co.remote_exists = 1 AND co.deleted = 0 ))"@
}

/// A real address-book entry is explicitly saved or favorited in Flectar Mail,
/// or backed by a live CardDAV object. Mail-derived identities deliberately
/// stay outside this set until the user takes one of those explicit actions.
pub fn saved_contact_predicate(alias: &str) -> (r: String)
    ensures
        r@ == saved_predicate(alias@),
{
    lit("(").concat(alias).concat(".is_managed = 1 OR ").concat(alias).concat(
        ".is_favorite = 1 OR EXISTS ( SELECT 1 FROM carddav_objects co WHERE co.contact_id = ",
    ).concat(alias).concat(".id AND co.remote_exists = 1 AND co.deleted = 0 ))")
}

/// The accounts of a contact, as SQLite joins them.
pub fn account_ids(csv: &str) -> (r: Vec<i64>)
    ensures
        r@ == read_numbers(split(csv@, |c: char| c == ',')),
{
    parse_numbers(&split_char(csv, ','))
}

/// What is stored of a contact that mail shows.
#[derive(Debug)]
pub struct ContactRow {
    pub name: Option<String>,
    pub folded: Option<String>,
    pub send_count: i64,
    pub recv_count: i64,
    pub last_interacted: Option<i64>,
}

/// Whether an address that mail shows can be a contact.
pub open spec fn harvestable(email: Seq<char>) -> bool {
    email.len() > 0 && email.contains('@')
}

/// An address that mail shows, as it is stored: its email in lower case, and the text that its
/// folded form is made from.
pub struct Harvest {
    pub email: String,
    pub name: String,
    pub text: String,
}

/// Take up an address that mail shows; `None` where it is none.
pub fn harvest(addr: &Address) -> (r: Option<Harvest>)
    ensures
        if harvestable(addr.email@) {
            let name = match addr.name {
                Some(n) => n@,
                None => Seq::empty(),
            };
            r is Some && r->0.email@ == lowercase(addr.email@) && r->0.name@ == name && r->0.text@
                == name + " "@ + addr.email@
        } else {
            r is None
        },
{
    if addr.email.as_str().is_empty() || !has_char(addr.email.as_str(), '@') {
        return None;
    }
    let name = match &addr.name {
        Some(n) => n.clone(),
        None => String::new(),
    };
    let text = name.clone().concat(" ").concat(addr.email.as_str());
    Some(Harvest { email: addr.email.as_str().to_lowercase(), name, text })
}

/// A later moment of two.
pub open spec fn later(a: Option<i64>, b: i64) -> i64 {
    let known = match a {
        Some(t) => t,
        None => 0,
    };
    if known >= b {
        known
    } else {
        b
    }
}

/// What is stored of a contact after mail showed it once more. The name of a saved contact stays;
/// that of another is the newest that was not empty.
pub fn harvested(
    stored: Option<ContactRow>,
    saved: bool,
    name: String,
    folded: String,
    sent: bool,
    when: i64,
) -> (r: ContactRow)
    requires
        stored matches Some(c) ==> c.send_count < i64::MAX && c.recv_count < i64::MAX,
    ensures
        ({
            let out: int = if sent {
                1
            } else {
                0
            };
            match stored {
                None => r == (ContactRow {
                    name: Some(name),
                    folded: Some(folded),
                    send_count: out as i64,
                    recv_count: (1 - out) as i64,
                    last_interacted: Some(when),
                }),
                Some(c) => {
                    let renames = !saved && name@.len() > 0;
                    &&& r.name == (if renames {
                        Some(name)
                    } else {
                        c.name
                    })
                    &&& r.folded == (if renames || c.folded is None {
                        Some(folded)
                    } else {
                        c.folded
                    })
                    &&& r.send_count == c.send_count + out
                    &&& r.recv_count == c.recv_count + (1 - out)
                    &&& r.last_interacted == Some(later(c.last_interacted, when))
                },
            }
        }),
{
    let (out, into): (i64, i64) = if sent {
        (1, 0)
    } else {
        (0, 1)
    };
    match stored {
        None => ContactRow {
            name: Some(name),
            folded: Some(folded),
            send_count: out,
            recv_count: into,
            last_interacted: Some(when),
        },
        Some(c) => {
            let renames = !saved && !name.as_str().is_empty();
            let known: i64 = match c.last_interacted {
                Some(t) => t,
                None => 0,
            };
            let last: i64 = if known >= when {
                known
            } else {
                when
            };
            let refold = renames || c.folded.is_none();
            ContactRow {
                name: if renames {
                    Some(name)
                } else {
                    c.name
                },
                folded: if refold {
                    Some(folded)
                } else {
                    c.folded
                },
                send_count: c.send_count + out,
                recv_count: c.recv_count + into,
                last_interacted: Some(last),
            }
        },
    }
}

/// A text with its ASCII letters in lower case.
pub open spec fn ascii_lowered(s: Seq<char>) -> Seq<char> {
    s.map_values(|c: char| crate::text::ascii_lower(c))
}

/// The address by which a recipient is known again.
pub open spec fn recipient_key(email: Seq<char>) -> Seq<char> {
    ascii_lowered(trimmed(email))
}

fn key_of(email: &str) -> (r: String)
    ensures
        r@ == recipient_key(email@),
{
    crate::text::ascii_lowercase(trim(email).as_str())
}

/// The recipients of a message that are learned: every other person, once, in the order in which
/// they stand.
pub open spec fn learned(recipients: Seq<Address>, own: Seq<Seq<char>>) -> Seq<int>
    decreases recipients.len(),
{
    if recipients.len() == 0 {
        Seq::empty()
    } else {
        let head = recipients.drop_last();
        let before = learned(head, own);
        let key = recipient_key(recipients.last().email@);
        if key.len() > 0 && !own.contains(key) && !keys_of(head, learned(head, own)).contains(key) {
            before.push(recipients.len() - 1)
        } else {
            before
        }
    }
}

/// The addresses of the recipients at those positions.
pub open spec fn keys_of(recipients: Seq<Address>, positions: Seq<int>) -> Seq<Seq<char>> {
    positions.map_values(|i: int| recipient_key(recipients[i].email@))
}

proof fn learned_positions(recipients: Seq<Address>, own: Seq<Seq<char>>)
    ensures
        forall|j: int|
            0 <= j < learned(recipients, own).len() ==> 0 <= #[trigger] learned(
                recipients,
                own,
            )[j] < recipients.len(),
    decreases recipients.len(),
{
    if recipients.len() > 0 {
        let before = learned(recipients.drop_last(), own);
        learned_positions(recipients.drop_last(), own);
        assert forall|j: int| 0 <= j < learned(recipients, own).len() implies 0
            <= #[trigger] learned(recipients, own)[j] < recipients.len() by {
            if j < before.len() {
                assert(learned(recipients, own)[j] == before[j]);
            }
        }
    }
}

/// Everybody a message was sent to is learned once, and nobody learns themselves: the learned
/// addresses are all different, none is empty and none is the sender's own, and every other
/// address that the message was sent to is among them.
pub proof fn recipients_are_learned_once(recipients: Seq<Address>, own: Seq<Seq<char>>)
    ensures
        ({
            let keys = keys_of(recipients, learned(recipients, own));
            &&& forall|i: int, j: int|
                0 <= i < j < keys.len() ==> #[trigger] keys[i] != #[trigger] keys[j]
            &&& forall|i: int|
                0 <= i < keys.len() ==> (#[trigger] keys[i]).len() > 0 && !own.contains(keys[i])
            &&& forall|k: int|
                0 <= k < recipients.len() ==> ({
                    let key = recipient_key((#[trigger] recipients[k]).email@);
                    key.len() > 0 && !own.contains(key) ==> keys.contains(key)
                })
        }),
    decreases recipients.len(),
{
    if recipients.len() > 0 {
        let head = recipients.drop_last();
        let before = learned(head, own);
        let keys = keys_of(recipients, learned(recipients, own));
        let old_keys = keys_of(head, before);
        recipients_are_learned_once(head, own);
        learned_positions(head, own);
        assert forall|j: int| 0 <= j < before.len() implies keys[j] == #[trigger] old_keys[j] by {
            assert(learned(recipients, own)[j] == before[j]);
            assert(recipients[before[j]] == head[before[j]]);
        }
        assert forall|i: int, j: int| 0 <= i < j < keys.len() implies #[trigger] keys[i]
            != #[trigger] keys[j] by {
            assert(keys[i] == old_keys[i]);
            if j < before.len() {
                assert(keys[j] == old_keys[j]);
            } else {
                assert(old_keys.contains(old_keys[i]));
            }
        }
        assert forall|i: int| 0 <= i < keys.len() implies (#[trigger] keys[i]).len() > 0
            && !own.contains(keys[i]) by {
            if i < before.len() {
                assert(keys[i] == old_keys[i]);
            }
        }
        assert forall|k: int| 0 <= k < recipients.len() implies ({
            let key = recipient_key((#[trigger] recipients[k]).email@);
            key.len() > 0 && !own.contains(key) ==> keys.contains(key)
        }) by {
            let key = recipient_key(recipients[k].email@);
            if key.len() > 0 && !own.contains(key) {
                if k < head.len() {
                    assert(head[k] == recipients[k]);
                    assert(old_keys.contains(key));
                }
                if old_keys.contains(key) {
                    let j = choose|j: int| 0 <= j < old_keys.len() && old_keys[j] == key;
                    assert(keys[j] == key);
                } else {
                    assert(keys[before.len() as int] == key);
                }
            }
        }
    }
}

/// The positions of the recipients that are learned from a message that was sent. `own` holds the
/// sender's own addresses in lower case.
pub fn recipients_to_learn(recipients: &Vec<Address>, own: &Vec<String>) -> (r: Vec<usize>)
    ensures
        r@.map_values(|i: usize| i as int) == learned(recipients@, texts(own@)),
{
    let mut out: Vec<usize> = Vec::new();
    let mut seen: Vec<String> = Vec::new();
    let mut i: usize = 0;
    proof {
        assert(recipients@.take(0) == Seq::<Address>::empty());
        assert(out@.map_values(|i: usize| i as int) =~= Seq::<int>::empty());
        assert(texts(seen@) =~= keys_of(recipients@.take(0), Seq::empty()));
    }
    while i < recipients.len()
        invariant
            i <= recipients.len(),
            out@.map_values(|i: usize| i as int) == learned(
                recipients@.take(i as int),
                texts(own@),
            ),
            texts(seen@) == keys_of(
                recipients@.take(i as int),
                learned(recipients@.take(i as int), texts(own@)),
            ),
        decreases recipients.len() - i,
    {
        let ghost head = recipients@.take(i as int);
        let ghost now = recipients@.take(i + 1);
        proof {
            assert(now.drop_last() == head);
            assert(now.last() == recipients@[i as int]);
            learned_positions(head, texts(own@));
            assert(keys_of(now, learned(head, texts(own@))) =~= keys_of(
                head,
                learned(head, texts(own@)),
            )) by {
                assert forall|j: int| 0 <= j < learned(head, texts(own@)).len() implies keys_of(
                    now,
                    learned(head, texts(own@)),
                )[j] == keys_of(head, learned(head, texts(own@)))[j] by {
                    let p = learned(head, texts(own@))[j];
                    assert(now[p] == head[p]);
                }
            }
        }
        let key = key_of(recipients[i].email.as_str());
        if !key.as_str().is_empty() && !crate::text::has_member(own.as_slice(), key.as_str())
            && !crate::text::has_member(seen.as_slice(), key.as_str()) {
            let ghost positions = out@.map_values(|i: usize| i as int);
            let ghost keys = texts(seen@);
            out.push(i);
            seen.push(key);
            proof {
                assert(out@.map_values(|i: usize| i as int) =~= positions.push(i as int));
                assert(texts(seen@) =~= keys.push(key@));
                assert(keys_of(now, learned(now, texts(own@))) =~= keys.push(key@));
            }
        }
        i = i + 1;
    }
    proof {
        assert(recipients@.take(recipients@.len() as int) == recipients@);
    }
    out
}

/// Whether the recipients of a sent message are learned at all: once for each message, and only
/// where the user collects them.
pub fn learns(already_recorded: bool, collect: bool) -> (r: bool)
    ensures
        r == (!already_recorded && collect),
{
    !already_recorded && collect
}

/// What one word of a search must match.
pub open spec fn word_clause(param: Seq<char>) -> Seq<char> {
    "LOWER(COALESCE(folded, email) || ' ' || COALESCE(job_title, '') || ' ' || COALESCE(website, '') || ' ' || COALESCE(postal_address, '')) LIKE "@
        + param + " ESCAPE '\\'"@
}

/// The conditions that require every word.
pub open spec fn word_filter(f: Filter, tokens: Seq<Seq<char>>) -> Filter
    decreases tokens.len(),
{
    if tokens.len() == 0 {
        f
    } else {
        let before = word_filter(f, tokens.drop_last());
        let bound = before.bind(Bound::Text(holding(like_escaped(tokens.last()))));
        bound.and(word_clause(bound.param()))
    }
}

/// Require every word of a folded search; words of nothing but whitespace require nothing.
fn require_words(c: &mut Conditions, folded: &str) -> (r: usize)
    ensures
        final(c)@ == word_filter(old(c)@, words(folded@)),
        r == words(folded@).len(),
{
    let tokens = split_words(folded);
    let ghost all = texts(tokens@);
    let ghost start = c@;
    let mut i: usize = 0;
    proof {
        assert(all.take(0) == Seq::<Seq<char>>::empty());
        assert(all.len() == tokens@.len());
    }
    while i < tokens.len()
        invariant
            i <= tokens.len(),
            all == texts(tokens@),
            c@ == word_filter(start, all.take(i as int)),
        decreases tokens.len() - i,
    {
        proof {
            assert(all.take(i + 1).drop_last() == all.take(i as int));
            assert(all.take(i + 1).last() == tokens@[i as int]@);
        }
        let escaped = escape_like(tokens[i].as_str());
        let pattern = holding_pattern(escaped.as_str());
        let param = c.bind(Bind::Text(pattern));
        let clause = lit(
            "LOWER(COALESCE(folded, email) || ' ' || COALESCE(job_title, '') || ' ' || COALESCE(website, '') || ' ' || COALESCE(postal_address, '')) LIKE ",
        ).concat(param.as_str()).concat(" ESCAPE '\\'");
        c.and(clause);
        i = i + 1;
    }
    proof {
        assert(all.take(all.len() as int) == all);
    }
    tokens.len()
}

/// The condition that requires every folded query token to appear in what is stored of a contact,
/// with one bind per token; `None` for queries with no usable tokens.
pub fn folded_clauses(folded: &str) -> (r: Option<Conditions>)
    ensures
        if words(folded@).len() == 0 {
            r is None
        } else {
            r is Some && r->0@ == word_filter(Filter::all(), words(folded@))
        },
{
    let mut c = Conditions::new();
    if require_words(&mut c, folded) == 0 {
        None
    } else {
        Some(c)
    }
}

/// What is asked of the address book.
pub struct RecordQuery<'a> {
    /// The search, folded.
    pub folded: &'a str,
    pub account_id: Option<i64>,
    pub favorites_only: bool,
    pub suggestions_only: bool,
}

/// Who an account has to do with, among suggestions.
pub open spec fn account_clause(suggestions: bool, param: Seq<char>) -> Seq<char> {
    let exists_clause =
        "EXISTS ( SELECT 1 FROM contact_accounts ca WHERE ca.contact_id = contacts.id AND ca.account_id = "@
        + param + " )"@;
    if suggestions {
        exists_clause
    } else {
        "(is_managed = 1 OR "@ + exists_clause + ")"@
    }
}

/// The conditions on records: those of the address book, or those that mail alone shows; favorites
/// and one account's where asked; and every word of the search.
pub open spec fn record_filter(q: RecordQuery) -> Filter {
    let tokens = words(q.folded@);
    let searched = word_filter(Filter::all(), tokens);
    let base = if tokens.len() == 0 {
        Filter::all()
    } else {
        Filter { clauses: seq!["("@ + searched.text() + ")"@], bind: searched.bind }
    };
    let favorites = if q.favorites_only {
        base.and("is_favorite = 1"@)
    } else {
        base
    };
    let saved = favorites.and(
        if q.suggestions_only {
            "NOT "@ + saved_predicate("contacts"@) + " AND (send_count > 0 OR recv_count > 0)"@
        } else {
            saved_predicate("contacts"@)
        },
    );
    match q.account_id {
        Some(id) => {
            let bound = saved.bind(Bound::Int(id));
            bound.and(account_clause(q.suggestions_only, bound.param()))
        },
        None => saved,
    }
}

/// The conditions on records.
pub fn record_where_clause(q: &RecordQuery) -> (r: Conditions)
    ensures
        r@ == record_filter(*q),
        asks_for(r@, |db: Database, s: Scope| lists_contact(*q, db, s.row("contacts"@))),
{
    proof {
        lists_show_their_contacts(*q);
    }
    let mut c = Conditions::new();
    match folded_clauses(q.folded) {
        Some(searched) => {
            let text = lit("(").concat(searched.text().as_str()).concat(")");
            let ghost view = searched@;
            let clauses = vec![text];
            c = Conditions { clauses, bind: searched.bind };
            proof {
                assert(c@.clauses =~= seq!["("@ + view.text() + ")"@]);
                assert(c@.bind == view.bind);
            }
        },
        None => {},
    }
    if q.favorites_only {
        c.and(lit("is_favorite = 1"));
    }
    let saved = saved_contact_predicate("contacts");
    if q.suggestions_only {
        c.and(
            lit("NOT ").concat(saved.as_str()).concat(" AND (send_count > 0 OR recv_count > 0)"),
        );
    } else {
        c.and(saved);
    }
    match q.account_id {
        Some(id) => {
            let param = c.bind(Bind::Int(id));
            let inner = lit(
                "EXISTS ( SELECT 1 FROM contact_accounts ca WHERE ca.contact_id = contacts.id AND ca.account_id = ",
            ).concat(param.as_str()).concat(" )");
            if q.suggestions_only {
                c.and(inner);
            } else {
                c.and(lit("(is_managed = 1 OR ").concat(inner.as_str()).concat(")"));
            }
        },
        None => {},
    }
    c
}

/// How many records are listed for a limit.
pub open spec fn list_limit(limit: i64) -> i64 {
    if limit < 1 {
        1
    } else if limit > 500 {
        500
    } else {
        limit
    }
}

/// The conditions of a list of address-book records for the dedicated contacts workspace, and the
/// parameter of its limit. An empty search lists the full directory; otherwise every folded word
/// must match.
pub fn list_records(folded: &str, limit: i64) -> (r: (Conditions, String))
    ensures
        ({
            let f = record_filter(
                (RecordQuery {
                    folded,
                    account_id: None,
                    favorites_only: false,
                    suggestions_only: false,
                }),
            ).bind(Bound::Int(list_limit(limit)));
            r.0@ == f && r.1@ == f.param()
        }),
{
    let q = RecordQuery {
        folded,
        account_id: None,
        favorites_only: false,
        suggestions_only: false,
    };
    let mut c = record_where_clause(&q);
    let top: i64 = if limit < 1 {
        1
    } else if limit > 500 {
        500
    } else {
        limit
    };
    let param = c.bind(Bind::Int(top));
    (c, param)
}

/// What a record is sorted by.
pub open spec fn sort_column() -> Seq<char> {
    "CASE WHEN name IS NULL OR name = '' THEN email ELSE name END"@
}

/// What every record reads of a contact.
pub open spec fn record_select() -> Seq<char> {
    "SELECT id, COALESCE(name, ''), email, phone, company, job_title, website, birthday, postal_address, notes, tags, is_favorite, send_count * 3 + recv_count, last_interacted, CASE WHEN "@
        + saved_predicate("contacts"@)
        + " THEN 1 ELSE 0 END, COALESCE((SELECT GROUP_CONCAT(ca.account_id) FROM contact_accounts ca WHERE ca.contact_id = contacts.id), '') FROM contacts"@
}

fn select_record() -> (r: String)
    ensures
        r@ == record_select(),
{
    lit(
        "SELECT id, COALESCE(name, ''), email, phone, company, job_title, website, birthday, postal_address, notes, tags, is_favorite, send_count * 3 + recv_count, last_interacted, CASE WHEN ",
    ).concat(saved_contact_predicate("contacts").as_str()).concat(
        " THEN 1 ELSE 0 END, COALESCE((SELECT GROUP_CONCAT(ca.account_id) FROM contact_accounts ca WHERE ca.contact_id = contacts.id), '') FROM contacts",
    )
}

/// The query of one record, by its first parameter.
pub fn record_query() -> (r: String)
    ensures
        r@ == record_select() + " WHERE id = ?1"@,
{
    select_record().concat(" WHERE id = ?1")
}

/// The query of the records that meet conditions, up to the limit that a parameter gives: favorites
/// first, then by name, by email and by id.
pub fn records_query(conditions: &Conditions, limit: &str) -> (r: String)
    ensures
        r@ == record_select() + " "@ + conditions@.behind("WHERE "@)
            + " ORDER BY is_favorite DESC, "@ + sort_column()
            + " COLLATE NOCASE, email COLLATE NOCASE, id ASC LIMIT "@ + limit@,
{
    select_record().concat(" ").concat(conditions.behind("WHERE ").as_str()).concat(
        " ORDER BY is_favorite DESC, ",
    ).concat("CASE WHEN name IS NULL OR name = '' THEN email ELSE name END").concat(
        " COLLATE NOCASE, email COLLATE NOCASE, id ASC LIMIT ",
    ).concat(limit)
}

/// Which records stand behind a cursor: the complete sort tuple, so that contacts inserted before
/// the cursor cannot shift or duplicate later pages.
pub open spec fn cursor_clause(favorite: Seq<char>, name: Seq<char>, email: Seq<char>, id: Seq<char>) -> Seq<
    char,
> {
    let sort = sort_column();
    "( is_favorite < "@ + favorite + " OR (is_favorite = "@ + favorite + " AND ( "@ + sort
        + " COLLATE NOCASE > "@ + name + " COLLATE NOCASE OR ("@ + sort + " COLLATE NOCASE = "@
        + name + " COLLATE NOCASE AND ( email COLLATE NOCASE > "@ + email
        + " COLLATE NOCASE OR (email COLLATE NOCASE = "@ + email + " COLLATE NOCASE AND id > "@ + id
        + ") )) )) )"@
}

/// The conditions on a page of records.
pub open spec fn page_filter(q: RecordQuery, cursor: Option<ContactRecordCursor>) -> Filter {
    let base = record_filter(q);
    match cursor {
        Some(c) => {
            let f1 = base.bind(
                Bound::Int(
                    if c.is_favorite {
                        1
                    } else {
                        0
                    },
                ),
            );
            let f2 = f1.bind(Bound::Text(c.sort_name@));
            let f3 = f2.bind(Bound::Text(c.email@));
            let f4 = f3.bind(Bound::Int(c.id));
            f4.and(cursor_clause(f1.param(), f2.param(), f3.param(), f4.param()))
        },
        None => base,
    }
}

/// How many records a page holds.
pub open spec fn page_limit(limit: i64) -> int {
    if limit < 1 {
        1
    } else if limit > 100 {
        100
    } else {
        limit as int
    }
}

fn clamp_page(limit: i64) -> (r: i64)
    ensures
        r == page_limit(limit),
        1 <= r <= 100,
{
    if limit < 1 {
        1
    } else if limit > 100 {
        100
    } else {
        limit
    }
}

/// The conditions on a page of records, and the parameter of its limit: one record more than the
/// page holds, to know whether more follow.
pub fn record_page_query(q: &RecordQuery, cursor: Option<&ContactRecordCursor>, limit: i64) -> (r: (
    Conditions,
    String,
))
    ensures
        ({
            let f = page_filter(
                *q,
                match cursor {
                    Some(c) => Some(*c),
                    None => None,
                },
            ).bind(Bound::Int((page_limit(limit) + 1) as i64));
            r.0@ == f && r.1@ == f.param()
        }),
{
    let mut c = record_where_clause(q);
    match cursor {
        Some(at) => {
            let favorite = c.bind(
                Bind::Int(
                    if at.is_favorite {
                        1
                    } else {
                        0
                    },
                ),
            );
            let name = c.bind(Bind::Text(at.sort_name.clone()));
            let email = c.bind(Bind::Text(at.email.clone()));
            let id = c.bind(Bind::Int(at.id));
            let sort = "CASE WHEN name IS NULL OR name = '' THEN email ELSE name END";
            let clause = lit("( is_favorite < ").concat(favorite.as_str()).concat(
                " OR (is_favorite = ",
            ).concat(favorite.as_str()).concat(" AND ( ").concat(sort).concat(
                " COLLATE NOCASE > ",
            ).concat(name.as_str()).concat(" COLLATE NOCASE OR (").concat(sort).concat(
                " COLLATE NOCASE = ",
            ).concat(name.as_str()).concat(
                " COLLATE NOCASE AND ( email COLLATE NOCASE > ",
            ).concat(email.as_str()).concat(" COLLATE NOCASE OR (email COLLATE NOCASE = ").concat(
                email.as_str(),
            ).concat(" COLLATE NOCASE AND id > ").concat(id.as_str()).concat(") )) )) )");
            c.and(clause);
        },
        None => {},
    }
    let top: i64 = clamp_page(limit) + 1;
    let param = c.bind(Bind::Int(top));
    (c, param)
}

/// A page of records, with the counts of the sidebar.
pub struct ContactRecordPage {
    pub records: Vec<ContactRecord>,
    pub next_cursor: Option<ContactRecordCursor>,
    /// How many contacts the address book holds.
    pub total_count: usize,
    /// How many of them are favorites.
    pub favorite_count: usize,
    /// How many more mail alone shows.
    pub suggestion_count: usize,
    /// How many contacts of the address book each account has.
    pub account_counts: Vec<(i64, usize)>,
}

/// The condition of a whole list: of the address book or of what mail alone shows, of favorites
/// alone or not.
pub open spec fn list_condition(favorites_only: bool, suggestions_only: bool) -> Seq<char> {
    record_filter(
        (RecordQuery { folded: "", account_id: None, favorites_only, suggestions_only }),
    ).text()
}

/// How many records meet a condition, as a query asks for it.
pub open spec fn number_of(condition: Seq<char>) -> Seq<char> {
    "COALESCE(SUM(CASE WHEN "@ + condition + " THEN 1 ELSE 0 END), 0)"@
}

fn number_in_list(favorites_only: bool, suggestions_only: bool) -> (r: String)
    ensures
        r@ == number_of(list_condition(favorites_only, suggestions_only)),
{
    let q = RecordQuery { folded: "", account_id: None, favorites_only, suggestions_only };
    let c = record_where_clause(&q);
    lit("COALESCE(SUM(CASE WHEN ").concat(c.text().as_str()).concat(" THEN 1 ELSE 0 END), 0)")
}

/// The query of the scalar counts of the sidebar: how many records the address book, its favorites
/// and the suggestions list, each counted by the condition of its list.
pub fn record_counts_query() -> (r: String)
    ensures
        r@ == "SELECT "@ + number_of(list_condition(false, false)) + ", "@ + number_of(
            list_condition(true, false),
        ) + ", "@ + number_of(list_condition(false, true)) + " FROM contacts"@,
{
    lit("SELECT ").concat(number_in_list(false, false).as_str()).concat(", ").concat(
        number_in_list(true, false).as_str(),
    ).concat(", ").concat(number_in_list(false, true).as_str()).concat(" FROM contacts")
}

/// The query that counts for each account the contacts of the address book that are managed here or
/// belong to the account, each once.
pub fn account_counts_query() -> (r: String)
    ensures
        r@ == "SELECT a.id, COUNT(DISTINCT c.id) FROM accounts a LEFT JOIN contacts c ON "@
            + saved_predicate("c"@)
            + " AND (c.is_managed = 1 OR EXISTS ( SELECT 1 FROM contact_accounts ca WHERE ca.contact_id = c.id AND ca.account_id = a.id )) GROUP BY a.id"@,
{
    lit("SELECT a.id, COUNT(DISTINCT c.id) FROM accounts a LEFT JOIN contacts c ON ").concat(
        saved_contact_predicate("c").as_str(),
    ).concat(
        " AND (c.is_managed = 1 OR EXISTS ( SELECT 1 FROM contact_accounts ca WHERE ca.contact_id = c.id AND ca.account_id = a.id )) GROUP BY a.id",
    )
}

/// The counts of the sidebar as the queries report them.
pub struct ReportedCounts {
    pub total: i64,
    pub favorites: i64,
    pub suggestions: i64,
    /// The account, and how many contacts it has.
    pub accounts: Vec<(i64, i64)>,
}

impl ReportedCounts {
    /// Whether every count can be held.
    pub open spec fn fit(self) -> bool {
        &&& self.total <= usize::MAX
        &&& self.favorites <= usize::MAX
        &&& self.suggestions <= usize::MAX
        &&& forall|i: int| 0 <= i < self.accounts@.len() ==> (#[trigger] self.accounts@[i]).1
            <= usize::MAX
    }
}

/// Whether a page shows the counts that were reported.
pub open spec fn shows_counts(page: ContactRecordPage, reported: ReportedCounts) -> bool {
    &&& page.total_count == counted(reported.total)
    &&& page.favorite_count == counted(reported.favorites)
    &&& page.suggestion_count == counted(reported.suggestions)
    &&& page.account_counts@.len() == reported.accounts@.len()
    &&& forall|i: int|
        0 <= i < reported.accounts@.len() ==> (#[trigger] page.account_counts@[i]).0
            == reported.accounts@[i].0 && page.account_counts@[i].1 == counted(
            reported.accounts@[i].1,
        )
}

fn account_counts(reported: &Vec<(i64, i64)>) -> (r: Vec<(i64, usize)>)
    requires
        forall|i: int| 0 <= i < reported@.len() ==> (#[trigger] reported@[i]).1 <= usize::MAX,
    ensures
        r@.len() == reported@.len(),
        forall|i: int|
            0 <= i < reported@.len() ==> (#[trigger] r@[i]).0 == reported@[i].0 && r@[i].1
                == counted(reported@[i].1),
{
    let mut out: Vec<(i64, usize)> = Vec::new();
    let mut i: usize = 0;
    while i < reported.len()
        invariant
            i <= reported.len(),
            out@.len() == i,
            forall|k: int|
                0 <= k < reported@.len() ==> (#[trigger] reported@[k]).1 <= usize::MAX,
            forall|k: int|
                0 <= k < i ==> (#[trigger] out@[k]).0 == reported@[k].0 && out@[k].1 == counted(
                    reported@[k].1,
                ),
        decreases reported.len() - i,
    {
        out.push((reported[i].0, count(reported[i].1)));
        i = i + 1;
    }
    out
}

/// Whether a cursor stands at a record.
pub open spec fn stands_at_record(c: ContactRecordCursor, r: ContactRecord) -> bool {
    &&& c.is_favorite == r.is_favorite
    &&& c.sort_name@ == sort_name(r)
    &&& c.email@ == r.email@
    &&& c.id == r.id
}

/// Whether a page is what is cut off the records that were read; a record more than it holds says
/// that more follow.
pub open spec fn is_page(read: Seq<ContactRecord>, limit: i64, page: ContactRecordPage) -> bool {
    let n = page_limit(limit);
    if read.len() > n {
        &&& page.records@ == read.take(n)
        &&& page.next_cursor is Some
        &&& stands_at_record(page.next_cursor->0, read[n - 1])
    } else {
        page.records@ == read && page.next_cursor is None
    }
}

/// Cut a page off the records that were read; the look-ahead record says whether more follow. The
/// counts of the sidebar stand on every page.
pub fn list_record_page(
    records: Vec<ContactRecord>,
    limit: i64,
    reported: ReportedCounts,
) -> (r: ContactRecordPage)
    requires
        reported.fit(),
    ensures
        is_page(records@, limit, r),
        shows_counts(r, reported),
{
    let total_count: usize = count(reported.total);
    let favorite_count: usize = count(reported.favorites);
    let suggestion_count: usize = count(reported.suggestions);
    let account_counts = account_counts(&reported.accounts);
    let n: usize = clamp_page(limit) as usize;
    let mut records = records;
    let ghost all = records@;
    if records.len() <= n {
        return ContactRecordPage {
            records,
            next_cursor: None,
            total_count,
            favorite_count,
            suggestion_count,
            account_counts,
        };
    }
    records.truncate(n);
    proof {
        assert(records@ =~= all.take(n as int));
    }
    let last = &records[n - 1];
    let cursor = ContactRecordCursor {
        is_favorite: last.is_favorite,
        sort_name: if last.name.as_str().is_empty() {
            last.email.clone()
        } else {
            last.name.clone()
        },
        email: last.email.clone(),
        id: last.id,
    };
    ContactRecordPage {
        records,
        next_cursor: Some(cursor),
        total_count,
        favorite_count,
        suggestion_count,
        account_counts,
    }
}

/// What a record is sorted by among the favorites or the others.
pub open spec fn sort_name(r: ContactRecord) -> Seq<char> {
    if r.name@.len() == 0 {
        r.email@
    } else {
        r.name@
    }
}

/// How two texts are ordered where the case of ASCII letters does not count.
pub open spec fn nocase_order(a: Seq<char>, b: Seq<char>) -> int {
    crate::text::text_order(ascii_lowered(a), ascii_lowered(b))
}

/// Whether a record comes behind a cursor: favorites first, then by name, by email and by id.
pub open spec fn record_behind(r: ContactRecord, c: ContactRecordCursor) -> bool {
    let name = nocase_order(sort_name(r), c.sort_name@);
    let email = nocase_order(r.email@, c.email@);
    (c.is_favorite && !r.is_favorite) || (r.is_favorite == c.is_favorite && (name > 0 || (name == 0
        && (email > 0 || (email == 0 && r.id > c.id)))))
}

/// Where a page ends that ends with a record.
pub open spec fn cursor_at(r: ContactRecord) -> ContactRecordCursor {
    ContactRecordCursor {
        is_favorite: r.is_favorite,
        sort_name: if r.name@.len() == 0 {
            r.email
        } else {
            r.name
        },
        email: r.email,
        id: r.id,
    }
}

/// Whether records stand in the order in which they are listed: favorites first, then by name, by
/// email and by id.
pub open spec fn records_in_order(all: Seq<ContactRecord>) -> bool {
    forall|i: int, j: int|
        0 <= i < j < all.len() ==> record_behind(#[trigger] all[j], cursor_at(#[trigger] all[i]))
}

/// What is read for a page: those behind the cursor, one more than the page holds.
pub open spec fn records_read(
    all: Seq<ContactRecord>,
    cursor: Option<ContactRecordCursor>,
    limit: i64,
) -> Seq<ContactRecord> {
    let behind = match cursor {
        Some(c) => all.filter(|r: ContactRecord| record_behind(r, c)),
        None => all,
    };
    if behind.len() > page_limit(limit) {
        behind.take(page_limit(limit) + 1)
    } else {
        behind
    }
}

/// Whether pages are those of one walk through the records: each is read behind the end of the one
/// before, and the last says that nothing follows.
pub open spec fn is_walk(
    all: Seq<ContactRecord>,
    limit: i64,
    pages: Seq<ContactRecordPage>,
) -> bool {
    &&& pages.len() > 0
    &&& is_page(records_read(all, None, limit), limit, pages[0])
    &&& forall|i: int|
        0 < i < pages.len() ==> pages[i - 1].next_cursor is Some && is_page(
            records_read(all, pages[i - 1].next_cursor, limit),
            limit,
            #[trigger] pages[i],
        )
    &&& pages.last().next_cursor is None
}

/// The records of pages, one page behind the other.
pub open spec fn records_shown(pages: Seq<ContactRecordPage>) -> Seq<ContactRecord>
    decreases pages.len(),
{
    if pages.len() == 0 {
        Seq::empty()
    } else {
        records_shown(pages.drop_last()) + pages.last().records@
    }
}

/// What stands behind a record's place is what follows it.
proof fn behind_a_record(all: Seq<ContactRecord>, n: int, end: ContactRecordCursor)
    requires
        records_in_order(all),
        0 < n <= all.len(),
        stands_at_record(end, all[n - 1]),
    ensures
        all.filter(|r: ContactRecord| record_behind(r, end)) == all.skip(n),
{
    let p = |r: ContactRecord| record_behind(r, end);
    let last = all[n - 1];
    assert forall|i: int| 0 <= i < n implies !p(#[trigger] all[i]) by {
        crate::text::text_order_is_total(
            ascii_lowered(sort_name(all[i])),
            ascii_lowered(sort_name(last)),
            ascii_lowered(sort_name(all[i])),
        );
        crate::text::text_order_is_total(
            ascii_lowered(all[i].email@),
            ascii_lowered(last.email@),
            ascii_lowered(all[i].email@),
        );
        if i < n - 1 {
            assert(record_behind(last, cursor_at(all[i])));
        }
    }
    assert forall|i: int| n <= i < all.len() implies p(#[trigger] all[i]) by {
        assert(record_behind(all[i], cursor_at(last)));
    }
    crate::sorting::filter_keeps_tail(all, p, n);
}

/// A page that is read from a place of the list on goes on from there.
proof fn page_goes_on(all: Seq<ContactRecord>, m: int, limit: i64, page: ContactRecordPage)
    requires
        0 <= m <= all.len(),
        is_page(records_read(all.skip(m), None, limit), limit, page),
    ensures
        ({
            let end = m + page.records@.len();
            &&& end <= all.len()
            &&& all.take(m) + page.records@ == all.take(end)
            &&& match page.next_cursor {
                Some(c) => m < end < all.len() && stands_at_record(c, all[end - 1])
                    && page.records@.len() == page_limit(limit),
                None => end == all.len() && page.records@.len() <= page_limit(limit),
            }
        }),
{
    let n = page_limit(limit);
    let rest = all.skip(m);
    let read = records_read(rest, None, limit);
    if rest.len() > n {
        assert(read =~= rest.take(n + 1));
        assert(page.records@ =~= all.subrange(m, m + n));
        assert(all.take(m) + page.records@ =~= all.take(m + n));
        assert(read[n - 1] == all[m + n - 1]);
    } else {
        assert(read == rest);
        assert(all.take(m) + page.records@ =~= all.take(all.len() as int));
    }
}

/// After any number of pages, what was shown is where the list begins, and the walk goes on right
/// behind it.
proof fn walk_shows_a_beginning(
    all: Seq<ContactRecord>,
    limit: i64,
    pages: Seq<ContactRecordPage>,
    k: int,
)
    requires
        records_in_order(all),
        is_walk(all, limit, pages),
        0 < k <= pages.len(),
    ensures
        ({
            let shown = records_shown(pages.take(k));
            &&& shown.len() <= all.len()
            &&& shown == all.take(shown.len() as int)
            &&& match pages[k - 1].next_cursor {
                Some(end) => 0 < shown.len() < all.len() && stands_at_record(
                    end,
                    all[shown.len() - 1],
                ) && pages[k - 1].records@.len() == page_limit(limit),
                None => shown.len() == all.len() && pages[k - 1].records@.len() <= page_limit(limit),
            }
        }),
    decreases k,
{
    let now = pages.take(k);
    assert(now.last() == pages[k - 1]);
    assert(now.drop_last() =~= pages.take(k - 1));
    let before = records_shown(pages.take(k - 1));
    let m = before.len() as int;
    if k == 1 {
        assert(pages.take(0) =~= Seq::<ContactRecordPage>::empty());
        assert(before =~= all.take(0));
        assert(all.skip(0) =~= all);
    } else {
        walk_shows_a_beginning(all, limit, pages, k - 1);
        assert(is_page(
            records_read(all, pages[k - 2].next_cursor, limit),
            limit,
            pages[k - 1],
        ));
        behind_a_record(all, m, pages[k - 2].next_cursor->0);
        assert(records_read(all, pages[k - 2].next_cursor, limit) == records_read(
            all.skip(m),
            None,
            limit,
        ));
    }
    page_goes_on(all, m, limit, pages[k - 1]);
}

/// Pages of the address book miss no contact and show none twice, not even among contacts of the
/// same name: the pages of a walk, one behind the other, are the list itself. Every page but the
/// last is full, and the last holds no more than a page does.
pub proof fn pages_miss_no_contact(
    all: Seq<ContactRecord>,
    limit: i64,
    pages: Seq<ContactRecordPage>,
)
    requires
        records_in_order(all),
        is_walk(all, limit, pages),
    ensures
        records_shown(pages) == all,
        forall|i: int|
            0 <= i < pages.len() - 1 ==> (#[trigger] pages[i]).records@.len() == page_limit(limit),
        pages.last().records@.len() <= page_limit(limit),
{
    assert(pages.take(pages.len() as int) =~= pages);
    walk_shows_a_beginning(all, limit, pages, pages.len() as int);
    assert(all.take(all.len() as int) =~= all);
    assert forall|i: int| 0 <= i < pages.len() - 1 implies (#[trigger] pages[i]).records@.len()
        == page_limit(limit) by {
        walk_shows_a_beginning(all, limit, pages, i + 1);
        assert(is_page(records_read(all, pages[i].next_cursor, limit), limit, pages[i + 1]));
    }
}

/// A count of the sidebar says how many records its list shows: what is counted by the condition of
/// a list is what all its pages hold together.
pub proof fn lists_are_as_long_as_counted(
    all: Seq<ContactRecord>,
    limit: i64,
    pages: Seq<ContactRecordPage>,
    reported: i64,
)
    requires
        records_in_order(all),
        is_walk(all, limit, pages),
        reported == all.len(),
    ensures
        records_shown(pages).len() == counted(reported),
{
    pages_miss_no_contact(all, limit, pages);
}

/// A contact that comes to stand before a page's end changes nothing of the pages behind it.
pub proof fn pages_do_not_shift(
    all: Seq<ContactRecord>,
    at: int,
    added: ContactRecord,
    end: ContactRecordCursor,
    limit: i64,
)
    requires
        0 <= at <= all.len(),
        !record_behind(added, end),
    ensures
        records_read(all.insert(at, added), Some(end), limit) == records_read(all, Some(end), limit),
{
    let p = |r: ContactRecord| record_behind(r, end);
    let before = all.take(at);
    let after = all.skip(at);
    assert(all.insert(at, added) =~= before + seq![added] + after);
    assert(all =~= before + after);
    assert(seq![added].filter(p) =~= Seq::<ContactRecord>::empty()) by {
        reveal_with_fuel(Seq::filter, 2);
    }
    Seq::filter_distributes_over_add(before + seq![added], after, p);
    Seq::filter_distributes_over_add(before, seq![added], p);
    Seq::filter_distributes_over_add(before, after, p);
}

/// A record as it is stored: every text without the whitespace around it, the email in lower case.
pub struct StoredRecord {
    pub name: String,
    pub email: String,
    pub phone: String,
    pub company: String,
    pub job_title: String,
    pub website: String,
    pub birthday: String,
    pub postal_address: String,
    pub notes: String,
    pub tags: String,
    /// What the folded form is made from.
    pub text: String,
    /// Whether a record that is there is changed, or one is added.
    pub update: bool,
}

/// The email of a record as it is stored.
pub open spec fn stored_email(email: Seq<char>) -> Seq<char> {
    lowercase(trimmed(email))
}

/// Prepare a user-managed contact for the store.
pub fn save_record(record: &ContactRecord) -> (r: Result<StoredRecord>)
    ensures
        ({
            let email = stored_email(record.email@);
            if email.len() == 0 || !email.contains('@') {
                fails(r, "contact email address is invalid"@)
            } else {
                let s = r->Ok_0;
                &&& r is Ok
                &&& s.email@ == email
                &&& s.name@ == trimmed(record.name@)
                &&& s.phone@ == trimmed(record.phone@)
                &&& s.company@ == trimmed(record.company@)
                &&& s.job_title@ == trimmed(record.job_title@)
                &&& s.website@ == trimmed(record.website@)
                &&& s.birthday@ == trimmed(record.birthday@)
                &&& s.postal_address@ == trimmed(record.postal_address@)
                &&& s.notes@ == trimmed(record.notes@)
                &&& s.tags@ == trimmed(record.tags@)
                &&& s.text@ == trimmed(record.name@) + " "@ + email + " "@ + record.company@ + " "@
                    + record.phone@ + " "@ + record.job_title@ + " "@ + record.website@ + " "@
                    + record.tags@ + " "@ + record.postal_address@
                &&& s.update == (record.id > 0)
            }
        }),
{
    let email = trim(record.email.as_str()).as_str().to_lowercase();
    let name = trim(record.name.as_str());
    if email.as_str().is_empty() || !has_char(email.as_str(), '@') {
        return Err(other("contact email address is invalid"));
    }
    let text = name.clone().concat(" ").concat(email.as_str()).concat(" ").concat(
        record.company.as_str(),
    ).concat(" ").concat(record.phone.as_str()).concat(" ").concat(
        record.job_title.as_str(),
    ).concat(" ").concat(record.website.as_str()).concat(" ").concat(
        record.tags.as_str(),
    ).concat(" ").concat(record.postal_address.as_str());
    Ok(
        StoredRecord {
            name,
            email,
            phone: trim(record.phone.as_str()),
            company: trim(record.company.as_str()),
            job_title: trim(record.job_title.as_str()),
            website: trim(record.website.as_str()),
            birthday: trim(record.birthday.as_str()),
            postal_address: trim(record.postal_address.as_str()),
            notes: trim(record.notes.as_str()),
            tags: trim(record.tags.as_str()),
            text,
            update: record.id > 0,
        },
    )
}

/// Whether a change found its contact.
pub fn check_changed(changed: usize) -> (r: Result<()>)
    ensures
        r is Ok <==> changed > 0,
        r matches Err(e) ==> says(e, "contact not found"@),
{
    if changed == 0 {
        return Err(other("contact not found"));
    }
    Ok(())
}

/// The query that reads the affinity of people by address.
pub fn affinity_for(count: usize) -> (r: Option<String>)
    requires
        count < usize::MAX,
    ensures
        if count == 0 {
            r is None
        } else {
            opt(r) == Some(
                "SELECT email, send_count * 3 + recv_count FROM contacts WHERE email IN ("@
                    + parameters(count as int) + ")"@,
            )
        },
{
    if count == 0 {
        return None;
    }
    let list = numbered_parameters(count);
    Some(
        lit("SELECT email, send_count * 3 + recv_count FROM contacts WHERE email IN (").concat(
            list.as_str(),
        ).concat(")"),
    )
}

/// The query for people whose words match, ranked by how much there was to do with them.
pub open spec fn suggest_sql(
    f: Filter,
    account: Option<i64>,
    include_suggestions: bool,
    limit: i64,
) -> (Seq<char>, Filter) {
    let saved = if include_suggestions {
        Seq::empty()
    } else {
        " AND "@ + saved_predicate("c"@)
    };
    match account {
        Some(id) => {
            let f1 = f.bind(Bound::Int(id));
            let f2 = f1.bind(Bound::Int(limit));
            (
                "SELECT c.name, c.email, COALESCE(ca.send_count * 3 + ca.recv_count, c.send_count * 3 + c.recv_count) FROM contacts c LEFT JOIN contact_accounts ca ON ca.contact_id = c.id AND ca.account_id = "@
                    + f1.param() + " WHERE ("@ + f.text()
                    + ") AND (ca.account_id IS NOT NULL OR c.is_managed = 1)"@ + saved
                    + " ORDER BY COALESCE(ca.send_count * 3 + ca.recv_count, c.send_count * 3 + c.recv_count) DESC, COALESCE(ca.last_interacted, c.last_interacted) DESC LIMIT "@
                    + f2.param(),
                f2,
            )
        },
        None => {
            let f1 = f.bind(Bound::Int(limit));
            (
                "SELECT name, email, send_count * 3 + recv_count FROM contacts c WHERE "@ + f.text()
                    + saved
                    + " ORDER BY (send_count * 3 + recv_count) DESC, last_interacted DESC LIMIT "@
                    + f1.param(),
                f1,
            )
        },
    }
}

/// The query for contacts matching every query token (accent- and case-insensitive), ranked
/// by interaction affinity - people you actually email float to the top. With an account, only
/// contacts that account has corresponded with are found; `None` for a search without words.
pub fn suggest(folded: &str, account_id: Option<i64>, include_suggestions: bool, limit: i64) -> (r: Option<
    (String, Vec<Bind>),
>)
    ensures
        if words(folded@).len() == 0 {
            r is None
        } else {
            let (sql, f) = suggest_sql(
                word_filter(Filter::all(), words(folded@)),
                account_id,
                include_suggestions,
                limit,
            );
            r is Some && (r->0).0@ == sql && bounds((r->0).1@) == f.bind
        },
{
    let mut c = match folded_clauses(folded) {
        Some(c) => c,
        None => {
            return None;
        },
    };
    let wanted = c.text();
    let saved = if include_suggestions {
        String::new()
    } else {
        let p = saved_contact_predicate("c");
        lit(" AND ").concat(p.as_str())
    };
    let sql = match account_id {
        Some(id) => {
            let account = c.bind(Bind::Int(id));
            let top = c.bind(Bind::Int(limit));
            lit(
                "SELECT c.name, c.email, COALESCE(ca.send_count * 3 + ca.recv_count, c.send_count * 3 + c.recv_count) FROM contacts c LEFT JOIN contact_accounts ca ON ca.contact_id = c.id AND ca.account_id = ",
            ).concat(account.as_str()).concat(" WHERE (").concat(wanted.as_str()).concat(
                ") AND (ca.account_id IS NOT NULL OR c.is_managed = 1)",
            ).concat(saved.as_str()).concat(
                " ORDER BY COALESCE(ca.send_count * 3 + ca.recv_count, c.send_count * 3 + c.recv_count) DESC, COALESCE(ca.last_interacted, c.last_interacted) DESC LIMIT ",
            ).concat(top.as_str())
        },
        None => {
            let top = c.bind(Bind::Int(limit));
            lit("SELECT name, email, send_count * 3 + recv_count FROM contacts c WHERE ").concat(
                wanted.as_str(),
            ).concat(saved.as_str()).concat(
                " ORDER BY (send_count * 3 + recv_count) DESC, last_interacted DESC LIMIT ",
            ).concat(top.as_str())
        },
    };
    Some((sql, c.bind))
}

} // verus!
