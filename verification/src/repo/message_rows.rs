//! Which messages a search finds, as its conditions say it of the rows that are stored.

use crate::repo::rows::{
    also, asks_for, asks_for_one_more, asks_in_other_words, both, both_hold, cell_text, column,
    comparisons_hold, either, either_holds, equal, existence_is_known, exists_in_table, found,
    group, group_holds, is_plain, like, lookups_hold, lower, not_holds, numbers_are_read,
    patterns_match_what_holds_the_text, same_cell, texts_join, Cell, Cond, Database, Row, Scope,
    Source, Term,
};
use crate::repo::search::{hides_trash_and_spam, ParsedQuery};
use crate::repo::sql::{holding, Bound, Filter};
use crate::text::{has_text, lowercase};
use vstd::prelude::*;
use vstd::string::*;

verus! {

/// The value of a column in lower case, or an empty text.
spec fn folded(name: Seq<char>) -> Term {
    Term::Lower(Box::new(Term::OrEmpty(Box::new(column("m"@, name)))))
}

spec fn from_condition(pattern: Term) -> Cond {
    group(
        false,
        either(
            Cond::Like(folded("from_addr"@), pattern),
            Cond::Like(folded("from_name"@), pattern),
        ),
    )
}

spec fn to_condition(pattern: Term) -> Cond {
    Cond::Like(Term::Lower(Box::new(column("m"@, "to_json"@))), pattern)
}

spec fn own_folder() -> Cond {
    equal(column("f"@, "id"@), column("m"@, "folder_id"@))
}

spec fn folder_condition(role: Term) -> Cond {
    found(
        false,
        Source::Table("folders"@, "f"@),
        both(own_folder(), equal(column("f"@, "role"@), role)),
    )
}

/// The message stands in Trash or in Spam.
spec fn thrown_away() -> Cond {
    found(
        false,
        Source::Table("folders"@, "f"@),
        both(own_folder(), Cond::OneOfTwo(column("f"@, "role"@), "trash"@, "spam"@)),
    )
}

spec fn hidden_condition() -> Cond {
    Cond::Not(Box::new(thrown_away()))
}

proof fn from_texts_split()
    ensures
        "(LOWER(COALESCE(m.from_addr,'')) LIKE "@
            == "("@ + "LOWER("@ + "COALESCE("@ + "m"@ + "."@ + "from_addr"@ + ",'')"@ + ")"@
                + " LIKE "@,
        " OR LOWER(COALESCE(m.from_name,'')) LIKE "@
            == " OR "@ + "LOWER("@ + "COALESCE("@ + "m"@ + "."@ + "from_name"@ + ",'')"@ + ")"@
                + " LIKE "@,
{
    assert("(LOWER(COALESCE(m.from_addr,'')) LIKE "@
        =~= "("@ + "LOWER("@ + "COALESCE("@ + "m"@ + "."@ + "from_addr"@ + ",'')"@ + ")"@
            + " LIKE "@) by {
        reveal_strlit("(LOWER(COALESCE(m.from_addr,'')) LIKE ");
        reveal_strlit("(");
        reveal_strlit("LOWER(");
        reveal_strlit("COALESCE(");
        reveal_strlit("m");
        reveal_strlit(".");
        reveal_strlit("from_addr");
        reveal_strlit(",'')");
        reveal_strlit(")");
        reveal_strlit(" LIKE ");
    }
    assert(" OR LOWER(COALESCE(m.from_name,'')) LIKE "@
        =~= " OR "@ + "LOWER("@ + "COALESCE("@ + "m"@ + "."@ + "from_name"@ + ",'')"@ + ")"@
            + " LIKE "@) by {
        reveal_strlit(" OR LOWER(COALESCE(m.from_name,'')) LIKE ");
        reveal_strlit(" OR ");
        reveal_strlit("LOWER(");
        reveal_strlit("COALESCE(");
        reveal_strlit("m");
        reveal_strlit(".");
        reveal_strlit("from_name");
        reveal_strlit(",'')");
        reveal_strlit(")");
        reveal_strlit(" LIKE ");
    }
}

#[verifier::rlimit(40)]
proof fn from_is_read(pattern: Term)
    ensures
        from_condition(pattern).text() == "(LOWER(COALESCE(m.from_addr,'')) LIKE "@ + pattern.text()
            + " OR LOWER(COALESCE(m.from_name,'')) LIKE "@ + pattern.text() + ")"@,
{
    from_texts_split();
    let whole = from_condition(pattern);
    let alternatives = *(whole->Group_1);
    let address = *(alternatives->Either_0);
    let name = *(alternatives->Either_1);
    assert(address.text() == "LOWER("@ + ("COALESCE("@ + ("m"@ + "."@ + "from_addr"@) + ",'')"@)
        + ")"@ + " LIKE "@ + pattern.text()) by {
        reveal_with_fuel(Term::text, 4);
    }
    assert(name.text() == "LOWER("@ + ("COALESCE("@ + ("m"@ + "."@ + "from_name"@) + ",'')"@) + ")"@
        + " LIKE "@ + pattern.text()) by {
        reveal_with_fuel(Term::text, 4);
    }
    assert(alternatives.text() == address.text() + " OR "@ + name.text());
    assert(whole.text() == "("@ + alternatives.text() + ")"@);
    texts_join();
}

/// Those of the clauses that are short.
#[verifier::rlimit(40)]
proof fn short_clauses_are_read(p: Term)
    ensures
        equal(column("m"@, "account_id"@), p).text() == "m.account_id = "@ + p.text(),
        to_condition(p).text() == "LOWER(m.to_json) LIKE "@ + p.text(),
        equal(column("m"@, "is_read"@), Term::Number(0)).text() == "m.is_read = 0"@,
        equal(column("m"@, "is_starred"@), Term::Number(1)).text() == "m.is_starred = 1"@,
        equal(column("m"@, "has_attachments"@), Term::Number(1)).text() == "m.has_attachments = 1"@,
        Cond::Unmatched(column("m"@, "id"@), p).text()
            == "m.id NOT IN (SELECT rowid FROM messages_fts WHERE messages_fts MATCH "@ + p.text()
            + ")"@,
{
    numbers_are_read();
    reveal_with_fuel(Cond::text, 2);
    reveal_with_fuel(Term::text, 3);
    assert("m.account_id = "@ =~= "m"@ + "."@ + "account_id"@ + " = "@) by {
        reveal_strlit("m.account_id = ");
        reveal_strlit("m");
        reveal_strlit(".");
        reveal_strlit("account_id");
        reveal_strlit(" = ");
    }
    assert("LOWER(m.to_json) LIKE "@
        =~= "LOWER("@ + "m"@ + "."@ + "to_json"@ + ")"@ + " LIKE "@) by {
        reveal_strlit("LOWER(m.to_json) LIKE ");
        reveal_strlit("LOWER(");
        reveal_strlit("m");
        reveal_strlit(".");
        reveal_strlit("to_json");
        reveal_strlit(")");
        reveal_strlit(" LIKE ");
    }
    assert("m.is_read = 0"@ =~= "m"@ + "."@ + "is_read"@ + " = "@ + "0"@) by {
        reveal_strlit("m.is_read = 0");
        reveal_strlit("m");
        reveal_strlit(".");
        reveal_strlit("is_read");
        reveal_strlit(" = ");
        reveal_strlit("0");
    }
    assert("m.is_starred = 1"@ =~= "m"@ + "."@ + "is_starred"@ + " = "@ + "1"@) by {
        reveal_strlit("m.is_starred = 1");
        reveal_strlit("m");
        reveal_strlit(".");
        reveal_strlit("is_starred");
        reveal_strlit(" = ");
        reveal_strlit("1");
    }
    assert("m.has_attachments = 1"@ =~= "m"@ + "."@ + "has_attachments"@ + " = "@ + "1"@) by {
        reveal_strlit("m.has_attachments = 1");
        reveal_strlit("m");
        reveal_strlit(".");
        reveal_strlit("has_attachments");
        reveal_strlit(" = ");
        reveal_strlit("1");
    }
    assert("m.id NOT IN (SELECT rowid FROM messages_fts WHERE messages_fts MATCH "@
        =~= "m"@ + "."@ + "id"@
            + " NOT IN (SELECT rowid FROM messages_fts WHERE messages_fts MATCH "@) by {
        reveal_strlit("m.id NOT IN (SELECT rowid FROM messages_fts WHERE messages_fts MATCH ");
        reveal_strlit("m");
        reveal_strlit(".");
        reveal_strlit("id");
        reveal_strlit(" NOT IN (SELECT rowid FROM messages_fts WHERE messages_fts MATCH ");
    }
    texts_join();
}

proof fn folder_texts_split()
    ensures
        "f.id = m.folder_id"@ == "f"@ + "."@ + "id"@ + " = "@ + "m"@ + "."@ + "folder_id"@,
        "EXISTS (SELECT 1 FROM folders f WHERE f.id = m.folder_id AND f.role = "@
            == "EXISTS (SELECT 1 FROM "@ + "folders"@ + " "@ + "f"@ + " WHERE "@
                + "f.id = m.folder_id"@ + " AND "@ + "f"@ + "."@ + "role"@ + " = "@,
        "NOT EXISTS (SELECT 1 FROM folders f WHERE f.id = m.folder_id AND f.role IN ('trash','spam'))"@
            == "NOT "@ + "EXISTS (SELECT 1 FROM "@ + "folders"@ + " "@ + "f"@ + " WHERE "@
                + "f.id = m.folder_id"@ + " AND "@ + "f"@ + "."@ + "role"@ + " IN ('"@ + "trash"@
                + "','"@ + "spam"@ + "')"@ + ")"@,
{
    assert("f.id = m.folder_id"@ =~= "f"@ + "."@ + "id"@ + " = "@ + "m"@ + "."@ + "folder_id"@) by {
        reveal_strlit("f.id = m.folder_id");
        reveal_strlit("f");
        reveal_strlit(".");
        reveal_strlit("id");
        reveal_strlit(" = ");
        reveal_strlit("m");
        reveal_strlit("folder_id");
    }
    assert("EXISTS (SELECT 1 FROM folders f WHERE f.id = m.folder_id AND f.role = "@
        =~= "EXISTS (SELECT 1 FROM "@ + "folders"@ + " "@ + "f"@ + " WHERE "@
            + "f.id = m.folder_id"@ + " AND "@ + "f"@ + "."@ + "role"@ + " = "@) by {
        reveal_strlit("EXISTS (SELECT 1 FROM folders f WHERE f.id = m.folder_id AND f.role = ");
        reveal_strlit("EXISTS (SELECT 1 FROM ");
        reveal_strlit("folders");
        reveal_strlit(" ");
        reveal_strlit("f");
        reveal_strlit(" WHERE ");
        reveal_strlit("f.id = m.folder_id");
        reveal_strlit(" AND ");
        reveal_strlit(".");
        reveal_strlit("role");
        reveal_strlit(" = ");
    }
    assert("NOT EXISTS (SELECT 1 FROM folders f WHERE f.id = m.folder_id AND f.role IN ('trash','spam'))"@
        =~= "NOT "@ + "EXISTS (SELECT 1 FROM "@ + "folders"@ + " "@ + "f"@ + " WHERE "@
            + "f.id = m.folder_id"@ + " AND "@ + "f"@ + "."@ + "role"@ + " IN ('"@ + "trash"@
            + "','"@ + "spam"@ + "')"@ + ")"@) by {
        reveal_strlit("NOT EXISTS (SELECT 1 FROM folders f WHERE f.id = m.folder_id AND f.role IN ('trash','spam'))");
        reveal_strlit("NOT ");
        reveal_strlit("EXISTS (SELECT 1 FROM ");
        reveal_strlit("folders");
        reveal_strlit(" ");
        reveal_strlit("f");
        reveal_strlit(" WHERE ");
        reveal_strlit("f.id = m.folder_id");
        reveal_strlit(" AND ");
        reveal_strlit(".");
        reveal_strlit("role");
        reveal_strlit(" IN ('");
        reveal_strlit("trash");
        reveal_strlit("','");
        reveal_strlit("spam");
        reveal_strlit("')");
        reveal_strlit(")");
    }
}

#[verifier::rlimit(40)]
proof fn folders_are_read(role: Term)
    ensures
        folder_condition(role).text() == "EXISTS (SELECT 1 FROM folders f WHERE f.id = m.folder_id AND f.role = "@ + role.text() + ")"@,
        hidden_condition().text() == hides_trash_and_spam(),
{
    folder_texts_split();
    texts_join();
    assert(own_folder().text() == "f.id = m.folder_id"@) by {
        reveal_with_fuel(Term::text, 2);
    }
    let there = folder_condition(role);
    let wanted = *(there->Exists_2);
    assert((wanted->Both_1).text() == "f"@ + "."@ + "role"@ + " = "@ + role.text());
    assert(wanted.text() == own_folder().text() + " AND "@ + (wanted->Both_1).text());
    assert((there->Exists_1).text() == "folders"@ + " "@ + "f"@);
    assert(there.text() == "EXISTS (SELECT 1 FROM "@ + ("folders"@ + " "@ + "f"@) + " WHERE "@
        + wanted.text() + ")"@);
    let thrown = thrown_away();
    let roles = *(thrown->Exists_2);
    assert((roles->Both_1).text() == "f"@ + "."@ + "role"@ + " IN ('"@ + "trash"@ + "','"@ + "spam"@
        + "')"@);
    assert(roles.text() == own_folder().text() + " AND "@ + (roles->Both_1).text());
    assert((thrown->Exists_1).text() == "folders"@ + " "@ + "f"@);
    assert(thrown.text() == "EXISTS (SELECT 1 FROM "@ + ("folders"@ + " "@ + "f"@) + " WHERE "@
        + roles.text() + ")"@);
    let hidden = hidden_condition();
    assert((hidden->Not_0).text() == thrown.text());
}

/// What a column holds as a text in lower case; nothing where it is empty.
pub open spec fn shown(c: Cell) -> Seq<char> {
    match cell_text(c) {
        Some(s) => lower(s),
        None => Seq::empty(),
    }
}

/// Whether a message stands in a folder of a role.
pub open spec fn is_in_role(db: Database, m: Row, role: Seq<char>) -> bool {
    exists|f: Row| #[trigger]
        db.has("folders"@, f) && same_cell(f.at("id"@), m.at("folder_id"@)) && f.at("role"@)
            == Cell::Text(role)
}

/// Whether a message passes the operators of a search: it is of the account, its sender's address or
/// name and its recipients match what was searched for, and it stands in the folder. A search for
/// something, without a folder, passes over Trash and Spam. Unread, starred and attachments are
/// asked for where they are set, and no excluded term stands in the message.
pub open spec fn passes_operators(q: ParsedQuery, db: Database, m: Row) -> bool {
    &&& q.account_id is Some ==> m.at("account_id"@) == Cell::Int(q.account_id->0 as int)
    &&& q.from is Some ==> {
        let pattern = "%"@ + lowercase(q.from->0@) + "%"@;
        like(shown(m.at("from_addr"@)), pattern) || like(shown(m.at("from_name"@)), pattern)
    }
    &&& q.to is Some ==> !(m.at("to_json"@) is Null) && like(
        shown(m.at("to_json"@)),
        "%"@ + lowercase(q.to->0@) + "%"@,
    )
    &&& q.in_folder is Some ==> is_in_role(db, m, q.in_folder->0@)
    &&& q.in_folder is None && (q.fts@.len() > 0 || q.from is Some || q.to is Some || q.is_unread
        == Some(true) || q.is_starred == Some(true) || q.has_attachment == Some(true))
        ==> !is_in_role(db, m, "trash"@) && !is_in_role(db, m, "spam"@)
    &&& q.is_unread == Some(true) ==> m.at("is_read"@) == Cell::Int(0)
    &&& q.is_starred == Some(true) ==> m.at("is_starred"@) == Cell::Int(1)
    &&& q.has_attachment == Some(true) ==> m.at("has_attachments"@) == Cell::Int(1)
    &&& q.fts_not@.len() > 0 ==> !(m.at("id"@) is Null) && !db.finds(q.fts_not@, m.at("id"@))
}

proof fn names_differ()
    ensures
        "f"@ != "m"@,
{
    reveal_strlit("f");
    reveal_strlit("m");
    assert("f"@[0] == 'f' && "m"@[0] == 'm');
}

proof fn folder_means(role: Term, name: Seq<char>, db: Database, s: Scope)
    requires
        forall|x: Scope| #[trigger] role.value(x) == Cell::Text(name),
    ensures
        folder_condition(role).holds(db, s) <==> is_in_role(db, s.row("m"@), name),
{
    names_differ();
    let wanted = both(own_folder(), equal(column("f"@, "role"@), role));
    exists_in_table(false, "folders"@, "f"@, wanted, db, s);
    assert forall|f: Row| #[trigger]
        db.has("folders"@, f) implies (wanted.holds(db, s.with("f"@, f)) <==> same_cell(
        f.at("id"@),
        s.row("m"@).at("folder_id"@),
    ) && f.at("role"@) == Cell::Text(name)) by {
        let inner = s.with("f"@, f);
        both_hold(own_folder(), equal(column("f"@, "role"@), role), db, inner);
        comparisons_hold(column("f"@, "id"@), column("m"@, "folder_id"@), db, inner);
        comparisons_hold(column("f"@, "role"@), role, db, inner);
        assert(role.value(inner) == Cell::Text(name));
    }
}

proof fn hiding_means(db: Database, s: Scope)
    ensures
        hidden_condition().holds(db, s) <==> !is_in_role(db, s.row("m"@), "trash"@) && !is_in_role(
            db,
            s.row("m"@),
            "spam"@,
        ),
{
    names_differ();
    let m = s.row("m"@);
    let gone = Cond::OneOfTwo(column("f"@, "role"@), "trash"@, "spam"@);
    let wanted = both(own_folder(), gone);
    exists_in_table(false, "folders"@, "f"@, wanted, db, s);
    assert forall|f: Row| #[trigger]
        db.has("folders"@, f) implies (wanted.holds(db, s.with("f"@, f)) <==> same_cell(
        f.at("id"@),
        m.at("folder_id"@),
    ) && (f.at("role"@) == Cell::Text("trash"@) || f.at("role"@) == Cell::Text("spam"@))) by {
        let inner = s.with("f"@, f);
        both_hold(own_folder(), gone, db, inner);
        comparisons_hold(column("f"@, "id"@), column("m"@, "folder_id"@), db, inner);
        lookups_hold(column("f"@, "role"@), Term::Number(0), "trash"@, "spam"@, db, inner);
    }
    let source = Source::Table("folders"@, "f"@);
    existence_is_known((false, source, wanted), (false, source, wanted), db, s);
    not_holds(thrown_away(), db, s);
}

proof fn from_means(pattern: Term, text: Seq<char>, db: Database, s: Scope)
    requires
        pattern.value(s) == Cell::Text(text),
    ensures
        from_condition(pattern).holds(db, s) <==> (like(shown(s.row("m"@).at("from_addr"@)), text)
            || like(shown(s.row("m"@).at("from_name"@)), text)),
{
    let address = Cond::Like(folded("from_addr"@), pattern);
    let name = Cond::Like(folded("from_name"@), pattern);
    group_holds(false, either(address, name), db, s);
    either_holds(address, name, db, s);
    lookups_hold(folded("from_addr"@), pattern, text, text, db, s);
    lookups_hold(folded("from_name"@), pattern, text, text, db, s);
    folding_shows("from_addr"@, s);
    folding_shows("from_name"@, s);
}

proof fn folding_shows(name: Seq<char>, s: Scope)
    ensures
        cell_text(folded(name).value(s)) == Some(shown(s.row("m"@).at(name))),
{
    reveal_with_fuel(Term::value, 4);
    assert(lower(Seq::<char>::empty()) =~= Seq::<char>::empty());
}

spec fn account_passes(q: ParsedQuery, m: Row) -> bool {
    q.account_id is Some ==> m.at("account_id"@) == Cell::Int(q.account_id->0 as int)
}

spec fn sender_passes(q: ParsedQuery, m: Row) -> bool {
    let pattern = holding(lowercase(q.from->0@));
    q.from is Some ==> (like(shown(m.at("from_addr"@)), pattern) || like(
        shown(m.at("from_name"@)),
        pattern,
    ))
}

spec fn recipients_pass(q: ParsedQuery, m: Row) -> bool {
    let pattern = holding(lowercase(q.to->0@));
    q.to is Some ==> !(m.at("to_json"@) is Null) && like(shown(m.at("to_json"@)), pattern)
}

spec fn exclusions_pass(q: ParsedQuery, db: Database, m: Row) -> bool {
    q.fts_not@.len() > 0 ==> !(m.at("id"@) is Null) && !db.finds(q.fts_not@, m.at("id"@))
}

proof fn account_is_asked(f: Filter, wanted: spec_fn(Database, Scope) -> bool, q: ParsedQuery)
    requires
        asks_for(f, wanted),
    ensures
        asks_for(
            f.searched_account(q),
            also(wanted, |db: Database, s: Scope| account_passes(q, s.row("m"@))),
        ),
{
    let more = |db: Database, s: Scope| account_passes(q, s.row("m"@));
    let after = also(wanted, more);
    match q.account_id {
        Some(asked) => {
            let value = Bound::Int(asked);
            let bound = f.bind(value);
            let term = Term::Param(bound.bind.len() as int, value);
            let c = equal(column("m"@, "account_id"@), term);
            short_clauses_are_read(term);
            assert(c.fits(bound.bind)) by {
                reveal_with_fuel(Cond::fits, 5);
                reveal_with_fuel(Source::fits, 3);
                reveal_with_fuel(Term::fits, 4);
            }
            assert forall|db: Database, s: Scope| #[trigger]
                after(db, s) <==> wanted(db, s) && c.holds(db, s) by {
                comparisons_hold(column("m"@, "account_id"@), term, db, s);
            }
            asks_for_one_more(f, wanted, bound, c, after);
        },
        None => {
            asks_in_other_words(f, wanted, after);
        },
    }
}

proof fn from_is_asked(f: Filter, wanted: spec_fn(Database, Scope) -> bool, q: ParsedQuery)
    requires
        asks_for(f, wanted),
    ensures
        asks_for(
            f.searched_from(q),
            also(wanted, |db: Database, s: Scope| sender_passes(q, s.row("m"@))),
        ),
{
    let more = |db: Database, s: Scope| sender_passes(q, s.row("m"@));
    let after = also(wanted, more);
    match q.from {
        Some(asked) => {
            let value = Bound::Text(holding(lowercase(asked@)));
            let bound = f.bind(value);
            let term = Term::Param(bound.bind.len() as int, value);
            let c = from_condition(term);
            short_clauses_are_read(term);
            from_is_read(term);
            assert(c.fits(bound.bind)) by {
                reveal_with_fuel(Cond::fits, 5);
                reveal_with_fuel(Source::fits, 3);
                reveal_with_fuel(Term::fits, 4);
            }
            assert forall|db: Database, s: Scope| #[trigger]
                after(db, s) <==> wanted(db, s) && c.holds(db, s) by {
                from_means(term, holding(lowercase(asked@)), db, s);
            }
            asks_for_one_more(f, wanted, bound, c, after);
        },
        None => {
            asks_in_other_words(f, wanted, after);
        },
    }
}

proof fn to_is_asked(f: Filter, wanted: spec_fn(Database, Scope) -> bool, q: ParsedQuery)
    requires
        asks_for(f, wanted),
    ensures
        asks_for(
            f.searched_to(q),
            also(wanted, |db: Database, s: Scope| recipients_pass(q, s.row("m"@))),
        ),
{
    let more = |db: Database, s: Scope| recipients_pass(q, s.row("m"@));
    let after = also(wanted, more);
    match q.to {
        Some(asked) => {
            let value = Bound::Text(holding(lowercase(asked@)));
            let bound = f.bind(value);
            let term = Term::Param(bound.bind.len() as int, value);
            let c = to_condition(term);
            short_clauses_are_read(term);
            assert(c.fits(bound.bind)) by {
                reveal_with_fuel(Cond::fits, 5);
                reveal_with_fuel(Source::fits, 3);
                reveal_with_fuel(Term::fits, 4);
            }
            assert forall|db: Database, s: Scope| #[trigger]
                after(db, s) <==> wanted(db, s) && c.holds(db, s) by {
                let text = holding(lowercase(asked@));
                reveal_with_fuel(Term::value, 3);
                lookups_hold(Term::Lower(Box::new(column("m"@, "to_json"@))), term, text, text, db, s);
            }
            asks_for_one_more(f, wanted, bound, c, after);
        },
        None => {
            asks_in_other_words(f, wanted, after);
        },
    }
}

/// Whether something is searched for, beside an account and a folder.
spec fn searches(q: ParsedQuery) -> bool {
    q.fts@.len() > 0 || q.from is Some || q.to is Some || q.is_unread == Some(true) || q.is_starred
        == Some(true) || q.has_attachment == Some(true)
}

spec fn folder_passes(q: ParsedQuery, db: Database, m: Row) -> bool {
    &&& q.in_folder is Some ==> is_in_role(db, m, q.in_folder->0@)
    &&& q.in_folder is None && searches(q) ==> !is_in_role(db, m, "trash"@) && !is_in_role(
        db,
        m,
        "spam"@,
    )
}

proof fn folder_is_asked(f: Filter, wanted: spec_fn(Database, Scope) -> bool, q: ParsedQuery)
    requires
        asks_for(f, wanted),
    ensures
        asks_for(
            f.searched_folder(q),
            also(wanted, |db: Database, s: Scope| folder_passes(q, db, s.row("m"@))),
        ),
{
    let more = |db: Database, s: Scope| folder_passes(q, db, s.row("m"@));
    let after = also(wanted, more);
    match q.in_folder {
        Some(asked) => {
            let value = Bound::Text(asked@);
            let bound = f.bind(value);
            let term = Term::Param(bound.bind.len() as int, value);
            let c = folder_condition(term);
            folders_are_read(term);
            assert(c.fits(bound.bind)) by {
                reveal_with_fuel(Cond::fits, 4);
                reveal_with_fuel(Source::fits, 4);
            }
            assert forall|db: Database, s: Scope| #[trigger]
                after(db, s) <==> wanted(db, s) && c.holds(db, s) by {
                folder_means(term, asked@, db, s);
            }
            asks_for_one_more(f, wanted, bound, c, after);
        },
        None => {
            if searches(q) {
                let c = hidden_condition();
                folders_are_read(Term::Number(0));
                assert(c.fits(f.bind)) by {
                    reveal_with_fuel(Cond::fits, 5);
                    reveal_with_fuel(Source::fits, 4);
                }
                assert forall|db: Database, s: Scope| #[trigger]
                    after(db, s) <==> wanted(db, s) && c.holds(db, s) by {
                    hiding_means(db, s);
                }
                asks_for_one_more(f, wanted, f, c, after);
            } else {
                asks_in_other_words(f, wanted, after);
            }
        },
    }
}

/// A condition that a column holds a number, where it is asked for.
proof fn flag_is_asked(
    f: Filter,
    wanted: spec_fn(Database, Scope) -> bool,
    asked: Option<bool>,
    name: Seq<char>,
    number: nat,
    clause: Seq<char>,
)
    requires
        asks_for(f, wanted),
        equal(column("m"@, name), Term::Number(number)).text() == clause,
    ensures
        asks_for(
            f.when(asked, clause),
            also(
                wanted,
                |db: Database, s: Scope|
                    asked == Some(true) ==> s.row("m"@).at(name) == Cell::Int(number as int),
            ),
        ),
{
    let more = |db: Database, s: Scope|
        asked == Some(true) ==> s.row("m"@).at(name) == Cell::Int(number as int);
    let after = also(wanted, more);
    if asked == Some(true) {
        let c = equal(column("m"@, name), Term::Number(number));
        assert forall|db: Database, s: Scope| #[trigger]
            after(db, s) <==> wanted(db, s) && c.holds(db, s) by {
            comparisons_hold(column("m"@, name), Term::Number(number), db, s);
        }
        asks_for_one_more(f, wanted, f, c, after);
    } else {
        asks_in_other_words(f, wanted, after);
    }
}

proof fn exclusion_is_asked(f: Filter, wanted: spec_fn(Database, Scope) -> bool, q: ParsedQuery)
    requires
        asks_for(f, wanted),
    ensures
        asks_for(
            f.excluded(q),
            also(wanted, |db: Database, s: Scope| exclusions_pass(q, db, s.row("m"@))),
        ),
{
    let more = |db: Database, s: Scope| exclusions_pass(q, db, s.row("m"@));
    let after = also(wanted, more);
    if q.fts_not@.len() > 0 {
        let value = Bound::Text(q.fts_not@);
        let bound = f.bind(value);
        let term = Term::Param(bound.bind.len() as int, value);
        let c = Cond::Unmatched(column("m"@, "id"@), term);
        short_clauses_are_read(term);
        assert forall|db: Database, s: Scope| #[trigger]
            after(db, s) <==> wanted(db, s) && c.holds(db, s) by {
            lookups_hold(column("m"@, "id"@), term, q.fts_not@, q.fts_not@, db, s);
        }
        asks_for_one_more(f, wanted, bound, c, after);
    } else {
        asks_in_other_words(f, wanted, after);
    }
}

/// The operators of a search narrow what was asked for to the messages that pass them.
pub proof fn operators_find_their_messages(
    f: Filter,
    wanted: spec_fn(Database, Scope) -> bool,
    q: ParsedQuery,
)
    requires
        asks_for(f, wanted),
    ensures
        asks_for(
            f.operators(q),
            |db: Database, s: Scope| wanted(db, s) && passes_operators(q, db, s.row("m"@)),
        ),
{
    short_clauses_are_read(Term::Number(0));
    let f1 = f.searched_account(q);
    account_is_asked(f, wanted, q);
    let w1 = also(wanted, |db: Database, s: Scope| account_passes(q, s.row("m"@)));
    let f2 = f1.searched_from(q);
    from_is_asked(f1, w1, q);
    let w2 = also(w1, |db: Database, s: Scope| sender_passes(q, s.row("m"@)));
    let f3 = f2.searched_to(q);
    to_is_asked(f2, w2, q);
    let w3 = also(w2, |db: Database, s: Scope| recipients_pass(q, s.row("m"@)));
    let f4 = f3.searched_folder(q);
    folder_is_asked(f3, w3, q);
    let w4 = also(w3, |db: Database, s: Scope| folder_passes(q, db, s.row("m"@)));
    let f5 = f4.when(q.is_unread, "m.is_read = 0"@);
    flag_is_asked(f4, w4, q.is_unread, "is_read"@, 0, "m.is_read = 0"@);
    let w5 = also(
        w4,
        |db: Database, s: Scope|
            q.is_unread == Some(true) ==> s.row("m"@).at("is_read"@) == Cell::Int(0nat as int),
    );
    let f6 = f5.when(q.is_starred, "m.is_starred = 1"@);
    flag_is_asked(f5, w5, q.is_starred, "is_starred"@, 1, "m.is_starred = 1"@);
    let w6 = also(
        w5,
        |db: Database, s: Scope|
            q.is_starred == Some(true) ==> s.row("m"@).at("is_starred"@) == Cell::Int(1nat as int),
    );
    let f7 = f6.when(q.has_attachment, "m.has_attachments = 1"@);
    flag_is_asked(f6, w6, q.has_attachment, "has_attachments"@, 1, "m.has_attachments = 1"@);
    let w7 = also(
        w6,
        |db: Database, s: Scope|
            q.has_attachment == Some(true) ==> s.row("m"@).at("has_attachments"@) == Cell::Int(
                1nat as int,
            ),
    );
    exclusion_is_asked(f7, w7, q);
    let w8 = also(w7, |db: Database, s: Scope| exclusions_pass(q, db, s.row("m"@)));
    let passed = |db: Database, s: Scope| wanted(db, s) && passes_operators(q, db, s.row("m"@));
    asks_in_other_words(f7.excluded(q), w8, passed);
}

/// Whether a column of a message holds a text, in either case.
pub open spec fn mentions(c: Cell, text: Seq<char>) -> bool {
    has_text(shown(c), lower(text))
}

/// A search for a sender, by a text without wildcards and with nothing else, finds the messages
/// outside of Trash and Spam whose sender's address or name holds the text in lower case: the name
/// alone is enough, and so is the address.
pub proof fn senders_are_found_by_address_and_name(
    f: Filter,
    wanted: spec_fn(Database, Scope) -> bool,
    q: ParsedQuery,
)
    requires
        asks_for(f, wanted),
        q.from is Some && is_plain(lowercase(q.from->0@)),
        q.to is None && q.in_folder is None && q.account_id is None && q.is_unread is None,
        q.is_starred is None && q.has_attachment is None && q.fts_not@.len() == 0,
    ensures
        ({
            let text = lowercase(q.from->0@);
            asks_for(
                f.operators(q),
                |db: Database, s: Scope|
                    {
                        let m = s.row("m"@);
                        &&& wanted(db, s)
                        &&& mentions(m.at("from_addr"@), text) || mentions(m.at("from_name"@), text)
                        &&& !is_in_role(db, m, "trash"@) && !is_in_role(db, m, "spam"@)
                    },
            )
        }),
{
    let text = lowercase(q.from->0@);
    operators_find_their_messages(f, wanted, q);
    let passed = |db: Database, s: Scope| wanted(db, s) && passes_operators(q, db, s.row("m"@));
    let said = |db: Database, s: Scope|
        {
            let m = s.row("m"@);
            &&& wanted(db, s)
            &&& mentions(m.at("from_addr"@), text) || mentions(m.at("from_name"@), text)
            &&& !is_in_role(db, m, "trash"@) && !is_in_role(db, m, "spam"@)
        };
    assert forall|db: Database, s: Scope| #[trigger] said(db, s) <==> passed(db, s) by {
        let m = s.row("m"@);
        patterns_hold(m.at("from_addr"@), text);
        patterns_hold(m.at("from_name"@), text);
    }
    asks_in_other_words(f.operators(q), passed, said);
}

/// What a column shows matches the pattern of a text where it holds the text.
proof fn patterns_hold(c: Cell, text: Seq<char>)
    requires
        is_plain(text),
    ensures
        like(shown(c), "%"@ + text + "%"@) <==> mentions(c, text),
{
    patterns_match_what_holds_the_text(shown(c), text);
    lower_stays(
        match cell_text(c) {
            Some(s) => s,
            None => Seq::empty(),
        },
    );
    assert(lower(Seq::<char>::empty()) =~= Seq::<char>::empty());
}

/// What is in lower case stays as it is.
proof fn lower_stays(s: Seq<char>)
    ensures
        lower(lower(s)) == lower(s),
{
    assert(lower(lower(s)) =~= lower(s));
}

} // verus!
