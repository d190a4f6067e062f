//! Which contacts a list of the address book shows, as its conditions say it of the rows that are
//! stored.

use crate::repo::contacts::{
    account_clause, cursor_clause, page_filter, record_behind, record_filter,
    saved_predicate, sort_column, sort_name, word_clause, word_filter, ContactRecord,
    ContactRecordCursor, RecordQuery,
};
use crate::repo::rows::{
    also, asks_for, asks_for_one_more, asks_in_other_words, both, both_hold, cell_text,
    column, comparisons_hold, denials_are_known, either, either_holds, equal,
    escaped_patterns_match_what_holds_the_text, exists_in_table, found, group, group_holds,
    is_below, lower, nothing_is_asked, numbers_are_read, same_cell,
    texts_hold, texts_join, Cell, Cond, Database, Row, Scope, Source, Term,
};
use crate::repo::sql::{holding, like_escaped, Bound, Filter};
use crate::repo::thread_rows::is_positive;
use crate::text::{has_text, text_order, words};
use vstd::prelude::*;
use vstd::string::*;

verus! {

spec fn own(name: Seq<char>) -> Term {
    Term::Own(name)
}

spec fn or_else(a: Term, b: Term) -> Term {
    Term::OrElse(Box::new(a), Box::new(b))
}

spec fn or_blank(name: Seq<char>) -> Term {
    or_else(own(name), Term::Quoted(""@))
}

spec fn glued(a: Term, b: Term) -> Term {
    Term::Glued(Box::new(a), Box::new(b))
}

/// A text, a blank, and the text of a column.
spec fn and_then(a: Term, name: Seq<char>) -> Term {
    glued(glued(a, Term::Quoted(" "@)), or_blank(name))
}

/// What a search looks into.
spec fn searched_text() -> Term {
    and_then(
        and_then(
            and_then(or_else(own("folded"@), own("email"@)), "job_title"@),
            "website"@,
        ),
        "postal_address"@,
    )
}

spec fn word_condition(pattern: Term) -> Cond {
    Cond::Holds(Term::Lower(Box::new(searched_text())), pattern)
}

proof fn search_texts_split()
    ensures
        "COALESCE(folded, email)"@ == "COALESCE("@ + "folded"@ + ", "@ + "email"@ + ")"@,
        " || ' ' || COALESCE(job_title, '')"@
            == " || "@ + "'"@ + " "@ + "'"@ + " || "@ + "COALESCE("@ + "job_title"@ + ", "@ + "'"@
                + "'"@ + ")"@,
        " || ' ' || COALESCE(website, '')"@
            == " || "@ + "'"@ + " "@ + "'"@ + " || "@ + "COALESCE("@ + "website"@ + ", "@ + "'"@
                + "'"@ + ")"@,
        " || ' ' || COALESCE(postal_address, '')"@
            == " || "@ + "'"@ + " "@ + "'"@ + " || "@ + "COALESCE("@ + "postal_address"@ + ", "@
                + "'"@ + "'"@ + ")"@,
{
    assert("COALESCE(folded, email)"@ =~= "COALESCE("@ + "folded"@ + ", "@ + "email"@ + ")"@) by {
        reveal_strlit("COALESCE(folded, email)");
        reveal_strlit("COALESCE(");
        reveal_strlit("folded");
        reveal_strlit(", ");
        reveal_strlit("email");
        reveal_strlit(")");
    }
    assert(" || ' ' || COALESCE(job_title, '')"@
        =~= " || "@ + "'"@ + " "@ + "'"@ + " || "@ + "COALESCE("@ + "job_title"@ + ", "@ + "'"@
            + "'"@ + ")"@) by {
        reveal_strlit(" || ' ' || COALESCE(job_title, '')");
        reveal_strlit(" || ");
        reveal_strlit("'");
        reveal_strlit(" ");
        reveal_strlit("COALESCE(");
        reveal_strlit("job_title");
        reveal_strlit(", ");
        reveal_strlit(")");
    }
    assert(" || ' ' || COALESCE(website, '')"@
        =~= " || "@ + "'"@ + " "@ + "'"@ + " || "@ + "COALESCE("@ + "website"@ + ", "@ + "'"@
            + "'"@ + ")"@) by {
        reveal_strlit(" || ' ' || COALESCE(website, '')");
        reveal_strlit(" || ");
        reveal_strlit("'");
        reveal_strlit(" ");
        reveal_strlit("COALESCE(");
        reveal_strlit("website");
        reveal_strlit(", ");
        reveal_strlit(")");
    }
    assert(" || ' ' || COALESCE(postal_address, '')"@
        =~= " || "@ + "'"@ + " "@ + "'"@ + " || "@ + "COALESCE("@ + "postal_address"@ + ", "@
            + "'"@ + "'"@ + ")"@) by {
        reveal_strlit(" || ' ' || COALESCE(postal_address, '')");
        reveal_strlit(" || ");
        reveal_strlit("'");
        reveal_strlit(" ");
        reveal_strlit("COALESCE(");
        reveal_strlit("postal_address");
        reveal_strlit(", ");
        reveal_strlit(")");
    }
}

proof fn word_text_splits()
    ensures
        "LOWER(COALESCE(folded, email) || ' ' || COALESCE(job_title, '') || ' ' || COALESCE(website, '') || ' ' || COALESCE(postal_address, '')) LIKE "@
            == "LOWER("@ + "COALESCE(folded, email)"@ + " || ' ' || COALESCE(job_title, '')"@
                + " || ' ' || COALESCE(website, '')"@ + " || ' ' || COALESCE(postal_address, '')"@
                + ")"@ + " LIKE "@,
{
    assert("LOWER(COALESCE(folded, email) || ' ' || COALESCE(job_title, '') || ' ' || COALESCE(website, '') || ' ' || COALESCE(postal_address, '')) LIKE "@
        =~= "LOWER("@ + "COALESCE(folded, email)"@ + " || ' ' || COALESCE(job_title, '')"@
            + " || ' ' || COALESCE(website, '')"@ + " || ' ' || COALESCE(postal_address, '')"@
            + ")"@ + " LIKE "@) by {
        reveal_strlit("LOWER(COALESCE(folded, email) || ' ' || COALESCE(job_title, '') || ' ' || COALESCE(website, '') || ' ' || COALESCE(postal_address, '')) LIKE ");
        reveal_strlit("LOWER(");
        reveal_strlit("COALESCE(folded, email)");
        reveal_strlit(" || ' ' || COALESCE(job_title, '')");
        reveal_strlit(" || ' ' || COALESCE(website, '')");
        reveal_strlit(" || ' ' || COALESCE(postal_address, '')");
        reveal_strlit(")");
        reveal_strlit(" LIKE ");
    }
}

proof fn blank_is_empty()
    ensures
        ""@ == Seq::<char>::empty(),
{
    reveal_strlit("");
    assert(""@ =~= Seq::<char>::empty());
}

proof fn next_is_read(a: Term, name: Seq<char>)
    ensures
        and_then(a, name).text() == a.text() + " || "@ + ("'"@ + " "@ + "'"@) + " || "@ + (
        "COALESCE("@ + name + ", "@ + ("'"@ + ""@ + "'"@) + ")"@),
{
    let whole = and_then(a, name);
    let first = *(whole->Glued_0);
    let last = *(whole->Glued_1);
    assert((first->Glued_0).text() == a.text());
    assert((first->Glued_1).text() == "'"@ + " "@ + "'"@);
    assert((last->OrElse_0).text() == name);
    assert((last->OrElse_1).text() == "'"@ + ""@ + "'"@);
    assert(first.text() == a.text() + " || "@ + ("'"@ + " "@ + "'"@));
    assert(last.text() == "COALESCE("@ + name + ", "@ + ("'"@ + ""@ + "'"@) + ")"@);
}

#[verifier::rlimit(40)]
proof fn word_is_read(pattern: Term)
    ensures
        word_condition(pattern).text() == word_clause(pattern.text()),
{
    search_texts_split();
    word_text_splits();
    blank_is_empty();
    let start = or_else(own("folded"@), own("email"@));
    let second = and_then(start, "job_title"@);
    let third = and_then(second, "website"@);
    next_is_read(start, "job_title"@);
    next_is_read(second, "website"@);
    next_is_read(third, "postal_address"@);
    assert((start->OrElse_0).text() == "folded"@ && (start->OrElse_1).text() == "email"@);
    assert(start.text() == "COALESCE("@ + "folded"@ + ", "@ + "email"@ + ")"@);
    let low = Term::Lower(Box::new(searched_text()));
    assert((low->Lower_0).text() == searched_text().text());
    assert(low.text() == "LOWER("@ + searched_text().text() + ")"@);
    texts_join();
    assert("'"@ + ""@ + "'"@ == "'"@ + "'"@) by {
        assert("'"@ + ""@ =~= "'"@);
    }
}

spec fn on_server(alias: Seq<char>) -> Cond {
    found(
        true,
        Source::Table("carddav_objects"@, "co"@),
        both(
            equal(column("co"@, "contact_id"@), column(alias, "id"@)),
            both(
                equal(column("co"@, "remote_exists"@), Term::Number(1)),
                equal(column("co"@, "deleted"@), Term::Number(0)),
            ),
        ),
    )
}

spec fn saved_condition(alias: Seq<char>) -> Cond {
    group(
        false,
        either(
            equal(column(alias, "is_managed"@), Term::Number(1)),
            either(equal(column(alias, "is_favorite"@), Term::Number(1)), on_server(alias)),
        ),
    )
}

proof fn saved_texts_split()
    ensures
        ".is_managed = 1 OR "@ == "."@ + "is_managed"@ + " = "@ + "1"@ + " OR "@,
        ".is_favorite = 1 OR EXISTS ( SELECT 1 FROM carddav_objects co WHERE co.contact_id = "@
            == "."@ + "is_favorite"@ + " = "@ + "1"@ + " OR "@ + "EXISTS ( SELECT 1 FROM "@
                + "carddav_objects"@ + " "@ + "co"@ + " WHERE "@ + "co"@ + "."@ + "contact_id"@
                + " = "@,
        ".id AND co.remote_exists = 1 AND co.deleted = 0 ))"@
            == "."@ + "id"@ + " AND "@ + "co"@ + "."@ + "remote_exists"@ + " = "@ + "1"@
                + " AND "@ + "co"@ + "."@ + "deleted"@ + " = "@ + "0"@ + " )"@ + ")"@,
{
    assert(".is_managed = 1 OR "@ =~= "."@ + "is_managed"@ + " = "@ + "1"@ + " OR "@) by {
        reveal_strlit(".is_managed = 1 OR ");
        reveal_strlit(".");
        reveal_strlit("is_managed");
        reveal_strlit(" = ");
        reveal_strlit("1");
        reveal_strlit(" OR ");
    }
    assert(".is_favorite = 1 OR EXISTS ( SELECT 1 FROM carddav_objects co WHERE co.contact_id = "@
        =~= "."@ + "is_favorite"@ + " = "@ + "1"@ + " OR "@ + "EXISTS ( SELECT 1 FROM "@
            + "carddav_objects"@ + " "@ + "co"@ + " WHERE "@ + "co"@ + "."@ + "contact_id"@
            + " = "@) by {
        reveal_strlit(".is_favorite = 1 OR EXISTS ( SELECT 1 FROM carddav_objects co WHERE co.contact_id = ");
        reveal_strlit(".");
        reveal_strlit("is_favorite");
        reveal_strlit(" = ");
        reveal_strlit("1");
        reveal_strlit(" OR ");
        reveal_strlit("EXISTS ( SELECT 1 FROM ");
        reveal_strlit("carddav_objects");
        reveal_strlit(" ");
        reveal_strlit("co");
        reveal_strlit(" WHERE ");
        reveal_strlit("contact_id");
    }
    assert(".id AND co.remote_exists = 1 AND co.deleted = 0 ))"@
        =~= "."@ + "id"@ + " AND "@ + "co"@ + "."@ + "remote_exists"@ + " = "@ + "1"@ + " AND "@
            + "co"@ + "."@ + "deleted"@ + " = "@ + "0"@ + " )"@ + ")"@) by {
        reveal_strlit(".id AND co.remote_exists = 1 AND co.deleted = 0 ))");
        reveal_strlit(".");
        reveal_strlit("id");
        reveal_strlit(" AND ");
        reveal_strlit("co");
        reveal_strlit("remote_exists");
        reveal_strlit(" = ");
        reveal_strlit("1");
        reveal_strlit("deleted");
        reveal_strlit("0");
        reveal_strlit(" )");
        reveal_strlit(")");
    }
}

proof fn server_is_read(alias: Seq<char>)
    ensures
        on_server(alias).text() == "EXISTS ( SELECT 1 FROM "@ + ("carddav_objects"@ + " "@ + "co"@)
            + " WHERE "@ + ("co"@ + "."@ + "contact_id"@ + " = "@ + (alias + "."@ + "id"@)
            + " AND "@ + ("co"@ + "."@ + "remote_exists"@ + " = "@ + "1"@ + " AND "@ + ("co"@ + "."@
            + "deleted"@ + " = "@ + "0"@))) + " )"@,
{
    numbers_are_read();
    let whole = on_server(alias);
    let wanted = *(whole->Exists_2);
    let rest = *(wanted->Both_1);
    assert((whole->Exists_1).text() == "carddav_objects"@ + " "@ + "co"@);
    assert((wanted->Both_0).text() == "co"@ + "."@ + "contact_id"@ + " = "@ + (alias + "."@
        + "id"@));
    assert((rest->Both_0).text() == "co"@ + "."@ + "remote_exists"@ + " = "@ + "1"@);
    assert((rest->Both_1).text() == "co"@ + "."@ + "deleted"@ + " = "@ + "0"@);
    assert(rest.text() == (rest->Both_0).text() + " AND "@ + (rest->Both_1).text());
    assert(wanted.text() == (wanted->Both_0).text() + " AND "@ + rest.text());
}

#[verifier::rlimit(40)]
proof fn saved_is_read(alias: Seq<char>)
    ensures
        saved_condition(alias).text() == saved_predicate(alias),
{
    saved_texts_split();
    server_is_read(alias);
    numbers_are_read();
    let whole = saved_condition(alias);
    let alternatives = *(whole->Group_1);
    let others = *(alternatives->Either_1);
    assert((alternatives->Either_0).text() == alias + "."@ + "is_managed"@ + " = "@ + "1"@);
    assert((others->Either_0).text() == alias + "."@ + "is_favorite"@ + " = "@ + "1"@);
    assert((others->Either_1).text() == on_server(alias).text());
    assert(others.text() == (others->Either_0).text() + " OR "@ + (others->Either_1).text());
    assert(alternatives.text() == (alternatives->Either_0).text() + " OR "@ + others.text());
    assert(whole.text() == "("@ + alternatives.text() + ")"@);
    texts_join();
}

spec fn known_from_mail() -> Cond {
    group(
        false,
        either(
            Cond::Above(own("send_count"@), Term::Number(0)),
            Cond::Above(own("recv_count"@), Term::Number(0)),
        ),
    )
}

spec fn suggested_condition() -> Cond {
    both(Cond::Not(Box::new(saved_condition("contacts"@))), known_from_mail())
}

proof fn suggestion_texts_split()
    ensures
        " AND (send_count > 0 OR recv_count > 0)"@
            == " AND "@ + "("@ + "send_count"@ + " > "@ + "0"@ + " OR "@ + "recv_count"@ + " > "@
                + "0"@ + ")"@,
        "is_favorite = 1"@ == "is_favorite"@ + " = "@ + "1"@,
{
    assert(" AND (send_count > 0 OR recv_count > 0)"@
        =~= " AND "@ + "("@ + "send_count"@ + " > "@ + "0"@ + " OR "@ + "recv_count"@ + " > "@
            + "0"@ + ")"@) by {
        reveal_strlit(" AND (send_count > 0 OR recv_count > 0)");
        reveal_strlit(" AND ");
        reveal_strlit("(");
        reveal_strlit("send_count");
        reveal_strlit(" > ");
        reveal_strlit("0");
        reveal_strlit(" OR ");
        reveal_strlit("recv_count");
        reveal_strlit(")");
    }
    assert("is_favorite = 1"@ =~= "is_favorite"@ + " = "@ + "1"@) by {
        reveal_strlit("is_favorite = 1");
        reveal_strlit("is_favorite");
        reveal_strlit(" = ");
        reveal_strlit("1");
    }
}

#[verifier::rlimit(40)]
proof fn suggestions_are_read()
    ensures
        suggested_condition().text() == "NOT "@ + saved_predicate("contacts"@)
            + " AND (send_count > 0 OR recv_count > 0)"@,
        equal(own("is_favorite"@), Term::Number(1)).text() == "is_favorite = 1"@,
{
    suggestion_texts_split();
    saved_is_read("contacts"@);
    numbers_are_read();
    let whole = suggested_condition();
    let unsaved = *(whole->Both_0);
    let known = *(whole->Both_1);
    let alternatives = *(known->Group_1);
    assert((unsaved->Not_0).text() == saved_predicate("contacts"@));
    assert(unsaved.text() == "NOT "@ + saved_predicate("contacts"@));
    assert((alternatives->Either_0).text() == "send_count"@ + " > "@ + "0"@);
    assert((alternatives->Either_1).text() == "recv_count"@ + " > "@ + "0"@);
    assert(alternatives.text() == (alternatives->Either_0).text() + " OR "@ + (
    alternatives->Either_1).text());
    assert(known.text() == "("@ + alternatives.text() + ")"@);
    assert(whole.text() == unsaved.text() + " AND "@ + known.text());
    texts_join();
}

spec fn met_condition(account: Term) -> Cond {
    found(
        true,
        Source::Table("contact_accounts"@, "ca"@),
        both(
            equal(column("ca"@, "contact_id"@), column("contacts"@, "id"@)),
            equal(column("ca"@, "account_id"@), account),
        ),
    )
}

spec fn account_condition(suggestions: bool, account: Term) -> Cond {
    if suggestions {
        met_condition(account)
    } else {
        group(false, either(equal(own("is_managed"@), Term::Number(1)), met_condition(account)))
    }
}

proof fn account_texts_split()
    ensures
        "EXISTS ( SELECT 1 FROM contact_accounts ca WHERE ca.contact_id = contacts.id AND ca.account_id = "@
            == "EXISTS ( SELECT 1 FROM "@ + "contact_accounts"@ + " "@ + "ca"@ + " WHERE "@
                + "ca"@ + "."@ + "contact_id"@ + " = "@ + "contacts"@ + "."@ + "id"@ + " AND "@
                + "ca"@ + "."@ + "account_id"@ + " = "@,
        "(is_managed = 1 OR "@ == "("@ + "is_managed"@ + " = "@ + "1"@ + " OR "@,
{
    assert("EXISTS ( SELECT 1 FROM contact_accounts ca WHERE ca.contact_id = contacts.id AND ca.account_id = "@
        =~= "EXISTS ( SELECT 1 FROM "@ + "contact_accounts"@ + " "@ + "ca"@ + " WHERE "@ + "ca"@
            + "."@ + "contact_id"@ + " = "@ + "contacts"@ + "."@ + "id"@ + " AND "@ + "ca"@ + "."@
            + "account_id"@ + " = "@) by {
        reveal_strlit("EXISTS ( SELECT 1 FROM contact_accounts ca WHERE ca.contact_id = contacts.id AND ca.account_id = ");
        reveal_strlit("EXISTS ( SELECT 1 FROM ");
        reveal_strlit("contact_accounts");
        reveal_strlit(" ");
        reveal_strlit("ca");
        reveal_strlit(" WHERE ");
        reveal_strlit(".");
        reveal_strlit("contact_id");
        reveal_strlit(" = ");
        reveal_strlit("contacts");
        reveal_strlit("id");
        reveal_strlit(" AND ");
        reveal_strlit("account_id");
    }
    assert("(is_managed = 1 OR "@ =~= "("@ + "is_managed"@ + " = "@ + "1"@ + " OR "@) by {
        reveal_strlit("(is_managed = 1 OR ");
        reveal_strlit("(");
        reveal_strlit("is_managed");
        reveal_strlit(" = ");
        reveal_strlit("1");
        reveal_strlit(" OR ");
    }
}

#[verifier::rlimit(40)]
proof fn accounts_are_read(suggestions: bool, account: Term)
    ensures
        account_condition(suggestions, account).text() == account_clause(
            suggestions,
            account.text(),
        ),
{
    account_texts_split();
    numbers_are_read();
    let met = met_condition(account);
    let wanted = *(met->Exists_2);
    assert((met->Exists_1).text() == "contact_accounts"@ + " "@ + "ca"@);
    assert((wanted->Both_0).text() == "ca"@ + "."@ + "contact_id"@ + " = "@ + ("contacts"@ + "."@
        + "id"@));
    assert((wanted->Both_1).text() == "ca"@ + "."@ + "account_id"@ + " = "@ + account.text());
    assert(wanted.text() == (wanted->Both_0).text() + " AND "@ + (wanted->Both_1).text());
    assert(met.text() == "EXISTS ( SELECT 1 FROM "@ + ("contact_accounts"@ + " "@ + "ca"@)
        + " WHERE "@ + wanted.text() + " )"@);
    if !suggestions {
        let whole = account_condition(suggestions, account);
        let alternatives = *(whole->Group_1);
        assert((alternatives->Either_0).text() == "is_managed"@ + " = "@ + "1"@);
        assert((alternatives->Either_1).text() == met.text());
        assert(alternatives.text() == (alternatives->Either_0).text() + " OR "@ + met.text());
        assert(whole.text() == "("@ + alternatives.text() + ")"@);
    }
    texts_join();
}

/// What a contact is sorted by.
spec fn sort_term() -> Term {
    Term::Filled(Box::new(own("name"@)), Box::new(own("email"@)))
}

spec fn later_ids(email: Term, id: Term) -> Cond {
    group(
        true,
        either(
            Cond::BehindText(own("email"@), email),
            group(
                false,
                both(Cond::SameText(own("email"@), email), Cond::Above(own("id"@), id)),
            ),
        ),
    )
}

spec fn later_names(name: Term, email: Term, id: Term) -> Cond {
    group(
        true,
        either(
            Cond::BehindText(sort_term(), name),
            group(false, both(Cond::SameText(sort_term(), name), later_ids(email, id))),
        ),
    )
}

spec fn cursor_condition(favorite: Term, name: Term, email: Term, id: Term) -> Cond {
    group(
        true,
        either(
            Cond::Below(own("is_favorite"@), favorite),
            group(
                false,
                both(equal(own("is_favorite"@), favorite), later_names(name, email, id)),
            ),
        ),
    )
}

proof fn cursor_texts_split()
    ensures
        "CASE WHEN name IS NULL OR name = '' THEN email ELSE name END"@
            == "CASE WHEN "@ + "name"@ + " IS NULL OR "@ + "name"@ + " = '' THEN "@ + "email"@
                + " ELSE "@ + "name"@ + " END"@,
        "( is_favorite < "@ == "( "@ + "is_favorite"@ + " < "@,
        " OR (is_favorite = "@ == " OR "@ + "("@ + "is_favorite"@ + " = "@,
        " AND ( "@ == " AND "@ + "( "@,
        " COLLATE NOCASE OR ("@ == " COLLATE NOCASE"@ + " OR "@ + "("@,
        " COLLATE NOCASE AND ( email COLLATE NOCASE > "@
            == " COLLATE NOCASE"@ + " AND "@ + "( "@ + "email"@ + " COLLATE NOCASE > "@,
        " COLLATE NOCASE OR (email COLLATE NOCASE = "@
            == " COLLATE NOCASE"@ + " OR "@ + "("@ + "email"@ + " COLLATE NOCASE = "@,
        " COLLATE NOCASE AND id > "@ == " COLLATE NOCASE"@ + " AND "@ + "id"@ + " > "@,
        ") )) )) )"@ == ")"@ + " )"@ + ")"@ + " )"@ + ")"@ + " )"@,
{
    assert("CASE WHEN name IS NULL OR name = '' THEN email ELSE name END"@
        =~= "CASE WHEN "@ + "name"@ + " IS NULL OR "@ + "name"@ + " = '' THEN "@ + "email"@
            + " ELSE "@ + "name"@ + " END"@) by {
        reveal_strlit("CASE WHEN name IS NULL OR name = '' THEN email ELSE name END");
        reveal_strlit("CASE WHEN ");
        reveal_strlit("name");
        reveal_strlit(" IS NULL OR ");
        reveal_strlit(" = '' THEN ");
        reveal_strlit("email");
        reveal_strlit(" ELSE ");
        reveal_strlit(" END");
    }
    assert("( is_favorite < "@ =~= "( "@ + "is_favorite"@ + " < "@) by {
        reveal_strlit("( is_favorite < ");
        reveal_strlit("( ");
        reveal_strlit("is_favorite");
        reveal_strlit(" < ");
    }
    assert(" OR (is_favorite = "@ =~= " OR "@ + "("@ + "is_favorite"@ + " = "@) by {
        reveal_strlit(" OR (is_favorite = ");
        reveal_strlit(" OR ");
        reveal_strlit("(");
        reveal_strlit("is_favorite");
        reveal_strlit(" = ");
    }
    assert(" AND ( "@ =~= " AND "@ + "( "@) by {
        reveal_strlit(" AND ( ");
        reveal_strlit(" AND ");
        reveal_strlit("( ");
    }
    assert(" COLLATE NOCASE OR ("@ =~= " COLLATE NOCASE"@ + " OR "@ + "("@) by {
        reveal_strlit(" COLLATE NOCASE OR (");
        reveal_strlit(" COLLATE NOCASE");
        reveal_strlit(" OR ");
        reveal_strlit("(");
    }
    assert(" COLLATE NOCASE AND ( email COLLATE NOCASE > "@
        =~= " COLLATE NOCASE"@ + " AND "@ + "( "@ + "email"@ + " COLLATE NOCASE > "@) by {
        reveal_strlit(" COLLATE NOCASE AND ( email COLLATE NOCASE > ");
        reveal_strlit(" COLLATE NOCASE");
        reveal_strlit(" AND ");
        reveal_strlit("( ");
        reveal_strlit("email");
        reveal_strlit(" COLLATE NOCASE > ");
    }
    assert(" COLLATE NOCASE OR (email COLLATE NOCASE = "@
        =~= " COLLATE NOCASE"@ + " OR "@ + "("@ + "email"@ + " COLLATE NOCASE = "@) by {
        reveal_strlit(" COLLATE NOCASE OR (email COLLATE NOCASE = ");
        reveal_strlit(" COLLATE NOCASE");
        reveal_strlit(" OR ");
        reveal_strlit("(");
        reveal_strlit("email");
        reveal_strlit(" COLLATE NOCASE = ");
    }
    assert(" COLLATE NOCASE AND id > "@ =~= " COLLATE NOCASE"@ + " AND "@ + "id"@ + " > "@) by {
        reveal_strlit(" COLLATE NOCASE AND id > ");
        reveal_strlit(" COLLATE NOCASE");
        reveal_strlit(" AND ");
        reveal_strlit("id");
        reveal_strlit(" > ");
    }
    assert(") )) )) )"@ =~= ")"@ + " )"@ + ")"@ + " )"@ + ")"@ + " )"@) by {
        reveal_strlit(") )) )) )");
        reveal_strlit(")");
        reveal_strlit(" )");
    }
}

proof fn later_ids_are_read(email: Term, id: Term)
    ensures
        later_ids(email, id).text() == "( "@ + ("email"@ + " COLLATE NOCASE > "@ + email.text()
            + " COLLATE NOCASE"@ + " OR "@ + ("("@ + ("email"@ + " COLLATE NOCASE = "@
            + email.text() + " COLLATE NOCASE"@ + " AND "@ + ("id"@ + " > "@ + id.text())) + ")"@))
            + " )"@,
{
    let whole = later_ids(email, id);
    let alternatives = *(whole->Group_1);
    let tied = *(alternatives->Either_1);
    let pair = *(tied->Group_1);
    assert((alternatives->Either_0).text() == "email"@ + " COLLATE NOCASE > "@ + email.text()
        + " COLLATE NOCASE"@);
    assert((pair->Both_0).text() == "email"@ + " COLLATE NOCASE = "@ + email.text()
        + " COLLATE NOCASE"@);
    assert((pair->Both_1).text() == "id"@ + " > "@ + id.text());
    assert(pair.text() == (pair->Both_0).text() + " AND "@ + (pair->Both_1).text());
    assert(tied.text() == "("@ + pair.text() + ")"@);
    assert(alternatives.text() == (alternatives->Either_0).text() + " OR "@ + tied.text());
}

proof fn sorting_is_read()
    ensures
        sort_term().text() == sort_column(),
{
    cursor_texts_split();
    let t = sort_term();
    assert((t->Filled_0).text() == "name"@ && (t->Filled_1).text() == "email"@);
}

proof fn later_names_are_read(name: Term, email: Term, id: Term)
    ensures
        later_names(name, email, id).text() == "( "@ + (sort_column() + " COLLATE NOCASE > "@
            + name.text() + " COLLATE NOCASE"@ + " OR "@ + ("("@ + (sort_column()
            + " COLLATE NOCASE = "@ + name.text() + " COLLATE NOCASE"@ + " AND "@ + later_ids(
            email,
            id,
        ).text()) + ")"@)) + " )"@,
{
    sorting_is_read();
    let whole = later_names(name, email, id);
    let alternatives = *(whole->Group_1);
    let tied = *(alternatives->Either_1);
    let pair = *(tied->Group_1);
    assert((alternatives->Either_0).text() == sort_column() + " COLLATE NOCASE > "@ + name.text()
        + " COLLATE NOCASE"@);
    assert((pair->Both_0).text() == sort_column() + " COLLATE NOCASE = "@ + name.text()
        + " COLLATE NOCASE"@);
    assert((pair->Both_1).text() == later_ids(email, id).text());
    assert(pair.text() == (pair->Both_0).text() + " AND "@ + (pair->Both_1).text());
    assert(tied.text() == "("@ + pair.text() + ")"@);
    assert(alternatives.text() == (alternatives->Either_0).text() + " OR "@ + tied.text());
}

#[verifier::rlimit(40)]
proof fn cursor_is_read(favorite: Term, name: Term, email: Term, id: Term)
    ensures
        cursor_condition(favorite, name, email, id).text() == cursor_clause(
            favorite.text(),
            name.text(),
            email.text(),
            id.text(),
        ),
{
    cursor_texts_split();
    later_ids_are_read(email, id);
    later_names_are_read(name, email, id);
    let whole = cursor_condition(favorite, name, email, id);
    let alternatives = *(whole->Group_1);
    let tied = *(alternatives->Either_1);
    let pair = *(tied->Group_1);
    assert((alternatives->Either_0).text() == "is_favorite"@ + " < "@ + favorite.text());
    assert((pair->Both_0).text() == "is_favorite"@ + " = "@ + favorite.text());
    assert((pair->Both_1).text() == later_names(name, email, id).text());
    assert(pair.text() == (pair->Both_0).text() + " AND "@ + (pair->Both_1).text());
    assert(tied.text() == "("@ + pair.text() + ")"@);
    assert(alternatives.text() == (alternatives->Either_0).text() + " OR "@ + tied.text());
    assert(whole.text() == "( "@ + alternatives.text() + " )"@);
    texts_join();
}

/// What a search looks into: the folded form of the contact, or its address, and then its job title,
/// its website and its postal address.
pub open spec fn search_text(c: Row) -> Option<Seq<char>> {
    let first = if c.at("folded"@) is Null {
        cell_text(c.at("email"@))
    } else {
        cell_text(c.at("folded"@))
    };
    match first {
        Some(x) => Some(
            x + " "@ + text_or_blank(c.at("job_title"@)) + " "@ + text_or_blank(c.at("website"@))
                + " "@ + text_or_blank(c.at("postal_address"@)),
        ),
        None => None,
    }
}

/// The text of a value, or an empty one.
pub open spec fn text_or_blank(c: Cell) -> Seq<char> {
    match cell_text(c) {
        Some(x) => x,
        None => Seq::empty(),
    }
}

/// Whether a search finds a word in a contact, in either case.
pub open spec fn holds_word(c: Row, word: Seq<char>) -> bool {
    search_text(c) is Some && has_text(lower(search_text(c)->0), lower(word))
}

/// Whether a contact is kept on a server.
pub open spec fn is_on_server(db: Database, c: Row) -> bool {
    exists|o: Row| #[trigger]
        db.has("carddav_objects"@, o) && same_cell(o.at("contact_id"@), c.at("id"@)) && o.at(
            "remote_exists"@,
        ) == Cell::Int(1) && o.at("deleted"@) == Cell::Int(0)
}

/// Whether a contact stands in the address book: it was saved or marked here, or a server keeps it.
pub open spec fn is_saved(db: Database, c: Row) -> bool {
    c.at("is_managed"@) == Cell::Int(1) || c.at("is_favorite"@) == Cell::Int(1) || is_on_server(
        db,
        c,
    )
}

/// Whether mail alone shows a contact: it is known not to stand in the address book, and there was
/// mail to it or from it.
pub open spec fn is_suggested(db: Database, c: Row) -> bool {
    &&& !(c.at("is_managed"@) is Null) && !(c.at("is_favorite"@) is Null) && !is_saved(db, c)
    &&& is_positive(c.at("send_count"@)) || is_positive(c.at("recv_count"@))
}

/// Whether an account had to do with a contact.
pub open spec fn has_met(db: Database, c: Row, account_id: int) -> bool {
    exists|a: Row| #[trigger]
        db.has("contact_accounts"@, a) && same_cell(a.at("contact_id"@), c.at("id"@)) && a.at(
            "account_id"@,
        ) == Cell::Int(account_id)
}

/// Whether a list of contacts shows one: it holds every word of the search, is a favorite where
/// those are asked for, stands in the address book or is suggested by mail, and belongs to the
/// account that is asked for. What was saved here belongs to every account.
pub open spec fn lists_contact(q: RecordQuery, db: Database, c: Row) -> bool {
    &&& forall|i: int| 0 <= i < words(q.folded@).len() ==> holds_word(c, #[trigger] words(q.folded@)[i])
    &&& q.favorites_only ==> c.at("is_favorite"@) == Cell::Int(1)
    &&& q.suggestions_only ==> is_suggested(db, c)
    &&& !q.suggestions_only ==> is_saved(db, c)
    &&& q.account_id is Some ==> has_met(db, c, q.account_id->0 as int) || (!q.suggestions_only
        && c.at("is_managed"@) == Cell::Int(1))
}

/// What follows in the text that is searched.
proof fn next_means(a: Term, name: Seq<char>, s: Scope)
    ensures
        cell_text(and_then(a, name).value(s)) == match cell_text(a.value(s)) {
            Some(x) => Some(x + " "@ + text_or_blank(s.row("contacts"@).at(name))),
            None => None,
        },
{
    blank_is_empty();
    let whole = and_then(a, name);
    let first = *(whole->Glued_0);
    let last = *(whole->Glued_1);
    assert((first->Glued_0).value(s) == a.value(s));
    assert((first->Glued_1).value(s) == Cell::Text(" "@));
    assert((last->OrElse_0).value(s) == s.row("contacts"@).at(name));
    assert((last->OrElse_1).value(s) == Cell::Text(""@));
    let y = text_or_blank(s.row("contacts"@).at(name));
    assert(cell_text(last.value(s)) == Some(y));
    match cell_text(a.value(s)) {
        Some(x) => {
            assert(cell_text((first->Glued_0).value(s)) == Some(x));
            assert(cell_text((first->Glued_1).value(s)) == Some(" "@));
            assert(first.value(s) == Cell::Text(x + " "@));
            assert(cell_text((whole->Glued_0).value(s)) == Some(x + " "@));
            assert(whole.value(s) == Cell::Text(x + " "@ + y));
        },
        None => {
            assert(cell_text((first->Glued_0).value(s)) is None);
            assert(first.value(s) is Null);
        },
    }
}

proof fn word_means(n: int, word: Seq<char>, db: Database, s: Scope)
    ensures
        word_condition(Term::Param(n, Bound::Text(holding(like_escaped(word))))).holds(db, s)
            <==> holds_word(s.row("contacts"@), word),
{
    let pattern = Term::Param(n, Bound::Text(holding(like_escaped(word))));
    let start = or_else(own("folded"@), own("email"@));
    let second = and_then(start, "job_title"@);
    let third = and_then(second, "website"@);
    assert((start->OrElse_0).value(s) == s.row("contacts"@).at("folded"@));
    assert((start->OrElse_1).value(s) == s.row("contacts"@).at("email"@));
    next_means(start, "job_title"@, s);
    next_means(second, "website"@, s);
    next_means(third, "postal_address"@, s);
    let low = Term::Lower(Box::new(searched_text()));
    assert((low->Lower_0).value(s) == searched_text().value(s));
    let text = search_text(s.row("contacts"@));
    assert(cell_text(searched_text().value(s)) == text);
    texts_hold(low, pattern, db, s);
    if text is Some {
        assert(cell_text(low.value(s)) == Some(lower(text->0)));
        escaped_patterns_match_what_holds_the_text(lower(text->0), word);
        assert(lower(lower(text->0)) =~= lower(text->0));
    }
}

proof fn names_differ()
    ensures
        "co"@ != "contacts"@ && "ca"@ != "contacts"@,
{
    reveal_strlit("co");
    reveal_strlit("ca");
    reveal_strlit("contacts");
    assert("co"@.len() == 2 && "ca"@.len() == 2 && "contacts"@.len() == 8);
}

proof fn server_means(db: Database, s: Scope)
    ensures
        on_server("contacts"@).holds(db, s) <==> is_on_server(db, s.row("contacts"@)),
{
    names_differ();
    let c = s.row("contacts"@);
    let mine = equal(column("co"@, "contact_id"@), column("contacts"@, "id"@));
    let there = equal(column("co"@, "remote_exists"@), Term::Number(1));
    let kept = equal(column("co"@, "deleted"@), Term::Number(0));
    let wanted = both(mine, both(there, kept));
    exists_in_table(true, "carddav_objects"@, "co"@, wanted, db, s);
    assert forall|o: Row| #[trigger]
        db.has("carddav_objects"@, o) implies (wanted.holds(db, s.with("co"@, o)) <==> same_cell(
        o.at("contact_id"@),
        c.at("id"@),
    ) && o.at("remote_exists"@) == Cell::Int(1) && o.at("deleted"@) == Cell::Int(0)) by {
        let inner = s.with("co"@, o);
        both_hold(mine, both(there, kept), db, inner);
        both_hold(there, kept, db, inner);
        comparisons_hold(column("co"@, "contact_id"@), column("contacts"@, "id"@), db, inner);
        comparisons_hold(column("co"@, "remote_exists"@), Term::Number(1), db, inner);
        comparisons_hold(column("co"@, "deleted"@), Term::Number(0), db, inner);
    }
}

proof fn saved_means(db: Database, s: Scope)
    ensures
        saved_condition("contacts"@).holds(db, s) <==> is_saved(db, s.row("contacts"@)),
        suggested_condition().holds(db, s) <==> is_suggested(db, s.row("contacts"@)),
{
    let c = s.row("contacts"@);
    let one = Term::Number(1);
    let managed = equal(column("contacts"@, "is_managed"@), one);
    let favorite = equal(column("contacts"@, "is_favorite"@), one);
    let server = on_server("contacts"@);
    let others = either(favorite, server);
    let all = either(managed, others);
    server_means(db, s);
    group_holds(false, all, db, s);
    either_holds(managed, others, db, s);
    either_holds(favorite, server, db, s);
    comparisons_hold(column("contacts"@, "is_managed"@), one, db, s);
    comparisons_hold(column("contacts"@, "is_favorite"@), one, db, s);
    let saved = saved_condition("contacts"@);
    let unsaved = Cond::Not(Box::new(saved));
    denials_are_known(saved, saved, one, one, db, s);
    denials_are_known(all, all, one, one, db, s);
    denials_are_known(managed, others, column("contacts"@, "is_managed"@), one, db, s);
    denials_are_known(favorite, server, column("contacts"@, "is_favorite"@), one, db, s);
    denials_are_known(server, server, one, one, db, s);
    both_hold(unsaved, known_from_mail(), db, s);
    let zero = Term::Number(0);
    let sent = Cond::Above(own("send_count"@), zero);
    let received = Cond::Above(own("recv_count"@), zero);
    group_holds(false, either(sent, received), db, s);
    either_holds(sent, received, db, s);
    comparisons_hold(own("send_count"@), zero, db, s);
    comparisons_hold(own("recv_count"@), zero, db, s);
}

proof fn account_means(suggestions: bool, n: int, id: i64, db: Database, s: Scope)
    ensures
        account_condition(suggestions, Term::Param(n, Bound::Int(id))).holds(db, s) <==> (has_met(
            db,
            s.row("contacts"@),
            id as int,
        ) || (!suggestions && s.row("contacts"@).at("is_managed"@) == Cell::Int(1))),
{
    names_differ();
    let c = s.row("contacts"@);
    let account = Term::Param(n, Bound::Int(id));
    let mine = equal(column("ca"@, "contact_id"@), column("contacts"@, "id"@));
    let named = equal(column("ca"@, "account_id"@), account);
    let wanted = both(mine, named);
    exists_in_table(true, "contact_accounts"@, "ca"@, wanted, db, s);
    assert forall|a: Row| #[trigger]
        db.has("contact_accounts"@, a) implies (wanted.holds(db, s.with("ca"@, a)) <==> same_cell(
        a.at("contact_id"@),
        c.at("id"@),
    ) && a.at("account_id"@) == Cell::Int(id as int)) by {
        let inner = s.with("ca"@, a);
        both_hold(mine, named, db, inner);
        comparisons_hold(column("ca"@, "contact_id"@), column("contacts"@, "id"@), db, inner);
        comparisons_hold(column("ca"@, "account_id"@), account, db, inner);
    }
    let managed = equal(own("is_managed"@), Term::Number(1));
    group_holds(false, either(managed, met_condition(account)), db, s);
    either_holds(managed, met_condition(account), db, s);
    comparisons_hold(own("is_managed"@), Term::Number(1), db, s);
}

/// The value that is bound for a word.
spec fn word_bound(word: Seq<char>) -> Bound {
    Bound::Text(holding(like_escaped(word)))
}

/// The condition that every word is found.
spec fn words_condition(tokens: Seq<Seq<char>>) -> Cond
    decreases tokens.len(),
{
    let last = word_condition(Term::Param(tokens.len() as int, word_bound(tokens.last())));
    if tokens.len() <= 1 {
        last
    } else {
        both(words_condition(tokens.drop_last()), last)
    }
}

proof fn words_are_read(tokens: Seq<Seq<char>>)
    requires
        tokens.len() > 0,
    ensures
        ({
            let f = word_filter(Filter::all(), tokens);
            let c = words_condition(tokens);
            &&& f.bind.len() == tokens.len() && f.clauses.len() == tokens.len()
            &&& c.text() == f.text()
            &&& c.fits(f.bind)
            &&& !(c is Either)
        }),
    decreases tokens.len(),
{
    let head = tokens.drop_last();
    let before = word_filter(Filter::all(), head);
    let f = word_filter(Filter::all(), tokens);
    let term = Term::Param(tokens.len() as int, word_bound(tokens.last()));
    let last = word_condition(term);
    word_is_read(term);
    if tokens.len() > 1 {
        words_are_read(head);
        assert(f.clauses.drop_last() =~= before.clauses);
        let c = words_condition(tokens);
        assert((c->Both_0).text() == before.text() && (c->Both_1).text() == last.text());
        assert(c.text() == before.text() + " AND "@ + last.text());
        crate::repo::rows::more_values_keep_conditions(
            words_condition(head),
            before.bind,
            f.bind,
        );
        assert((c->Both_0).fits(f.bind));
        word_fits(term, f.bind);
        assert((c->Both_1).fits(f.bind));
    } else {
        assert(head =~= Seq::<Seq<char>>::empty());
        assert(before == Filter::all());
        assert(f.clauses =~= seq![last.text()]);
        word_fits(term, f.bind);
    }
}

proof fn word_fits(term: Term, bind: Seq<Bound>)
    requires
        term.fits(bind),
    ensures
        word_condition(term).fits(bind),
{
    reveal_with_fuel(Term::fits, 9);
}

proof fn words_mean(tokens: Seq<Seq<char>>, db: Database, s: Scope)
    requires
        tokens.len() > 0,
    ensures
        words_condition(tokens).holds(db, s) <==> forall|i: int|
            0 <= i < tokens.len() ==> holds_word(s.row("contacts"@), #[trigger] tokens[i]),
    decreases tokens.len(),
{
    let head = tokens.drop_last();
    let term = Term::Param(tokens.len() as int, word_bound(tokens.last()));
    let last = word_condition(term);
    word_means(tokens.len() as int, tokens.last(), db, s);
    if tokens.len() > 1 {
        words_mean(head, db, s);
        both_hold(words_condition(head), last, db, s);
        assert forall|i: int| 0 <= i < head.len() implies head[i] == #[trigger] tokens[i] by {}
        if words_condition(tokens).holds(db, s) {
            assert forall|i: int| 0 <= i < tokens.len() implies holds_word(
                s.row("contacts"@),
                #[trigger] tokens[i],
            ) by {
                if i < head.len() {
                    assert(holds_word(s.row("contacts"@), head[i]));
                }
            }
        } else if forall|i: int|
            0 <= i < tokens.len() ==> holds_word(s.row("contacts"@), #[trigger] tokens[i]) {
            assert forall|i: int| 0 <= i < head.len() implies holds_word(
                s.row("contacts"@),
                #[trigger] head[i],
            ) by {
                assert(head[i] == tokens[i]);
            }
            assert(tokens[tokens.len() - 1] == tokens.last());
        }
    } else {
        assert(tokens[0] == tokens.last());
    }
}

proof fn words_are_asked(tokens: Seq<Seq<char>>)
    ensures
        ({
            let searched = word_filter(Filter::all(), tokens);
            let base = if tokens.len() == 0 {
                Filter::all()
            } else {
                Filter { clauses: seq!["("@ + searched.text() + ")"@], bind: searched.bind }
            };
            asks_for(
                base,
                |db: Database, s: Scope|
                    forall|i: int|
                        0 <= i < tokens.len() ==> holds_word(
                            s.row("contacts"@),
                            #[trigger] tokens[i],
                        ),
            )
        }),
{
    let found_all = |db: Database, s: Scope|
        forall|i: int|
            0 <= i < tokens.len() ==> holds_word(s.row("contacts"@), #[trigger] tokens[i]);
    if tokens.len() == 0 {
        nothing_is_asked(found_all);
    } else {
        let all = |db: Database, s: Scope| true;
        nothing_is_asked(all);
        let searched = word_filter(Filter::all(), tokens);
        let bound = Filter { clauses: Seq::empty(), bind: searched.bind };
        let inner = words_condition(tokens);
        let c = group(false, inner);
        words_are_read(tokens);
        assert((c->Group_1).text() == searched.text());
        assert(c.text() == "("@ + searched.text() + ")"@);
        assert((c->Group_1).fits(bound.bind));
        assert forall|db: Database, s: Scope| #[trigger]
            found_all(db, s) <==> all(db, s) && c.holds(db, s) by {
            group_holds(false, inner, db, s);
            words_mean(tokens, db, s);
        }
        asks_for_one_more(Filter::all(), all, bound, c, found_all);
        assert(bound.and(c.text()).clauses =~= seq!["("@ + searched.text() + ")"@]);
    }
}

/// The conditions of a list of contacts ask for the contacts that it is to show.
pub proof fn lists_show_their_contacts(q: RecordQuery)
    ensures
        asks_for(
            record_filter(q),
            |db: Database, s: Scope| lists_contact(q, db, s.row("contacts"@)),
        ),
{
    let tokens = words(q.folded@);
    let searched = word_filter(Filter::all(), tokens);
    let f0 = if tokens.len() == 0 {
        Filter::all()
    } else {
        Filter { clauses: seq!["("@ + searched.text() + ")"@], bind: searched.bind }
    };
    let w0 = |db: Database, s: Scope|
        forall|i: int|
            0 <= i < tokens.len() ==> holds_word(s.row("contacts"@), #[trigger] tokens[i]);
    words_are_asked(tokens);
    suggestions_are_read();
    saved_is_read("contacts"@);
    let one = Term::Number(1);
    let w1 = also(
        w0,
        |db: Database, s: Scope|
            q.favorites_only ==> s.row("contacts"@).at("is_favorite"@) == Cell::Int(1),
    );
    let f1 = if q.favorites_only {
        f0.and("is_favorite = 1"@)
    } else {
        f0
    };
    if q.favorites_only {
        let c = equal(own("is_favorite"@), one);
        assert forall|db: Database, s: Scope| #[trigger]
            w1(db, s) <==> w0(db, s) && c.holds(db, s) by {
            comparisons_hold(own("is_favorite"@), one, db, s);
        }
        asks_for_one_more(f0, w0, f0, c, w1);
    } else {
        asks_in_other_words(f0, w0, w1);
    }
    let w2 = also(
        w1,
        |db: Database, s: Scope|
            if q.suggestions_only {
                is_suggested(db, s.row("contacts"@))
            } else {
                is_saved(db, s.row("contacts"@))
            },
    );
    let kept = if q.suggestions_only {
        suggested_condition()
    } else {
        saved_condition("contacts"@)
    };
    let f2 = f1.and(kept.text());
    contacts_fit(f1.bind);
    assert forall|db: Database, s: Scope| #[trigger]
        w2(db, s) <==> w1(db, s) && kept.holds(db, s) by {
        saved_means(db, s);
    }
    asks_for_one_more(f1, w1, f1, kept, w2);
    let said = |db: Database, s: Scope| lists_contact(q, db, s.row("contacts"@));
    match q.account_id {
        Some(id) => {
            let bound = f2.bind(Bound::Int(id));
            let n = bound.bind.len() as int;
            let term = Term::Param(n, Bound::Int(id));
            let c = account_condition(q.suggestions_only, term);
            accounts_are_read(q.suggestions_only, term);
            account_fits(q.suggestions_only, term, bound.bind);
            assert forall|db: Database, s: Scope| #[trigger]
                said(db, s) <==> w2(db, s) && c.holds(db, s) by {
                account_means(q.suggestions_only, n, id, db, s);
            }
            asks_for_one_more(f2, w2, bound, c, said);
        },
        None => {
            asks_in_other_words(f2, w2, said);
        },
    }
}

proof fn contacts_fit(bind: Seq<Bound>)
    ensures
        saved_condition("contacts"@).fits(bind),
        suggested_condition().fits(bind),
{
    reveal_with_fuel(Cond::fits, 9);
    reveal_with_fuel(Source::fits, 9);
}

proof fn account_fits(suggestions: bool, account: Term, bind: Seq<Bound>)
    requires
        account.fits(bind),
    ensures
        account_condition(suggestions, account).fits(bind),
{
    reveal_with_fuel(Cond::fits, 7);
    reveal_with_fuel(Source::fits, 7);
}

/// What a contact is sorted by: its name, or its address where it has none.
pub open spec fn row_sort_name(c: Row) -> Cell {
    if c.at("name"@) is Null || c.at("name"@) == Cell::Text(Seq::empty()) {
        c.at("email"@)
    } else {
        c.at("name"@)
    }
}

/// Whether a contact stands behind a cursor: favorites first, then by name and by address without
/// regard to case, then by id.
pub open spec fn contact_is_behind(c: Row, cursor: ContactRecordCursor) -> bool {
    let favorite = Cell::Int(
        if cursor.is_favorite {
            1
        } else {
            0
        },
    );
    let name = cell_text(row_sort_name(c));
    let email = cell_text(c.at("email"@));
    let later_id = !(c.at("id"@) is Null) && is_below(Cell::Int(cursor.id as int), c.at("id"@));
    let later_email = email is Some && (text_order(lower(email->0), lower(cursor.email@)) > 0 || (
    lower(email->0) == lower(cursor.email@) && later_id));
    let later_name = name is Some && (text_order(lower(name->0), lower(cursor.sort_name@)) > 0 || (
    lower(name->0) == lower(cursor.sort_name@) && later_email));
    (!(c.at("is_favorite"@) is Null) && is_below(c.at("is_favorite"@), favorite)) || (c.at(
        "is_favorite"@,
    ) == favorite && later_name)
}

proof fn cursor_means(
    favorite: Term,
    name: Term,
    email: Term,
    id: Term,
    cursor: ContactRecordCursor,
    db: Database,
    s: Scope,
)
    requires
        favorite.value(s) == Cell::Int(
            if cursor.is_favorite {
                1
            } else {
                0
            },
        ),
        name.value(s) == Cell::Text(cursor.sort_name@),
        email.value(s) == Cell::Text(cursor.email@),
        id.value(s) == Cell::Int(cursor.id as int),
    ensures
        cursor_condition(favorite, name, email, id).holds(db, s) <==> contact_is_behind(
            s.row("contacts"@),
            cursor,
        ),
{
    let c = s.row("contacts"@);
    let sort = sort_term();
    assert((sort->Filled_0).value(s) == c.at("name"@));
    assert((sort->Filled_1).value(s) == c.at("email"@));
    assert(sort.value(s) == row_sort_name(c));
    let same_email = Cond::SameText(own("email"@), email);
    let later_id = Cond::Above(own("id"@), id);
    let later_email = Cond::BehindText(own("email"@), email);
    let tied_email = both(same_email, later_id);
    group_holds(true, either(later_email, group(false, tied_email)), db, s);
    either_holds(later_email, group(false, tied_email), db, s);
    group_holds(false, tied_email, db, s);
    both_hold(same_email, later_id, db, s);
    texts_hold(own("email"@), email, db, s);
    comparisons_hold(own("id"@), id, db, s);
    let same_name = Cond::SameText(sort, name);
    let later_name = Cond::BehindText(sort, name);
    let tied_name = both(same_name, later_ids(email, id));
    group_holds(true, either(later_name, group(false, tied_name)), db, s);
    either_holds(later_name, group(false, tied_name), db, s);
    group_holds(false, tied_name, db, s);
    both_hold(same_name, later_ids(email, id), db, s);
    texts_hold(sort, name, db, s);
    let less = Cond::Below(own("is_favorite"@), favorite);
    let same = equal(own("is_favorite"@), favorite);
    let tied = both(same, later_names(name, email, id));
    group_holds(true, either(less, group(false, tied)), db, s);
    either_holds(less, group(false, tied), db, s);
    group_holds(false, tied, db, s);
    both_hold(same, later_names(name, email, id), db, s);
    comparisons_hold(own("is_favorite"@), favorite, db, s);
}

proof fn cursor_fits(favorite: Term, name: Term, email: Term, id: Term, bind: Seq<Bound>)
    requires
        favorite.fits(bind),
        name.fits(bind),
        email.fits(bind),
        id.fits(bind),
    ensures
        cursor_condition(favorite, name, email, id).fits(bind),
{
    let sort = sort_term();
    assert(sort.fits(bind)) by {
        reveal_with_fuel(Term::fits, 3);
    }
    let ids = later_ids(email, id);
    assert(ids.fits(bind)) by {
        reveal_with_fuel(Cond::fits, 6);
    }
    let names = later_names(name, email, id);
    assert(names.fits(bind)) by {
        let alternatives = *(names->Group_1);
        let tied = *(alternatives->Either_1);
        let pair = *(tied->Group_1);
        assert((pair->Both_0).fits(bind) && (pair->Both_1).fits(bind));
        assert(pair.fits(bind));
        assert(tied.fits(bind));
        assert((alternatives->Either_0).fits(bind));
        assert(alternatives.fits(bind));
    }
    let whole = cursor_condition(favorite, name, email, id);
    let alternatives = *(whole->Group_1);
    let tied = *(alternatives->Either_1);
    let pair = *(tied->Group_1);
    assert((pair->Both_0).fits(bind) && (pair->Both_1).fits(bind));
    assert(pair.fits(bind));
    assert(tied.fits(bind));
    assert((alternatives->Either_0).fits(bind));
    assert(alternatives.fits(bind));
}

/// The conditions of a page of contacts ask for the contacts of the list that stand behind the
/// cursor of the page.
pub proof fn pages_show_their_contacts(q: RecordQuery, cursor: Option<ContactRecordCursor>)
    ensures
        asks_for(
            page_filter(q, cursor),
            |db: Database, s: Scope|
                lists_contact(q, db, s.row("contacts"@)) && (cursor is Some ==> contact_is_behind(
                    s.row("contacts"@),
                    cursor->0,
                )),
        ),
{
    let base = record_filter(q);
    let listed = |db: Database, s: Scope| lists_contact(q, db, s.row("contacts"@));
    let said = |db: Database, s: Scope|
        lists_contact(q, db, s.row("contacts"@)) && (cursor is Some ==> contact_is_behind(
            s.row("contacts"@),
            cursor->0,
        ));
    lists_show_their_contacts(q);
    match cursor {
        Some(at) => {
            let flag = Bound::Int(
                if at.is_favorite {
                    1
                } else {
                    0
                },
            );
            let f1 = base.bind(flag);
            let f2 = f1.bind(Bound::Text(at.sort_name@));
            let f3 = f2.bind(Bound::Text(at.email@));
            let f4 = f3.bind(Bound::Int(at.id));
            let favorite = Term::Param(f1.bind.len() as int, flag);
            let name = Term::Param(f2.bind.len() as int, Bound::Text(at.sort_name@));
            let email = Term::Param(f3.bind.len() as int, Bound::Text(at.email@));
            let id = Term::Param(f4.bind.len() as int, Bound::Int(at.id));
            let c = cursor_condition(favorite, name, email, id);
            cursor_is_read(favorite, name, email, id);
            cursor_fits(favorite, name, email, id, f4.bind);
            assert forall|db: Database, s: Scope| #[trigger]
                said(db, s) <==> listed(db, s) && c.holds(db, s) by {
                cursor_means(favorite, name, email, id, at, db, s);
            }
            asks_for_one_more(base, listed, f4, c, said);
        },
        None => {
            asks_in_other_words(base, listed, said);
        },
    }
}

/// The rows behind a cursor are those of the records that the next page shows.
pub proof fn pages_go_on_behind_the_cursor(
    c: Row,
    shown: ContactRecord,
    cursor: ContactRecordCursor,
)
    requires
        c.at("id"@) == Cell::Int(shown.id as int),
        c.at("email"@) == Cell::Text(shown.email@),
        c.at("name"@) == Cell::Text(shown.name@) || (c.at("name"@) is Null && shown.name@.len()
            == 0),
        c.at("is_favorite"@) == Cell::Int(
            if shown.is_favorite {
                1
            } else {
                0
            },
        ),
    ensures
        contact_is_behind(c, cursor) <==> record_behind(shown, cursor),
{
    if shown.name@.len() == 0 {
        assert(shown.name@ =~= Seq::<char>::empty());
    }
    crate::text::text_order_is_total(
        lower(sort_name(shown)),
        lower(cursor.sort_name@),
        lower(cursor.sort_name@),
    );
    crate::text::text_order_is_total(
        lower(shown.email@),
        lower(cursor.email@),
        lower(cursor.email@),
    );
}

} // verus!
