//! Which threads a list shows, as its conditions say it of the rows that are stored.

use crate::repo::counts::{
    drafted, in_bucket, in_role, label_filter, labelled, split_tab,
};
use crate::repo::labels::Label;
use crate::repo::rows::{
    also, asks_for, asks_for_one_more, asks_in_other_words, both, both_hold, column,
    comparisons_hold, either, either_holds, equal, existence_is_known, exists_in_join,
    exists_in_table, found, group, group_holds, is_below, is_later, join, newest_holds, not_holds,
    nothing_is_asked, numbers_are_read, same_cell, texts_join, Cell, Cond, Database, Row, Scope,
    Source, Term,
};
use crate::repo::sql::{Bound, Filter};
use crate::repo::threads::{
    behind_cursor, default_tab, drafted_in, filter_of, in_folder, is_behind, ListArgs, MailView,
    TabFilter, ThreadCursor, ThreadSummary,
};
use crate::text::signed_decimal;
use vstd::prelude::*;
use vstd::string::*;

verus! {

/// Messages with the folder that each stands in.
spec fn own_folders() -> Source {
    join(
        Source::Table("messages"@, "m"@),
        "folders"@,
        "f"@,
        equal(column("f"@, "id"@), column("m"@, "folder_id"@)),
    )
}

/// Messages of Gmail with the folders that each is filed in.
spec fn filed_folders() -> Source {
    join(
        join(
            join(
                Source::Table("messages"@, "m"@),
                "accounts"@,
                "ma"@,
                both(
                    equal(column("ma"@, "id"@), column("m"@, "account_id"@)),
                    equal(column("ma"@, "provider"@), Term::Quoted("gmail"@)),
                ),
            ),
            "message_folders"@,
            "mf"@,
            equal(column("mf"@, "message_id"@), column("m"@, "id"@)),
        ),
        "folders"@,
        "f"@,
        equal(column("f"@, "id"@), column("mf"@, "folder_id"@)),
    )
}

spec fn of_thread() -> Cond {
    equal(column("m"@, "thread_id"@), column("t"@, "id"@))
}

spec fn role_condition(role: Term) -> Cond {
    let wanted = both(of_thread(), equal(column("f"@, "role"@), role));
    group(false, either(found(false, own_folders(), wanted), found(true, filed_folders(), wanted)))
}

#[verifier::rlimit(40)]
proof fn thread_is_read()
    ensures
        of_thread().text() == "m.thread_id = t.id"@,
{
    reveal_with_fuel(Cond::text, 8);
    reveal_with_fuel(Source::text, 8);
    reveal_with_fuel(Term::text, 2);
    assert("m.thread_id = t.id"@ =~= "m"@ + "."@ + "thread_id"@ + " = "@ + "t"@ + "."@ + "id"@) by {
        reveal_strlit("m.thread_id = t.id");
        reveal_strlit("m");
        reveal_strlit(".");
        reveal_strlit("thread_id");
        reveal_strlit(" = ");
        reveal_strlit("t");
        reveal_strlit("id");
    }
    texts_join();
}

#[verifier::rlimit(40)]
proof fn own_folders_are_read()
    ensures
        own_folders().text() == "messages m JOIN folders f ON f.id = m.folder_id"@,
{
    reveal_with_fuel(Cond::text, 8);
    reveal_with_fuel(Source::text, 8);
    reveal_with_fuel(Term::text, 2);
    assert("messages m JOIN folders f ON f.id = m.folder_id"@
        =~= "messages"@ + " "@ + "m"@ + " JOIN "@ + "folders"@ + " "@ + "f"@ + " ON "@ + "f"@
            + "."@ + "id"@ + " = "@ + "m"@ + "."@ + "folder_id"@) by {
        reveal_strlit("messages m JOIN folders f ON f.id = m.folder_id");
        reveal_strlit("messages");
        reveal_strlit(" ");
        reveal_strlit("m");
        reveal_strlit(" JOIN ");
        reveal_strlit("folders");
        reveal_strlit("f");
        reveal_strlit(" ON ");
        reveal_strlit(".");
        reveal_strlit("id");
        reveal_strlit(" = ");
        reveal_strlit("folder_id");
    }
    texts_join();
}

#[verifier::rlimit(40)]
proof fn filed_folders_are_read()
    ensures
        filed_folders().text() == "messages m JOIN accounts ma ON ma.id = m.account_id AND ma.provider = 'gmail' JOIN message_folders mf ON mf.message_id = m.id JOIN folders f ON f.id = mf.folder_id"@,
{
    reveal_with_fuel(Cond::text, 8);
    reveal_with_fuel(Source::text, 8);
    reveal_with_fuel(Term::text, 2);
    assert("messages m JOIN accounts ma ON ma.id = m.account_id AND ma.provider = 'gmail' JOIN message_folders mf ON mf.message_id = m.id JOIN folders f ON f.id = mf.folder_id"@
        =~= "messages"@ + " "@ + "m"@ + " JOIN "@ + "accounts"@ + " "@ + "ma"@ + " ON "@ + "ma"@
            + "."@ + "id"@ + " = "@ + "m"@ + "."@ + "account_id"@ + " AND "@ + "ma"@ + "."@
            + "provider"@ + " = "@ + "'"@ + "gmail"@ + "'"@ + " JOIN "@ + "message_folders"@
            + " "@ + "mf"@ + " ON "@ + "mf"@ + "."@ + "message_id"@ + " = "@ + "m"@ + "."@ + "id"@
            + " JOIN "@ + "folders"@ + " "@ + "f"@ + " ON "@ + "f"@ + "."@ + "id"@ + " = "@
            + "mf"@ + "."@ + "folder_id"@) by {
        reveal_strlit("messages m JOIN accounts ma ON ma.id = m.account_id AND ma.provider = 'gmail' JOIN message_folders mf ON mf.message_id = m.id JOIN folders f ON f.id = mf.folder_id");
        reveal_strlit("messages");
        reveal_strlit(" ");
        reveal_strlit("m");
        reveal_strlit(" JOIN ");
        reveal_strlit("accounts");
        reveal_strlit("ma");
        reveal_strlit(" ON ");
        reveal_strlit(".");
        reveal_strlit("id");
        reveal_strlit(" = ");
        reveal_strlit("account_id");
        reveal_strlit(" AND ");
        reveal_strlit("provider");
        reveal_strlit("'");
        reveal_strlit("gmail");
        reveal_strlit("message_folders");
        reveal_strlit("mf");
        reveal_strlit("message_id");
        reveal_strlit("folders");
        reveal_strlit("f");
        reveal_strlit("folder_id");
    }
    texts_join();
}

#[verifier::rlimit(40)]
proof fn own_role_is_read(role: Term)
    ensures
        found(false, own_folders(), both(of_thread(), equal(column("f"@, "role"@), role))).text() == "EXISTS (SELECT 1 FROM messages m JOIN folders f ON f.id = m.folder_id WHERE m.thread_id = t.id AND f.role = "@ + role.text() + ")"@,
{
    reveal_with_fuel(Cond::text, 3);
    thread_is_read();
    own_folders_are_read();
    assert("EXISTS (SELECT 1 FROM messages m JOIN folders f ON f.id = m.folder_id WHERE m.thread_id = t.id AND f.role = "@
        =~= "EXISTS (SELECT 1 FROM "@ + "messages m JOIN folders f ON f.id = m.folder_id"@
            + " WHERE "@ + "m.thread_id = t.id"@ + " AND "@ + "f"@ + "."@ + "role"@ + " = "@) by {
        reveal_strlit("EXISTS (SELECT 1 FROM messages m JOIN folders f ON f.id = m.folder_id WHERE m.thread_id = t.id AND f.role = ");
        reveal_strlit("EXISTS (SELECT 1 FROM ");
        reveal_strlit("messages m JOIN folders f ON f.id = m.folder_id");
        reveal_strlit(" WHERE ");
        reveal_strlit("m.thread_id = t.id");
        reveal_strlit(" AND ");
        reveal_strlit("f");
        reveal_strlit(".");
        reveal_strlit("role");
        reveal_strlit(" = ");
    }
    reveal_with_fuel(Term::text, 2);
    texts_join();
}

#[verifier::rlimit(40)]
proof fn filed_role_is_read(role: Term)
    ensures
        found(true, filed_folders(), both(of_thread(), equal(column("f"@, "role"@), role))).text() == "EXISTS ( SELECT 1 FROM messages m JOIN accounts ma ON ma.id = m.account_id AND ma.provider = 'gmail' JOIN message_folders mf ON mf.message_id = m.id JOIN folders f ON f.id = mf.folder_id WHERE m.thread_id = t.id AND f.role = "@ + role.text() + " )"@,
{
    reveal_with_fuel(Cond::text, 3);
    thread_is_read();
    filed_folders_are_read();
    assert("EXISTS ( SELECT 1 FROM messages m JOIN accounts ma ON ma.id = m.account_id AND ma.provider = 'gmail' JOIN message_folders mf ON mf.message_id = m.id JOIN folders f ON f.id = mf.folder_id WHERE m.thread_id = t.id AND f.role = "@
        =~= "EXISTS ( SELECT 1 FROM "@
            + "messages m JOIN accounts ma ON ma.id = m.account_id AND ma.provider = 'gmail' JOIN message_folders mf ON mf.message_id = m.id JOIN folders f ON f.id = mf.folder_id"@
            + " WHERE "@ + "m.thread_id = t.id"@ + " AND "@ + "f"@ + "."@ + "role"@ + " = "@) by {
        reveal_strlit("EXISTS ( SELECT 1 FROM messages m JOIN accounts ma ON ma.id = m.account_id AND ma.provider = 'gmail' JOIN message_folders mf ON mf.message_id = m.id JOIN folders f ON f.id = mf.folder_id WHERE m.thread_id = t.id AND f.role = ");
        reveal_strlit("EXISTS ( SELECT 1 FROM ");
        reveal_strlit("messages m JOIN accounts ma ON ma.id = m.account_id AND ma.provider = 'gmail' JOIN message_folders mf ON mf.message_id = m.id JOIN folders f ON f.id = mf.folder_id");
        reveal_strlit(" WHERE ");
        reveal_strlit("m.thread_id = t.id");
        reveal_strlit(" AND ");
        reveal_strlit("f");
        reveal_strlit(".");
        reveal_strlit("role");
        reveal_strlit(" = ");
    }
    reveal_with_fuel(Term::text, 2);
    texts_join();
}

proof fn role_texts_split()
    ensures
        "(EXISTS (SELECT 1 FROM messages m JOIN folders f ON f.id = m.folder_id WHERE m.thread_id = t.id AND f.role = "@
            == "("@
                + "EXISTS (SELECT 1 FROM messages m JOIN folders f ON f.id = m.folder_id WHERE m.thread_id = t.id AND f.role = "@,
        ") OR EXISTS ( SELECT 1 FROM messages m JOIN accounts ma ON ma.id = m.account_id AND ma.provider = 'gmail' JOIN message_folders mf ON mf.message_id = m.id JOIN folders f ON f.id = mf.folder_id WHERE m.thread_id = t.id AND f.role = "@
            == ")"@ + " OR "@
                + "EXISTS ( SELECT 1 FROM messages m JOIN accounts ma ON ma.id = m.account_id AND ma.provider = 'gmail' JOIN message_folders mf ON mf.message_id = m.id JOIN folders f ON f.id = mf.folder_id WHERE m.thread_id = t.id AND f.role = "@,
        " ))"@ == " )"@ + ")"@,
{
    assert("(EXISTS (SELECT 1 FROM messages m JOIN folders f ON f.id = m.folder_id WHERE m.thread_id = t.id AND f.role = "@
        =~= "("@
            + "EXISTS (SELECT 1 FROM messages m JOIN folders f ON f.id = m.folder_id WHERE m.thread_id = t.id AND f.role = "@) by {
        reveal_strlit("(EXISTS (SELECT 1 FROM messages m JOIN folders f ON f.id = m.folder_id WHERE m.thread_id = t.id AND f.role = ");
        reveal_strlit("(");
        reveal_strlit("EXISTS (SELECT 1 FROM messages m JOIN folders f ON f.id = m.folder_id WHERE m.thread_id = t.id AND f.role = ");
    }
    assert(") OR EXISTS ( SELECT 1 FROM messages m JOIN accounts ma ON ma.id = m.account_id AND ma.provider = 'gmail' JOIN message_folders mf ON mf.message_id = m.id JOIN folders f ON f.id = mf.folder_id WHERE m.thread_id = t.id AND f.role = "@
        =~= ")"@ + " OR "@
            + "EXISTS ( SELECT 1 FROM messages m JOIN accounts ma ON ma.id = m.account_id AND ma.provider = 'gmail' JOIN message_folders mf ON mf.message_id = m.id JOIN folders f ON f.id = mf.folder_id WHERE m.thread_id = t.id AND f.role = "@) by {
        reveal_strlit(") OR EXISTS ( SELECT 1 FROM messages m JOIN accounts ma ON ma.id = m.account_id AND ma.provider = 'gmail' JOIN message_folders mf ON mf.message_id = m.id JOIN folders f ON f.id = mf.folder_id WHERE m.thread_id = t.id AND f.role = ");
        reveal_strlit(")");
        reveal_strlit(" OR ");
        reveal_strlit("EXISTS ( SELECT 1 FROM messages m JOIN accounts ma ON ma.id = m.account_id AND ma.provider = 'gmail' JOIN message_folders mf ON mf.message_id = m.id JOIN folders f ON f.id = mf.folder_id WHERE m.thread_id = t.id AND f.role = ");
    }
    assert(" ))"@ =~= " )"@ + ")"@) by {
        reveal_strlit(" ))");
        reveal_strlit(" )");
        reveal_strlit(")");
    }
}

#[verifier::rlimit(40)]
proof fn role_is_read(role: Term)
    ensures
        role_condition(role).text() == in_role(role.text()),
        !(role_condition(role) is Either),
{
    let wanted = both(of_thread(), equal(column("f"@, "role"@), role));
    let own = found(false, own_folders(), wanted);
    let filed = found(true, filed_folders(), wanted);
    own_role_is_read(role);
    filed_role_is_read(role);
    role_texts_split();
    assert(role_condition(role).text() == "("@ + (own.text() + " OR "@ + filed.text()) + ")"@) by {
        reveal_with_fuel(Cond::text, 3);
    }
    texts_join();
}

spec fn draft_condition(role: Term) -> Cond {
    let wanted = drafted_wanted(role);
    group(false, either(found(false, own_folders(), wanted), found(true, filed_folders(), wanted)))
}

spec fn drafted_wanted(role: Term) -> Cond {
    both(
        of_thread(),
        both(
            equal(column("m"@, "is_draft"@), Term::Number(1)),
            equal(column("f"@, "role"@), role),
        ),
    )
}

#[verifier::rlimit(40)]
proof fn draft_is_read(role: Term)
    ensures
        drafted_wanted(role).text() == "m.thread_id = t.id AND m.is_draft = 1 AND f.role = "@ + role.text(),
{
    reveal_with_fuel(Cond::text, 3);
    reveal_with_fuel(Term::text, 2);
    thread_is_read();
    numbers_are_read();
    assert("m.thread_id = t.id AND m.is_draft = 1 AND f.role = "@
        =~= "m.thread_id = t.id"@ + " AND "@ + "m"@ + "."@ + "is_draft"@ + " = "@ + "1"@
            + " AND "@ + "f"@ + "."@ + "role"@ + " = "@) by {
        reveal_strlit("m.thread_id = t.id AND m.is_draft = 1 AND f.role = ");
        reveal_strlit("m.thread_id = t.id");
        reveal_strlit(" AND ");
        reveal_strlit("m");
        reveal_strlit(".");
        reveal_strlit("is_draft");
        reveal_strlit(" = ");
        reveal_strlit("1");
        reveal_strlit("f");
        reveal_strlit("role");
    }
    texts_join();
}

proof fn draft_texts_split()
    ensures
        "(EXISTS (SELECT 1 FROM messages m JOIN folders f ON f.id = m.folder_id WHERE m.thread_id = t.id AND m.is_draft = 1 AND f.role = "@
            == "("@ + "EXISTS (SELECT 1 FROM "@
                + "messages m JOIN folders f ON f.id = m.folder_id"@ + " WHERE "@
                + "m.thread_id = t.id AND m.is_draft = 1 AND f.role = "@,
        ") OR EXISTS ( SELECT 1 FROM messages m JOIN accounts ma ON ma.id = m.account_id AND ma.provider = 'gmail' JOIN message_folders mf ON mf.message_id = m.id JOIN folders f ON f.id = mf.folder_id WHERE m.thread_id = t.id AND m.is_draft = 1 AND f.role = "@
            == ")"@ + " OR "@ + "EXISTS ( SELECT 1 FROM "@
                + "messages m JOIN accounts ma ON ma.id = m.account_id AND ma.provider = 'gmail' JOIN message_folders mf ON mf.message_id = m.id JOIN folders f ON f.id = mf.folder_id"@
                + " WHERE "@ + "m.thread_id = t.id AND m.is_draft = 1 AND f.role = "@,
        " ))"@ == " )"@ + ")"@,
{
    assert("(EXISTS (SELECT 1 FROM messages m JOIN folders f ON f.id = m.folder_id WHERE m.thread_id = t.id AND m.is_draft = 1 AND f.role = "@
        =~= "("@ + "EXISTS (SELECT 1 FROM "@ + "messages m JOIN folders f ON f.id = m.folder_id"@
            + " WHERE "@ + "m.thread_id = t.id AND m.is_draft = 1 AND f.role = "@) by {
        reveal_strlit("(EXISTS (SELECT 1 FROM messages m JOIN folders f ON f.id = m.folder_id WHERE m.thread_id = t.id AND m.is_draft = 1 AND f.role = ");
        reveal_strlit("(");
        reveal_strlit("EXISTS (SELECT 1 FROM ");
        reveal_strlit("messages m JOIN folders f ON f.id = m.folder_id");
        reveal_strlit(" WHERE ");
        reveal_strlit("m.thread_id = t.id AND m.is_draft = 1 AND f.role = ");
    }
    assert(") OR EXISTS ( SELECT 1 FROM messages m JOIN accounts ma ON ma.id = m.account_id AND ma.provider = 'gmail' JOIN message_folders mf ON mf.message_id = m.id JOIN folders f ON f.id = mf.folder_id WHERE m.thread_id = t.id AND m.is_draft = 1 AND f.role = "@
        =~= ")"@ + " OR "@ + "EXISTS ( SELECT 1 FROM "@
            + "messages m JOIN accounts ma ON ma.id = m.account_id AND ma.provider = 'gmail' JOIN message_folders mf ON mf.message_id = m.id JOIN folders f ON f.id = mf.folder_id"@
            + " WHERE "@ + "m.thread_id = t.id AND m.is_draft = 1 AND f.role = "@) by {
        reveal_strlit(") OR EXISTS ( SELECT 1 FROM messages m JOIN accounts ma ON ma.id = m.account_id AND ma.provider = 'gmail' JOIN message_folders mf ON mf.message_id = m.id JOIN folders f ON f.id = mf.folder_id WHERE m.thread_id = t.id AND m.is_draft = 1 AND f.role = ");
        reveal_strlit(")");
        reveal_strlit(" OR ");
        reveal_strlit("EXISTS ( SELECT 1 FROM ");
        reveal_strlit("messages m JOIN accounts ma ON ma.id = m.account_id AND ma.provider = 'gmail' JOIN message_folders mf ON mf.message_id = m.id JOIN folders f ON f.id = mf.folder_id");
        reveal_strlit(" WHERE ");
        reveal_strlit("m.thread_id = t.id AND m.is_draft = 1 AND f.role = ");
    }
    assert(" ))"@ =~= " )"@ + ")"@) by {
        reveal_strlit(" ))");
        reveal_strlit(" )");
        reveal_strlit(")");
    }
}

#[verifier::rlimit(40)]
proof fn drafts_are_read(role: Term)
    ensures
        draft_condition(role).text() == drafted_in(role.text()),
{
    let own = found(false, own_folders(), drafted_wanted(role));
    let filed = found(true, filed_folders(), drafted_wanted(role));
    let wanted = "m.thread_id = t.id AND m.is_draft = 1 AND f.role = "@ + role.text();
    draft_is_read(role);
    draft_texts_split();
    own_folders_are_read();
    filed_folders_are_read();
    assert((own->Exists_1).text() == "messages m JOIN folders f ON f.id = m.folder_id"@);
    assert((own->Exists_2).text() == wanted);
    assert(own.text() == "EXISTS (SELECT 1 FROM "@ + "messages m JOIN folders f ON f.id = m.folder_id"@ + " WHERE "@ + wanted + ")"@);
    assert((filed->Exists_1).text() == "messages m JOIN accounts ma ON ma.id = m.account_id AND ma.provider = 'gmail' JOIN message_folders mf ON mf.message_id = m.id JOIN folders f ON f.id = mf.folder_id"@);
    assert((filed->Exists_2).text() == wanted);
    assert(filed.text() == "EXISTS ( SELECT 1 FROM "@ + "messages m JOIN accounts ma ON ma.id = m.account_id AND ma.provider = 'gmail' JOIN message_folders mf ON mf.message_id = m.id JOIN folders f ON f.id = mf.folder_id"@ + " WHERE "@ + wanted + " )"@);
    let whole = draft_condition(role);
    let alternatives = *(whole->Group_1);
    assert((alternatives->Either_0).text() == own.text());
    assert((alternatives->Either_1).text() == filed.text());
    assert(alternatives.text() == own.text() + " OR "@ + filed.text());
    assert(whole.text() == "("@ + alternatives.text() + ")"@);
    texts_join();
}

spec fn folder_condition(folder: Term) -> Cond {
    let gmail = found(
        false,
        Source::Table("accounts"@, "ma"@),
        both(
            equal(column("ma"@, "id"@), column("m"@, "account_id"@)),
            equal(column("ma"@, "provider"@), Term::Quoted("gmail"@)),
        ),
    );
    let filed = found(
        false,
        Source::Table("message_folders"@, "mf"@),
        both(
            equal(column("mf"@, "message_id"@), column("m"@, "id"@)),
            equal(column("mf"@, "folder_id"@), folder),
        ),
    );
    found(
        false,
        Source::Table("messages"@, "m"@),
        both(
            of_thread(),
            group(
                true,
                either(
                    equal(column("m"@, "folder_id"@), folder),
                    group(true, both(gmail, filed)),
                ),
            ),
        ),
    )
}

#[verifier::rlimit(40)]
proof fn gmail_is_read()
    ensures
        found(
            false,
            Source::Table("accounts"@, "ma"@),
            both(
                equal(column("ma"@, "id"@), column("m"@, "account_id"@)),
                equal(column("ma"@, "provider"@), Term::Quoted("gmail"@)),
            ),
        ).text() == "EXISTS (SELECT 1 FROM accounts ma WHERE ma.id = m.account_id AND ma.provider = 'gmail')"@,
{
    reveal_with_fuel(Cond::text, 4);
    reveal_with_fuel(Source::text, 2);
    reveal_with_fuel(Term::text, 2);
    assert("EXISTS (SELECT 1 FROM accounts ma WHERE ma.id = m.account_id AND ma.provider = 'gmail')"@
        =~= "EXISTS (SELECT 1 FROM "@ + "accounts"@ + " "@ + "ma"@ + " WHERE "@ + "ma"@ + "."@
            + "id"@ + " = "@ + "m"@ + "."@ + "account_id"@ + " AND "@ + "ma"@ + "."@ + "provider"@
            + " = "@ + "'"@ + "gmail"@ + "'"@ + ")"@) by {
        reveal_strlit("EXISTS (SELECT 1 FROM accounts ma WHERE ma.id = m.account_id AND ma.provider = 'gmail')");
        reveal_strlit("EXISTS (SELECT 1 FROM ");
        reveal_strlit("accounts");
        reveal_strlit(" ");
        reveal_strlit("ma");
        reveal_strlit(" WHERE ");
        reveal_strlit(".");
        reveal_strlit("id");
        reveal_strlit(" = ");
        reveal_strlit("m");
        reveal_strlit("account_id");
        reveal_strlit(" AND ");
        reveal_strlit("provider");
        reveal_strlit("'");
        reveal_strlit("gmail");
        reveal_strlit(")");
    }
    texts_join();
}

#[verifier::rlimit(40)]
proof fn filing_is_read(folder: Term)
    ensures
        found(
            false,
            Source::Table("message_folders"@, "mf"@),
            both(
                equal(column("mf"@, "message_id"@), column("m"@, "id"@)),
                equal(column("mf"@, "folder_id"@), folder),
            ),
        ).text() == "EXISTS (SELECT 1 FROM message_folders mf WHERE mf.message_id = m.id AND mf.folder_id = "@ + folder.text() + ")"@,
{
    reveal_with_fuel(Cond::text, 4);
    reveal_with_fuel(Source::text, 2);
    reveal_with_fuel(Term::text, 2);
    assert("EXISTS (SELECT 1 FROM message_folders mf WHERE mf.message_id = m.id AND mf.folder_id = "@
        =~= "EXISTS (SELECT 1 FROM "@ + "message_folders"@ + " "@ + "mf"@ + " WHERE "@ + "mf"@
            + "."@ + "message_id"@ + " = "@ + "m"@ + "."@ + "id"@ + " AND "@ + "mf"@ + "."@
            + "folder_id"@ + " = "@) by {
        reveal_strlit("EXISTS (SELECT 1 FROM message_folders mf WHERE mf.message_id = m.id AND mf.folder_id = ");
        reveal_strlit("EXISTS (SELECT 1 FROM ");
        reveal_strlit("message_folders");
        reveal_strlit(" ");
        reveal_strlit("mf");
        reveal_strlit(" WHERE ");
        reveal_strlit(".");
        reveal_strlit("message_id");
        reveal_strlit(" = ");
        reveal_strlit("m");
        reveal_strlit("id");
        reveal_strlit(" AND ");
        reveal_strlit("folder_id");
    }
    texts_join();
}

proof fn folder_texts_split()
    ensures
        "EXISTS (SELECT 1 FROM messages m WHERE m.thread_id = t.id AND ( m.folder_id = "@
            == "EXISTS (SELECT 1 FROM "@ + "messages"@ + " "@ + "m"@ + " WHERE "@
                + "m.thread_id = t.id"@ + " AND "@ + "( "@ + "m"@ + "."@ + "folder_id"@ + " = "@,
        " OR ( EXISTS (SELECT 1 FROM accounts ma WHERE ma.id = m.account_id AND ma.provider = 'gmail') AND EXISTS (SELECT 1 FROM message_folders mf WHERE mf.message_id = m.id AND mf.folder_id = "@
            == " OR "@ + "( "@
                + "EXISTS (SELECT 1 FROM accounts ma WHERE ma.id = m.account_id AND ma.provider = 'gmail')"@
                + " AND "@
                + "EXISTS (SELECT 1 FROM message_folders mf WHERE mf.message_id = m.id AND mf.folder_id = "@,
        ") ) ))"@ == ")"@ + " )"@ + " )"@ + ")"@,
{
    assert("EXISTS (SELECT 1 FROM messages m WHERE m.thread_id = t.id AND ( m.folder_id = "@
        =~= "EXISTS (SELECT 1 FROM "@ + "messages"@ + " "@ + "m"@ + " WHERE "@
            + "m.thread_id = t.id"@ + " AND "@ + "( "@ + "m"@ + "."@ + "folder_id"@ + " = "@) by {
        reveal_strlit("EXISTS (SELECT 1 FROM messages m WHERE m.thread_id = t.id AND ( m.folder_id = ");
        reveal_strlit("EXISTS (SELECT 1 FROM ");
        reveal_strlit("messages");
        reveal_strlit(" ");
        reveal_strlit("m");
        reveal_strlit(" WHERE ");
        reveal_strlit("m.thread_id = t.id");
        reveal_strlit(" AND ");
        reveal_strlit("( ");
        reveal_strlit(".");
        reveal_strlit("folder_id");
        reveal_strlit(" = ");
    }
    assert(" OR ( EXISTS (SELECT 1 FROM accounts ma WHERE ma.id = m.account_id AND ma.provider = 'gmail') AND EXISTS (SELECT 1 FROM message_folders mf WHERE mf.message_id = m.id AND mf.folder_id = "@
        =~= " OR "@ + "( "@
            + "EXISTS (SELECT 1 FROM accounts ma WHERE ma.id = m.account_id AND ma.provider = 'gmail')"@
            + " AND "@
            + "EXISTS (SELECT 1 FROM message_folders mf WHERE mf.message_id = m.id AND mf.folder_id = "@) by {
        reveal_strlit(" OR ( EXISTS (SELECT 1 FROM accounts ma WHERE ma.id = m.account_id AND ma.provider = 'gmail') AND EXISTS (SELECT 1 FROM message_folders mf WHERE mf.message_id = m.id AND mf.folder_id = ");
        reveal_strlit(" OR ");
        reveal_strlit("( ");
        reveal_strlit("EXISTS (SELECT 1 FROM accounts ma WHERE ma.id = m.account_id AND ma.provider = 'gmail')");
        reveal_strlit(" AND ");
        reveal_strlit("EXISTS (SELECT 1 FROM message_folders mf WHERE mf.message_id = m.id AND mf.folder_id = ");
    }
    assert(") ) ))"@ =~= ")"@ + " )"@ + " )"@ + ")"@) by {
        reveal_strlit(") ) ))");
        reveal_strlit(")");
        reveal_strlit(" )");
    }
}

#[verifier::rlimit(40)]
proof fn folder_is_read(folder: Term)
    ensures
        folder_condition(folder).text() == in_folder(folder.text()),
{
    gmail_is_read();
    filing_is_read(folder);
    folder_texts_split();
    thread_is_read();
    let whole = folder_condition(folder);
    let wanted = *(whole->Exists_2);
    let place = *(wanted->Both_1);
    let alternatives = *(place->Group_1);
    let own = *(alternatives->Either_0);
    let filed = *(alternatives->Either_1);
    let pair = *(filed->Group_1);
    assert(own.text() == "m"@ + "."@ + "folder_id"@ + " = "@ + folder.text()) by {
        reveal_with_fuel(Term::text, 2);
    }
    assert(pair.text() == pair->Both_0.text() + " AND "@ + pair->Both_1.text());
    assert(filed.text() == "( "@ + pair.text() + " )"@);
    assert(alternatives.text() == own.text() + " OR "@ + filed.text());
    assert(place.text() == "( "@ + alternatives.text() + " )"@);
    assert(wanted.text() == of_thread().text() + " AND "@ + place.text());
    assert(whole.text() == "EXISTS (SELECT 1 FROM "@ + ("messages"@ + " "@ + "m"@) + " WHERE "@
        + wanted.text() + ")"@) by {
        assert(whole->Exists_1.text() == "messages"@ + " "@ + "m"@);
    }
    texts_join();
}

spec fn label_condition(label: Term) -> Cond {
    found(
        false,
        join(
            Source::Table("message_labels"@, "ml"@),
            "messages"@,
            "m"@,
            equal(column("m"@, "id"@), column("ml"@, "message_id"@)),
        ),
        both(of_thread(), equal(column("ml"@, "label_id"@), label)),
    )
}

#[verifier::rlimit(40)]
proof fn label_is_read(label: Term)
    ensures
        label_condition(label).text() == labelled(label.text()),
{
    thread_is_read();
    reveal_with_fuel(Cond::text, 4);
    reveal_with_fuel(Source::text, 4);
    reveal_with_fuel(Term::text, 2);
    assert("EXISTS (SELECT 1 FROM message_labels ml JOIN messages m ON m.id = ml.message_id WHERE m.thread_id = t.id AND ml.label_id = "@
        =~= "EXISTS (SELECT 1 FROM "@ + "message_labels"@ + " "@ + "ml"@ + " JOIN "@ + "messages"@
            + " "@ + "m"@ + " ON "@ + "m"@ + "."@ + "id"@ + " = "@ + "ml"@ + "."@ + "message_id"@
            + " WHERE "@ + "m.thread_id = t.id"@ + " AND "@ + "ml"@ + "."@ + "label_id"@ + " = "@) by {
        reveal_strlit("EXISTS (SELECT 1 FROM message_labels ml JOIN messages m ON m.id = ml.message_id WHERE m.thread_id = t.id AND ml.label_id = ");
        reveal_strlit("EXISTS (SELECT 1 FROM ");
        reveal_strlit("message_labels");
        reveal_strlit(" ");
        reveal_strlit("ml");
        reveal_strlit(" JOIN ");
        reveal_strlit("messages");
        reveal_strlit("m");
        reveal_strlit(" ON ");
        reveal_strlit(".");
        reveal_strlit("id");
        reveal_strlit(" = ");
        reveal_strlit("message_id");
        reveal_strlit(" WHERE ");
        reveal_strlit("m.thread_id = t.id");
        reveal_strlit(" AND ");
        reveal_strlit("label_id");
    }
    texts_join();
}

spec fn cursor_condition(moment: Term, id: Term) -> Cond {
    group(
        false,
        either(
            Cond::Below(column("t"@, "last_message_at"@), moment),
            group(
                false,
                both(
                    equal(column("t"@, "last_message_at"@), moment),
                    Cond::Below(column("t"@, "id"@), id),
                ),
            ),
        ),
    )
}

proof fn cursor_texts_split()
    ensures
        "(t.last_message_at < "@ == "("@ + "t"@ + "."@ + "last_message_at"@ + " < "@,
        " OR (t.last_message_at = "@ == " OR "@ + "("@ + "t"@ + "."@ + "last_message_at"@ + " = "@,
        " AND t.id < "@ == " AND "@ + "t"@ + "."@ + "id"@ + " < "@,
        "))"@ == ")"@ + ")"@,
{
    assert("(t.last_message_at < "@ =~= "("@ + "t"@ + "."@ + "last_message_at"@ + " < "@) by {
        reveal_strlit("(t.last_message_at < ");
        reveal_strlit("(");
        reveal_strlit("t");
        reveal_strlit(".");
        reveal_strlit("last_message_at");
        reveal_strlit(" < ");
    }
    assert(" OR (t.last_message_at = "@
        =~= " OR "@ + "("@ + "t"@ + "."@ + "last_message_at"@ + " = "@) by {
        reveal_strlit(" OR (t.last_message_at = ");
        reveal_strlit(" OR ");
        reveal_strlit("(");
        reveal_strlit("t");
        reveal_strlit(".");
        reveal_strlit("last_message_at");
        reveal_strlit(" = ");
    }
    assert(" AND t.id < "@ =~= " AND "@ + "t"@ + "."@ + "id"@ + " < "@) by {
        reveal_strlit(" AND t.id < ");
        reveal_strlit(" AND ");
        reveal_strlit("t");
        reveal_strlit(".");
        reveal_strlit("id");
        reveal_strlit(" < ");
    }
    assert("))"@ =~= ")"@ + ")"@) by {
        reveal_strlit("))");
        reveal_strlit(")");
    }
}

#[verifier::rlimit(40)]
proof fn cursor_is_read(moment: Term, id: Term)
    ensures
        cursor_condition(moment, id).text() == behind_cursor(moment.text(), id.text()),
{
    cursor_texts_split();
    let whole = cursor_condition(moment, id);
    let alternatives = *(whole->Group_1);
    let older = *(alternatives->Either_0);
    let equal_aged = *(alternatives->Either_1);
    let pair = *(equal_aged->Group_1);
    assert(older.text() == "t"@ + "."@ + "last_message_at"@ + " < "@ + moment.text());
    assert(pair->Both_0.text() == "t"@ + "."@ + "last_message_at"@ + " = "@ + moment.text());
    assert(pair->Both_1.text() == "t"@ + "."@ + "id"@ + " < "@ + id.text());
    assert(pair.text() == pair->Both_0.text() + " AND "@ + pair->Both_1.text());
    assert(equal_aged.text() == "("@ + pair.text() + ")"@);
    assert(alternatives.text() == older.text() + " OR "@ + equal_aged.text());
    assert(whole.text() == "("@ + alternatives.text() + ")"@);
    texts_join();
}

/// Those of the clauses that are short.
#[verifier::rlimit(40)]
proof fn short_clauses_are_read(p: Term)
    ensures
        equal(column("t"@, "account_id"@), p).text() == "t.account_id = "@ + p.text(),
        equal(column("t"@, "routed_tab"@), p).text() == "t.routed_tab = "@ + p.text(),
        Cond::Missing(column("s"@, "thread_id"@)).text() == "s.thread_id IS NULL"@,
        Cond::Given(column("s"@, "thread_id"@)).text() == "s.thread_id IS NOT NULL"@,
        Cond::Above(column("t"@, "starred_count"@), Term::Number(0)).text()
            == "t.starred_count > 0"@,
        Cond::Above(column("t"@, "unread_count"@), Term::Number(0)).text()
            == "t.unread_count > 0"@,
{
    numbers_are_read();
    reveal_with_fuel(Cond::text, 2);
    reveal_with_fuel(Term::text, 2);
    assert("t.account_id = "@ =~= "t"@ + "."@ + "account_id"@ + " = "@) by {
        reveal_strlit("t.account_id = ");
        reveal_strlit("t");
        reveal_strlit(".");
        reveal_strlit("account_id");
        reveal_strlit(" = ");
    }
    assert("t.routed_tab = "@ =~= "t"@ + "."@ + "routed_tab"@ + " = "@) by {
        reveal_strlit("t.routed_tab = ");
        reveal_strlit("t");
        reveal_strlit(".");
        reveal_strlit("routed_tab");
        reveal_strlit(" = ");
    }
    assert("s.thread_id IS NULL"@ =~= "s"@ + "."@ + "thread_id"@ + " IS NULL"@) by {
        reveal_strlit("s.thread_id IS NULL");
        reveal_strlit("s");
        reveal_strlit(".");
        reveal_strlit("thread_id");
        reveal_strlit(" IS NULL");
    }
    assert("s.thread_id IS NOT NULL"@ =~= "s"@ + "."@ + "thread_id"@ + " IS NOT NULL"@) by {
        reveal_strlit("s.thread_id IS NOT NULL");
        reveal_strlit("s");
        reveal_strlit(".");
        reveal_strlit("thread_id");
        reveal_strlit(" IS NOT NULL");
    }
    assert("t.starred_count > 0"@ =~= "t"@ + "."@ + "starred_count"@ + " > "@ + "0"@) by {
        reveal_strlit("t.starred_count > 0");
        reveal_strlit("t");
        reveal_strlit(".");
        reveal_strlit("starred_count");
        reveal_strlit(" > ");
        reveal_strlit("0");
    }
    assert("t.unread_count > 0"@ =~= "t"@ + "."@ + "unread_count"@ + " > "@ + "0"@) by {
        reveal_strlit("t.unread_count > 0");
        reveal_strlit("t");
        reveal_strlit(".");
        reveal_strlit("unread_count");
        reveal_strlit(" > ");
        reveal_strlit("0");
    }
    texts_join();
}

spec fn incoming() -> Cond {
    both(
        of_thread(),
        both(
            equal(column("m"@, "is_draft"@), Term::Number(0)),
            equal(column("m"@, "is_outgoing"@), Term::Number(0)),
        ),
    )
}

spec fn newest_condition(kind: Term) -> Cond {
    Cond::Newest("is_automated"@, "messages"@, "m"@, Box::new(incoming()), kind)
}

#[verifier::rlimit(40)]
proof fn newest_is_read(kind: Term)
    ensures
        newest_condition(kind).text() == "(SELECT m.is_automated FROM messages m WHERE m.thread_id = t.id AND m.is_draft = 0 AND m.is_outgoing = 0 ORDER BY m.date DESC, m.id DESC LIMIT 1) = "@ + kind.text(),
{
    assert(incoming().text() == "m.thread_id = t.id AND m.is_draft = 0 AND m.is_outgoing = 0"@) by {
        thread_is_read();
        numbers_are_read();
        reveal_with_fuel(Cond::text, 4);
        reveal_with_fuel(Term::text, 2);
        assert("m.thread_id = t.id AND m.is_draft = 0 AND m.is_outgoing = 0"@
            =~= "m.thread_id = t.id"@ + " AND "@ + "m"@ + "."@ + "is_draft"@ + " = "@ + "0"@
                + " AND "@ + "m"@ + "."@ + "is_outgoing"@ + " = "@ + "0"@) by {
            reveal_strlit("m.thread_id = t.id AND m.is_draft = 0 AND m.is_outgoing = 0");
            reveal_strlit("m.thread_id = t.id");
            reveal_strlit(" AND ");
            reveal_strlit("m");
            reveal_strlit(".");
            reveal_strlit("is_draft");
            reveal_strlit(" = ");
            reveal_strlit("0");
            reveal_strlit("is_outgoing");
        }
        texts_join();
    }
    assert("(SELECT m.is_automated FROM messages m WHERE m.thread_id = t.id AND m.is_draft = 0 AND m.is_outgoing = 0 ORDER BY m.date DESC, m.id DESC LIMIT 1) = "@
        =~= "(SELECT "@ + "m"@ + "."@ + "is_automated"@ + " FROM "@ + "messages"@ + " "@ + "m"@
            + " WHERE "@ + "m.thread_id = t.id AND m.is_draft = 0 AND m.is_outgoing = 0"@
            + " ORDER BY "@ + "m"@ + ".date DESC, "@ + "m"@ + ".id DESC LIMIT 1) = "@) by {
        reveal_strlit("(SELECT m.is_automated FROM messages m WHERE m.thread_id = t.id AND m.is_draft = 0 AND m.is_outgoing = 0 ORDER BY m.date DESC, m.id DESC LIMIT 1) = ");
        reveal_strlit("(SELECT ");
        reveal_strlit("m");
        reveal_strlit(".");
        reveal_strlit("is_automated");
        reveal_strlit(" FROM ");
        reveal_strlit("messages");
        reveal_strlit(" ");
        reveal_strlit(" WHERE ");
        reveal_strlit("m.thread_id = t.id AND m.is_draft = 0 AND m.is_outgoing = 0");
        reveal_strlit(" ORDER BY ");
        reveal_strlit(".date DESC, ");
        reveal_strlit(".id DESC LIMIT 1) = ");
    }
    reveal_with_fuel(Cond::text, 1);
    texts_join();
}

/// A thread that a rule sends to the tab, or that is not routed and whose newest incoming message is
/// of the kind.
spec fn tab_condition(wide: bool, tab: Seq<char>, kind: nat) -> Cond {
    let newest = newest_condition(Term::Number(kind));
    group(
        false,
        either(
            equal(column("t"@, "routed_tab"@), Term::Quoted(tab)),
            group(
                false,
                both(
                    group(
                        false,
                        either(
                            Cond::Missing(column("t"@, "routed_tab"@)),
                            equal(column("t"@, "routed_tab"@), Term::Quoted("pending"@)),
                        ),
                    ),
                    if wide {
                        group(false, newest)
                    } else {
                        newest
                    },
                ),
            ),
        ),
    )
}

#[verifier::rlimit(40)]
proof fn unrouted_is_read()
    ensures
        group(
            false,
            either(
                Cond::Missing(column("t"@, "routed_tab"@)),
                equal(column("t"@, "routed_tab"@), Term::Quoted("pending"@)),
            ),
        ).text() == "(t.routed_tab IS NULL OR t.routed_tab = 'pending')"@,
{
    reveal_with_fuel(Cond::text, 4);
    reveal_with_fuel(Term::text, 2);
    assert("(t.routed_tab IS NULL OR t.routed_tab = 'pending')"@
        =~= "("@ + "t"@ + "."@ + "routed_tab"@ + " IS NULL"@ + " OR "@ + "t"@ + "."@
            + "routed_tab"@ + " = "@ + "'"@ + "pending"@ + "'"@ + ")"@) by {
        reveal_strlit("(t.routed_tab IS NULL OR t.routed_tab = 'pending')");
        reveal_strlit("(");
        reveal_strlit("t");
        reveal_strlit(".");
        reveal_strlit("routed_tab");
        reveal_strlit(" IS NULL");
        reveal_strlit(" OR ");
        reveal_strlit(" = ");
        reveal_strlit("'");
        reveal_strlit("pending");
        reveal_strlit(")");
    }
    texts_join();
}

proof fn tab_is_read(wide: bool, tab: Seq<char>, kind: nat)
    ensures
        ({
            let newest = newest_condition(Term::Number(kind)).text();
            tab_condition(wide, tab, kind).text() == "("@ + ("t"@ + "."@ + "routed_tab"@ + " = "@ + (
            "'"@ + tab + "'"@) + " OR "@ + ("("@ + ("(t.routed_tab IS NULL OR t.routed_tab = 'pending')"@ + " AND "@ + (if wide {
                "("@ + newest + ")"@
            } else {
                newest
            })) + ")"@)) + ")"@
        }),
{
    unrouted_is_read();
    let whole = tab_condition(wide, tab, kind);
    let alternatives = *(whole->Group_1);
    let sent = *(alternatives->Either_0);
    let fallen = *(alternatives->Either_1);
    let pair = *(fallen->Group_1);
    assert(sent.text() == "t"@ + "."@ + "routed_tab"@ + " = "@ + ("'"@ + tab + "'"@)) by {
        reveal_with_fuel(Term::text, 2);
    }
    assert(pair.text() == pair->Both_0.text() + " AND "@ + pair->Both_1.text());
    assert(fallen.text() == "("@ + pair.text() + ")"@);
    assert(alternatives.text() == sent.text() + " OR "@ + fallen.text());
    assert(whole.text() == "("@ + alternatives.text() + ")"@);
}

proof fn important_texts_split()
    ensures
        "(t.routed_tab = 'important' OR ((t.routed_tab IS NULL OR t.routed_tab = 'pending') AND ((SELECT m.is_automated FROM messages m WHERE m.thread_id = t.id AND m.is_draft = 0 AND m.is_outgoing = 0 ORDER BY m.date DESC, m.id DESC LIMIT 1) = 0)))"@
            == "(t.routed_tab = 'important' OR ("@
                + "(t.routed_tab IS NULL OR t.routed_tab = 'pending')"@ + " AND "@ + "("@
                + "(SELECT m.is_automated FROM messages m WHERE m.thread_id = t.id AND m.is_draft = 0 AND m.is_outgoing = 0 ORDER BY m.date DESC, m.id DESC LIMIT 1) = "@
                + "0"@ + ")"@ + "))"@,
        "(t.routed_tab = 'important' OR ((t.routed_tab IS NULL OR t.routed_tab = 'pending') AND (SELECT m.is_automated FROM messages m WHERE m.thread_id = t.id AND m.is_draft = 0 AND m.is_outgoing = 0 ORDER BY m.date DESC, m.id DESC LIMIT 1) = 0))"@
            == "(t.routed_tab = 'important' OR ("@
                + "(t.routed_tab IS NULL OR t.routed_tab = 'pending')"@ + " AND "@
                + "(SELECT m.is_automated FROM messages m WHERE m.thread_id = t.id AND m.is_draft = 0 AND m.is_outgoing = 0 ORDER BY m.date DESC, m.id DESC LIMIT 1) = "@
                + "0"@ + "))"@,
{
    assert("(t.routed_tab = 'important' OR ((t.routed_tab IS NULL OR t.routed_tab = 'pending') AND ((SELECT m.is_automated FROM messages m WHERE m.thread_id = t.id AND m.is_draft = 0 AND m.is_outgoing = 0 ORDER BY m.date DESC, m.id DESC LIMIT 1) = 0)))"@
        =~= "(t.routed_tab = 'important' OR ("@
            + "(t.routed_tab IS NULL OR t.routed_tab = 'pending')"@ + " AND "@ + "("@
            + "(SELECT m.is_automated FROM messages m WHERE m.thread_id = t.id AND m.is_draft = 0 AND m.is_outgoing = 0 ORDER BY m.date DESC, m.id DESC LIMIT 1) = "@
            + "0"@ + ")"@ + "))"@) by {
        reveal_strlit("(t.routed_tab = 'important' OR ((t.routed_tab IS NULL OR t.routed_tab = 'pending') AND ((SELECT m.is_automated FROM messages m WHERE m.thread_id = t.id AND m.is_draft = 0 AND m.is_outgoing = 0 ORDER BY m.date DESC, m.id DESC LIMIT 1) = 0)))");
        reveal_strlit("(t.routed_tab = 'important' OR (");
        reveal_strlit("(t.routed_tab IS NULL OR t.routed_tab = 'pending')");
        reveal_strlit(" AND ");
        reveal_strlit("(");
        reveal_strlit("(SELECT m.is_automated FROM messages m WHERE m.thread_id = t.id AND m.is_draft = 0 AND m.is_outgoing = 0 ORDER BY m.date DESC, m.id DESC LIMIT 1) = ");
        reveal_strlit("0");
        reveal_strlit(")");
        reveal_strlit("))");
    }
    assert("(t.routed_tab = 'important' OR ((t.routed_tab IS NULL OR t.routed_tab = 'pending') AND (SELECT m.is_automated FROM messages m WHERE m.thread_id = t.id AND m.is_draft = 0 AND m.is_outgoing = 0 ORDER BY m.date DESC, m.id DESC LIMIT 1) = 0))"@
        =~= "(t.routed_tab = 'important' OR ("@
            + "(t.routed_tab IS NULL OR t.routed_tab = 'pending')"@ + " AND "@
            + "(SELECT m.is_automated FROM messages m WHERE m.thread_id = t.id AND m.is_draft = 0 AND m.is_outgoing = 0 ORDER BY m.date DESC, m.id DESC LIMIT 1) = "@
            + "0"@ + "))"@) by {
        reveal_strlit("(t.routed_tab = 'important' OR ((t.routed_tab IS NULL OR t.routed_tab = 'pending') AND (SELECT m.is_automated FROM messages m WHERE m.thread_id = t.id AND m.is_draft = 0 AND m.is_outgoing = 0 ORDER BY m.date DESC, m.id DESC LIMIT 1) = 0))");
        reveal_strlit("(t.routed_tab = 'important' OR (");
        reveal_strlit("(t.routed_tab IS NULL OR t.routed_tab = 'pending')");
        reveal_strlit(" AND ");
        reveal_strlit("(SELECT m.is_automated FROM messages m WHERE m.thread_id = t.id AND m.is_draft = 0 AND m.is_outgoing = 0 ORDER BY m.date DESC, m.id DESC LIMIT 1) = ");
        reveal_strlit("0");
        reveal_strlit("))");
    }
}

proof fn other_texts_split()
    ensures
        "(t.routed_tab = 'other' OR ((t.routed_tab IS NULL OR t.routed_tab = 'pending') AND ((SELECT m.is_automated FROM messages m WHERE m.thread_id = t.id AND m.is_draft = 0 AND m.is_outgoing = 0 ORDER BY m.date DESC, m.id DESC LIMIT 1) = 1)))"@
            == "(t.routed_tab = 'other' OR ("@
                + "(t.routed_tab IS NULL OR t.routed_tab = 'pending')"@ + " AND "@ + "("@
                + "(SELECT m.is_automated FROM messages m WHERE m.thread_id = t.id AND m.is_draft = 0 AND m.is_outgoing = 0 ORDER BY m.date DESC, m.id DESC LIMIT 1) = "@
                + "1"@ + ")"@ + "))"@,
        "(t.routed_tab = 'other' OR ((t.routed_tab IS NULL OR t.routed_tab = 'pending') AND (SELECT m.is_automated FROM messages m WHERE m.thread_id = t.id AND m.is_draft = 0 AND m.is_outgoing = 0 ORDER BY m.date DESC, m.id DESC LIMIT 1) = 1))"@
            == "(t.routed_tab = 'other' OR ("@
                + "(t.routed_tab IS NULL OR t.routed_tab = 'pending')"@ + " AND "@
                + "(SELECT m.is_automated FROM messages m WHERE m.thread_id = t.id AND m.is_draft = 0 AND m.is_outgoing = 0 ORDER BY m.date DESC, m.id DESC LIMIT 1) = "@
                + "1"@ + "))"@,
{
    assert("(t.routed_tab = 'other' OR ((t.routed_tab IS NULL OR t.routed_tab = 'pending') AND ((SELECT m.is_automated FROM messages m WHERE m.thread_id = t.id AND m.is_draft = 0 AND m.is_outgoing = 0 ORDER BY m.date DESC, m.id DESC LIMIT 1) = 1)))"@
        =~= "(t.routed_tab = 'other' OR ("@
            + "(t.routed_tab IS NULL OR t.routed_tab = 'pending')"@ + " AND "@ + "("@
            + "(SELECT m.is_automated FROM messages m WHERE m.thread_id = t.id AND m.is_draft = 0 AND m.is_outgoing = 0 ORDER BY m.date DESC, m.id DESC LIMIT 1) = "@
            + "1"@ + ")"@ + "))"@) by {
        reveal_strlit("(t.routed_tab = 'other' OR ((t.routed_tab IS NULL OR t.routed_tab = 'pending') AND ((SELECT m.is_automated FROM messages m WHERE m.thread_id = t.id AND m.is_draft = 0 AND m.is_outgoing = 0 ORDER BY m.date DESC, m.id DESC LIMIT 1) = 1)))");
        reveal_strlit("(t.routed_tab = 'other' OR (");
        reveal_strlit("(t.routed_tab IS NULL OR t.routed_tab = 'pending')");
        reveal_strlit(" AND ");
        reveal_strlit("(");
        reveal_strlit("(SELECT m.is_automated FROM messages m WHERE m.thread_id = t.id AND m.is_draft = 0 AND m.is_outgoing = 0 ORDER BY m.date DESC, m.id DESC LIMIT 1) = ");
        reveal_strlit("1");
        reveal_strlit(")");
        reveal_strlit("))");
    }
    assert("(t.routed_tab = 'other' OR ((t.routed_tab IS NULL OR t.routed_tab = 'pending') AND (SELECT m.is_automated FROM messages m WHERE m.thread_id = t.id AND m.is_draft = 0 AND m.is_outgoing = 0 ORDER BY m.date DESC, m.id DESC LIMIT 1) = 1))"@
        =~= "(t.routed_tab = 'other' OR ("@
            + "(t.routed_tab IS NULL OR t.routed_tab = 'pending')"@ + " AND "@
            + "(SELECT m.is_automated FROM messages m WHERE m.thread_id = t.id AND m.is_draft = 0 AND m.is_outgoing = 0 ORDER BY m.date DESC, m.id DESC LIMIT 1) = "@
            + "1"@ + "))"@) by {
        reveal_strlit("(t.routed_tab = 'other' OR ((t.routed_tab IS NULL OR t.routed_tab = 'pending') AND (SELECT m.is_automated FROM messages m WHERE m.thread_id = t.id AND m.is_draft = 0 AND m.is_outgoing = 0 ORDER BY m.date DESC, m.id DESC LIMIT 1) = 1))");
        reveal_strlit("(t.routed_tab = 'other' OR (");
        reveal_strlit("(t.routed_tab IS NULL OR t.routed_tab = 'pending')");
        reveal_strlit(" AND ");
        reveal_strlit("(SELECT m.is_automated FROM messages m WHERE m.thread_id = t.id AND m.is_draft = 0 AND m.is_outgoing = 0 ORDER BY m.date DESC, m.id DESC LIMIT 1) = ");
        reveal_strlit("1");
        reveal_strlit("))");
    }
}

proof fn tab_texts_split()
    ensures
        "(t.routed_tab = 'important' OR ("@
            == "("@ + "t"@ + "."@ + "routed_tab"@ + " = "@ + "'"@ + "important"@ + "'"@ + " OR "@
                + "("@,
        "(t.routed_tab = 'other' OR ("@
            == "("@ + "t"@ + "."@ + "routed_tab"@ + " = "@ + "'"@ + "other"@ + "'"@ + " OR "@
                + "("@,
        "))"@ == ")"@ + ")"@,
{
    assert("(t.routed_tab = 'important' OR ("@
        =~= "("@ + "t"@ + "."@ + "routed_tab"@ + " = "@ + "'"@ + "important"@ + "'"@ + " OR "@
            + "("@) by {
        reveal_strlit("(t.routed_tab = 'important' OR (");
        reveal_strlit("(");
        reveal_strlit("t");
        reveal_strlit(".");
        reveal_strlit("routed_tab");
        reveal_strlit(" = ");
        reveal_strlit("'");
        reveal_strlit("important");
        reveal_strlit(" OR ");
    }
    assert("(t.routed_tab = 'other' OR ("@
        =~= "("@ + "t"@ + "."@ + "routed_tab"@ + " = "@ + "'"@ + "other"@ + "'"@ + " OR "@ + "("@) by {
        reveal_strlit("(t.routed_tab = 'other' OR (");
        reveal_strlit("(");
        reveal_strlit("t");
        reveal_strlit(".");
        reveal_strlit("routed_tab");
        reveal_strlit(" = ");
        reveal_strlit("'");
        reveal_strlit("other");
        reveal_strlit(" OR ");
    }
    assert("))"@ =~= ")"@ + ")"@) by {
        reveal_strlit("))");
        reveal_strlit(")");
    }
}

#[verifier::rlimit(40)]
proof fn important_tab_is_read()
    ensures
        tab_condition(true, "important"@, 0).text() == default_tab(false),
{
    let tab = "important"@;
    tab_is_read(true, tab, 0);
    newest_is_read(Term::Number(0));
    numbers_are_read();
    important_texts_split();
    tab_texts_split();
    texts_join();
}

#[verifier::rlimit(40)]
proof fn important_bucket_is_read()
    ensures
        tab_condition(false, "important"@, 0).text() == in_bucket(false),
{
    let tab = "important"@;
    tab_is_read(false, tab, 0);
    newest_is_read(Term::Number(0));
    numbers_are_read();
    important_texts_split();
    tab_texts_split();
    texts_join();
}

#[verifier::rlimit(40)]
proof fn other_tab_is_read()
    ensures
        tab_condition(true, "other"@, 1).text() == default_tab(true),
{
    let tab = "other"@;
    tab_is_read(true, tab, 1);
    newest_is_read(Term::Number(1));
    numbers_are_read();
    other_texts_split();
    tab_texts_split();
    texts_join();
}

#[verifier::rlimit(40)]
proof fn other_bucket_is_read()
    ensures
        tab_condition(false, "other"@, 1).text() == in_bucket(true),
{
    let tab = "other"@;
    tab_is_read(false, tab, 1);
    newest_is_read(Term::Number(1));
    numbers_are_read();
    other_texts_split();
    tab_texts_split();
    texts_join();
}

/// The names that conditions have for rows differ.
proof fn names_differ()
    ensures
        "m"@ != "t"@ && "f"@ != "t"@ && "ma"@ != "t"@ && "mf"@ != "t"@ && "ml"@ != "t"@,
        "f"@ != "m"@ && "ma"@ != "m"@ && "mf"@ != "m"@ && "ml"@ != "m"@,
        "ma"@ != "f"@ && "mf"@ != "f"@ && "mf"@ != "ma"@ && "ma"@ != "mf"@,
{
    reveal_strlit("t");
    reveal_strlit("m");
    reveal_strlit("f");
    reveal_strlit("ma");
    reveal_strlit("mf");
    reveal_strlit("ml");
    assert("t"@[0] == 't' && "m"@[0] == 'm' && "f"@[0] == 'f');
    assert("ma"@[1] == 'a' && "mf"@[1] == 'f' && "ml"@[1] == 'l');
    assert("m"@.len() == 1 && "f"@.len() == 1 && "t"@.len() == 1);
    assert("ma"@.len() == 2 && "mf"@.len() == 2 && "ml"@.len() == 2);
}

/// Whether a message belongs to a thread.
pub open spec fn is_of_thread(m: Row, t: Row) -> bool {
    same_cell(m.at("thread_id"@), t.at("id"@))
}

/// Whether a message is kept at Gmail, where it can stand in many folders.
pub open spec fn is_at_gmail(db: Database, m: Row) -> bool {
    exists|a: Row| #[trigger]
        db.has("accounts"@, a) && same_cell(a.at("id"@), m.at("account_id"@)) && a.at("provider"@)
            == Cell::Text("gmail"@)
}

/// Whether a message stands in a folder: in its own, or, at Gmail, in one that it is filed in.
pub open spec fn stands_in(db: Database, m: Row, folder_id: Cell) -> bool {
    same_cell(m.at("folder_id"@), folder_id) || (is_at_gmail(db, m) && exists|filed: Row| #[trigger]
        db.has("message_folders"@, filed) && same_cell(filed.at("message_id"@), m.at("id"@))
            && same_cell(filed.at("folder_id"@), folder_id))
}

/// Whether a thread has a message in a folder of a role.
pub open spec fn has_role(db: Database, t: Row, role: Seq<char>) -> bool {
    exists|m: Row, f: Row| #[trigger]
        db.has("messages"@, m) && #[trigger] db.has("folders"@, f) && is_of_thread(m, t) && f.at(
            "role"@,
        ) == Cell::Text(role) && stands_in(db, m, f.at("id"@))
}

/// Whether a thread has a draft in a folder of a role.
pub open spec fn has_draft(db: Database, t: Row, role: Seq<char>) -> bool {
    exists|m: Row, f: Row| #[trigger]
        db.has("messages"@, m) && #[trigger] db.has("folders"@, f) && is_of_thread(m, t) && m.at(
            "is_draft"@,
        ) == Cell::Int(1) && f.at("role"@) == Cell::Text(role) && stands_in(db, m, f.at("id"@))
}

/// Whether a thread has a message in a folder.
pub open spec fn is_in_folder(db: Database, t: Row, folder_id: int) -> bool {
    exists|m: Row| #[trigger]
        db.has("messages"@, m) && is_of_thread(m, t) && stands_in(db, m, Cell::Int(folder_id))
}

/// Whether a thread has a message that carries a label.
pub open spec fn has_label(db: Database, t: Row, label_id: int) -> bool {
    exists|m: Row, l: Row| #[trigger]
        db.has("messages"@, m) && #[trigger] db.has("message_labels"@, l) && is_of_thread(m, t)
            && same_cell(l.at("message_id"@), m.at("id"@)) && l.at("label_id"@) == Cell::Int(
            label_id,
        )
}

/// Whether a message of a thread came in: it was not sent, and is no draft.
pub open spec fn came_in(m: Row, t: Row) -> bool {
    is_of_thread(m, t) && m.at("is_draft"@) == Cell::Int(0) && m.at("is_outgoing"@) == Cell::Int(0)
}

/// Whether the newest message that came in was automated, or was not.
pub open spec fn newest_is(db: Database, t: Row, automated: bool) -> bool {
    exists|m: Row| #[trigger]
        db.has("messages"@, m) && came_in(m, t) && (forall|o: Row| #[trigger]
            db.has("messages"@, o) && came_in(o, t) ==> !is_later(o, m)) && m.at("is_automated"@)
            == Cell::Int(
            if automated {
                1
            } else {
                0
            },
        )
}

/// Whether a number is above zero.
pub open spec fn is_positive(c: Cell) -> bool {
    !(c is Null) && is_below(Cell::Int(0), c)
}

proof fn own_folders_mean(c: Cond, db: Database, s: Scope)
    ensures
        found(false, own_folders(), c).holds(db, s) <==> exists|m: Row, f: Row| #[trigger]
            db.has("messages"@, m) && #[trigger] db.has("folders"@, f) && same_cell(
                f.at("id"@),
                m.at("folder_id"@),
            ) && c.holds(db, s.with("m"@, m).with("f"@, f)),
{
    names_differ();
    let messages = Source::Table("messages"@, "m"@);
    let on = equal(column("f"@, "id"@), column("m"@, "folder_id"@));
    let inner = found(false, Source::Table("folders"@, "f"@), both(on, c));
    exists_in_join(false, messages, "folders"@, "f"@, on, c, db, s);
    exists_in_table(false, "messages"@, "m"@, inner, db, s);
    assert forall|m: Row| #[trigger]
        db.has("messages"@, m) implies (inner.holds(db, s.with("m"@, m)) <==> exists|f: Row|
     #[trigger]
        db.has("folders"@, f) && same_cell(f.at("id"@), m.at("folder_id"@)) && c.holds(
            db,
            s.with("m"@, m).with("f"@, f),
        )) by {
        exists_in_table(false, "folders"@, "f"@, both(on, c), db, s.with("m"@, m));
        assert forall|f: Row| #[trigger]
            db.has("folders"@, f) implies (both(on, c).holds(db, s.with("m"@, m).with("f"@, f))
            <==> same_cell(f.at("id"@), m.at("folder_id"@)) && c.holds(
            db,
            s.with("m"@, m).with("f"@, f),
        )) by {
            let last = s.with("m"@, m).with("f"@, f);
            both_hold(on, c, db, last);
            comparisons_hold(column("f"@, "id"@), column("m"@, "folder_id"@), db, last);
        }
    }
}

/// Whether rows are those of a message at Gmail and of a folder that it is filed in.
spec fn are_filed(db: Database, m: Row, a: Row, filed: Row, f: Row) -> bool {
    db.has("messages"@, m) && db.has("accounts"@, a) && db.has("message_folders"@, filed) && db.has(
        "folders"@,
        f,
    ) && same_cell(a.at("id"@), m.at("account_id"@)) && a.at("provider"@) == Cell::Text("gmail"@)
        && same_cell(filed.at("message_id"@), m.at("id"@)) && same_cell(
        f.at("id"@),
        filed.at("folder_id"@),
    )
}

/// What the conditions on those rows mean, step by step.
proof fn filing_steps(db: Database, s: Scope, m: Row, a: Row, filed: Row, f: Row)
    ensures
        ({
            let s2 = s.with("m"@, m).with("ma"@, a);
            let s3 = s2.with("mf"@, filed);
            let s4 = s3.with("f"@, f);
            let mine = equal(column("ma"@, "id"@), column("m"@, "account_id"@));
            let there = equal(column("ma"@, "provider"@), Term::Quoted("gmail"@));
            let kept = equal(column("mf"@, "message_id"@), column("m"@, "id"@));
            let named = equal(column("f"@, "id"@), column("mf"@, "folder_id"@));
            &&& both(mine, there).holds(db, s2) <==> same_cell(a.at("id"@), m.at("account_id"@))
                && a.at("provider"@) == Cell::Text("gmail"@)
            &&& kept.holds(db, s3) <==> same_cell(filed.at("message_id"@), m.at("id"@))
            &&& named.holds(db, s4) <==> same_cell(f.at("id"@), filed.at("folder_id"@))
        }),
{
    names_differ();
    let s2 = s.with("m"@, m).with("ma"@, a);
    let s3 = s2.with("mf"@, filed);
    let s4 = s3.with("f"@, f);
    let mine = equal(column("ma"@, "id"@), column("m"@, "account_id"@));
    let there = equal(column("ma"@, "provider"@), Term::Quoted("gmail"@));
    both_hold(mine, there, db, s2);
    comparisons_hold(column("ma"@, "id"@), column("m"@, "account_id"@), db, s2);
    comparisons_hold(column("ma"@, "provider"@), Term::Quoted("gmail"@), db, s2);
    comparisons_hold(column("mf"@, "message_id"@), column("m"@, "id"@), db, s3);
    comparisons_hold(column("f"@, "id"@), column("mf"@, "folder_id"@), db, s4);
}

proof fn filed_folders_mean(c: Cond, db: Database, s: Scope)
    ensures
        found(true, filed_folders(), c).holds(db, s) <==> exists|m: Row, a: Row, filed: Row, f: Row|
            #[trigger] are_filed(db, m, a, filed, f) && c.holds(
                db,
                s.with("m"@, m).with("ma"@, a).with("mf"@, filed).with("f"@, f),
            ),
{
    let source = filed_folders();
    let third = *(source->Join_0);
    let second = *(third->Join_0);
    let on3 = *(source->Join_3);
    let on2 = *(third->Join_3);
    let on1 = *(second->Join_3);
    let messages = Source::Table("messages"@, "m"@);
    let whole = found(true, source, c);
    let e3 = found(false, Source::Table("folders"@, "f"@), both(on3, c));
    let e2 = found(false, Source::Table("message_folders"@, "mf"@), both(on2, e3));
    let e1 = found(false, Source::Table("accounts"@, "ma"@), both(on1, e2));
    exists_in_join(true, third, "folders"@, "f"@, on3, c, db, s);
    exists_in_join(false, second, "message_folders"@, "mf"@, on2, e3, db, s);
    exists_in_join(false, messages, "accounts"@, "ma"@, on1, e2, db, s);
    exists_in_table(false, "messages"@, "m"@, e1, db, s);
    if whole.holds(db, s) {
        let m = choose|m: Row| #[trigger]
            db.has("messages"@, m) && e1.holds(db, s.with("m"@, m));
        let s1 = s.with("m"@, m);
        exists_in_table(false, "accounts"@, "ma"@, both(on1, e2), db, s1);
        let a = choose|a: Row| #[trigger]
            db.has("accounts"@, a) && both(on1, e2).holds(db, s1.with("ma"@, a));
        let s2 = s1.with("ma"@, a);
        both_hold(on1, e2, db, s2);
        exists_in_table(false, "message_folders"@, "mf"@, both(on2, e3), db, s2);
        let filed = choose|r: Row| #[trigger]
            db.has("message_folders"@, r) && both(on2, e3).holds(db, s2.with("mf"@, r));
        let s3 = s2.with("mf"@, filed);
        both_hold(on2, e3, db, s3);
        exists_in_table(false, "folders"@, "f"@, both(on3, c), db, s3);
        let f = choose|f: Row| #[trigger]
            db.has("folders"@, f) && both(on3, c).holds(db, s3.with("f"@, f));
        both_hold(on3, c, db, s3.with("f"@, f));
        filing_steps(db, s, m, a, filed, f);
        assert(are_filed(db, m, a, filed, f));
    }
    if exists|m: Row, a: Row, filed: Row, f: Row| #[trigger]
        are_filed(db, m, a, filed, f) && c.holds(
            db,
            s.with("m"@, m).with("ma"@, a).with("mf"@, filed).with("f"@, f),
        ) {
        let (m, a, filed, f) = choose|m: Row, a: Row, filed: Row, f: Row| #[trigger]
            are_filed(db, m, a, filed, f) && c.holds(
                db,
                s.with("m"@, m).with("ma"@, a).with("mf"@, filed).with("f"@, f),
            );
        let s1 = s.with("m"@, m);
        let s2 = s1.with("ma"@, a);
        let s3 = s2.with("mf"@, filed);
        filing_steps(db, s, m, a, filed, f);
        both_hold(on3, c, db, s3.with("f"@, f));
        exists_in_table(false, "folders"@, "f"@, both(on3, c), db, s3);
        assert(db.has("folders"@, f));
        assert(e3.holds(db, s3));
        both_hold(on2, e3, db, s3);
        exists_in_table(false, "message_folders"@, "mf"@, both(on2, e3), db, s2);
        assert(db.has("message_folders"@, filed));
        assert(e2.holds(db, s2));
        both_hold(on1, e2, db, s2);
        exists_in_table(false, "accounts"@, "ma"@, both(on1, e2), db, s1);
        assert(db.has("accounts"@, a));
        assert(e1.holds(db, s1));
        assert(db.has("messages"@, m));
        assert(whole.holds(db, s));
    }
}

proof fn role_rows_mean(n: int, name: Seq<char>, db: Database, s: Scope)
    ensures
        both(
            of_thread(),
            equal(column("f"@, "role"@), Term::Param(n, Bound::Text(name))),
        ).holds(db, s) <==> is_of_thread(s.row("m"@), s.row("t"@)) && s.row("f"@).at("role"@)
            == Cell::Text(name),
{
    let role = Term::Param(n, Bound::Text(name));
    both_hold(of_thread(), equal(column("f"@, "role"@), role), db, s);
    comparisons_hold(column("m"@, "thread_id"@), column("t"@, "id"@), db, s);
    comparisons_hold(column("f"@, "role"@), role, db, s);
}

proof fn role_means(n: int, name: Seq<char>, db: Database, s: Scope)
    ensures
        role_condition(Term::Param(n, Bound::Text(name))).holds(db, s) <==> has_role(
            db,
            s.row("t"@),
            name,
        ),
{
    let role = Term::Param(n, Bound::Text(name));
    let wanted = both(of_thread(), equal(column("f"@, "role"@), role));
    let t = s.row("t"@);
    own_folders_mean(wanted, db, s);
    filed_folders_mean(wanted, db, s);
    assert forall|m: Row, f: Row| wanted.holds(db, #[trigger] s.with("m"@, m).with("f"@, f)) <==> (
    is_of_thread(m, t) && f.at("role"@) == Cell::Text(name)) by {
        let inner = s.with("m"@, m).with("f"@, f);
        names_differ();
        role_rows_mean(n, name, db, inner);
    }
    assert forall|m: Row, a: Row, filed: Row, f: Row|
        wanted.holds(
            db,
            #[trigger] s.with("m"@, m).with("ma"@, a).with("mf"@, filed).with("f"@, f),
        ) <==> (is_of_thread(m, t) && f.at("role"@) == Cell::Text(name)) by {
        let inner = s.with("m"@, m).with("ma"@, a).with("mf"@, filed).with("f"@, f);
        names_differ();
        role_rows_mean(n, name, db, inner);
    }
    let own = found(false, own_folders(), wanted);
    let filed = found(true, filed_folders(), wanted);
    group_holds(false, either(own, filed), db, s);
    either_holds(own, filed, db, s);
    assert(role_condition(role).holds(db, s) <==> own.holds(db, s) || filed.holds(db, s));
    if filed.holds(db, s) {
        let (m, a, r, f) = choose|m: Row, a: Row, r: Row, f: Row| #[trigger]
            are_filed(db, m, a, r, f) && wanted.holds(
                db,
                s.with("m"@, m).with("ma"@, a).with("mf"@, r).with("f"@, f),
            );
        assert(db.has("accounts"@, a) && db.has("message_folders"@, r));
        assert(is_at_gmail(db, m));
        assert(stands_in(db, m, f.at("id"@)));
    }
    if has_role(db, t, name) {
        let (m, f) = choose|m: Row, f: Row| #[trigger]
            db.has("messages"@, m) && #[trigger] db.has("folders"@, f) && is_of_thread(m, t)
                && f.at("role"@) == Cell::Text(name) && stands_in(db, m, f.at("id"@));
        if !same_cell(m.at("folder_id"@), f.at("id"@)) {
            let a = choose|a: Row| #[trigger]
                db.has("accounts"@, a) && same_cell(a.at("id"@), m.at("account_id"@)) && a.at(
                    "provider"@,
                ) == Cell::Text("gmail"@);
            let r = choose|r: Row| #[trigger]
                db.has("message_folders"@, r) && same_cell(r.at("message_id"@), m.at("id"@))
                    && same_cell(r.at("folder_id"@), f.at("id"@));
            assert(are_filed(db, m, a, r, f));
            assert(wanted.holds(
                db,
                s.with("m"@, m).with("ma"@, a).with("mf"@, r).with("f"@, f),
            ));
        } else {
            assert(wanted.holds(db, s.with("m"@, m).with("f"@, f)));
        }
    }
}

proof fn draft_rows_mean(n: int, name: Seq<char>, db: Database, s: Scope)
    ensures
        drafted_wanted(Term::Param(n, Bound::Text(name))).holds(db, s) <==> is_of_thread(
            s.row("m"@),
            s.row("t"@),
        ) && s.row("m"@).at("is_draft"@) == Cell::Int(1) && s.row("f"@).at("role"@) == Cell::Text(
            name,
        ),
{
    let role = Term::Param(n, Bound::Text(name));
    let draft = equal(column("m"@, "is_draft"@), Term::Number(1));
    let there = equal(column("f"@, "role"@), role);
    both_hold(of_thread(), both(draft, there), db, s);
    both_hold(draft, there, db, s);
    comparisons_hold(column("m"@, "thread_id"@), column("t"@, "id"@), db, s);
    comparisons_hold(column("m"@, "is_draft"@), Term::Number(1), db, s);
    comparisons_hold(column("f"@, "role"@), role, db, s);
}

proof fn draft_means(n: int, name: Seq<char>, db: Database, s: Scope)
    ensures
        draft_condition(Term::Param(n, Bound::Text(name))).holds(db, s) <==> has_draft(
            db,
            s.row("t"@),
            name,
        ),
{
    let role = Term::Param(n, Bound::Text(name));
    let wanted = drafted_wanted(role);
    let t = s.row("t"@);
    own_folders_mean(wanted, db, s);
    filed_folders_mean(wanted, db, s);
    assert forall|m: Row, f: Row| wanted.holds(db, #[trigger] s.with("m"@, m).with("f"@, f)) <==> (
    is_of_thread(m, t) && m.at("is_draft"@) == Cell::Int(1) && f.at("role"@) == Cell::Text(name)) by {
        let inner = s.with("m"@, m).with("f"@, f);
        names_differ();
        draft_rows_mean(n, name, db, inner);
    }
    assert forall|m: Row, a: Row, filed: Row, f: Row|
        wanted.holds(
            db,
            #[trigger] s.with("m"@, m).with("ma"@, a).with("mf"@, filed).with("f"@, f),
        ) <==> (is_of_thread(m, t) && m.at("is_draft"@) == Cell::Int(1) && f.at("role"@) == Cell::Text(name)) by {
        let inner = s.with("m"@, m).with("ma"@, a).with("mf"@, filed).with("f"@, f);
        names_differ();
        draft_rows_mean(n, name, db, inner);
    }
    let own = found(false, own_folders(), wanted);
    let filed = found(true, filed_folders(), wanted);
    group_holds(false, either(own, filed), db, s);
    either_holds(own, filed, db, s);
    assert(draft_condition(role).holds(db, s) <==> own.holds(db, s) || filed.holds(db, s));
    if filed.holds(db, s) {
        let (m, a, r, f) = choose|m: Row, a: Row, r: Row, f: Row| #[trigger]
            are_filed(db, m, a, r, f) && wanted.holds(
                db,
                s.with("m"@, m).with("ma"@, a).with("mf"@, r).with("f"@, f),
            );
        assert(db.has("accounts"@, a) && db.has("message_folders"@, r));
        assert(is_at_gmail(db, m));
        assert(stands_in(db, m, f.at("id"@)));
    }
    if has_draft(db, t, name) {
        let (m, f) = choose|m: Row, f: Row| #[trigger]
            db.has("messages"@, m) && #[trigger] db.has("folders"@, f) && is_of_thread(m, t) && m.at("is_draft"@) == Cell::Int(1)
                && f.at("role"@) == Cell::Text(name) && stands_in(db, m, f.at("id"@));
        if !same_cell(m.at("folder_id"@), f.at("id"@)) {
            let a = choose|a: Row| #[trigger]
                db.has("accounts"@, a) && same_cell(a.at("id"@), m.at("account_id"@)) && a.at(
                    "provider"@,
                ) == Cell::Text("gmail"@);
            let r = choose|r: Row| #[trigger]
                db.has("message_folders"@, r) && same_cell(r.at("message_id"@), m.at("id"@))
                    && same_cell(r.at("folder_id"@), f.at("id"@));
            assert(are_filed(db, m, a, r, f));
            assert(wanted.holds(
                db,
                s.with("m"@, m).with("ma"@, a).with("mf"@, r).with("f"@, f),
            ));
        } else {
            assert(wanted.holds(db, s.with("m"@, m).with("f"@, f)));
        }
    }
}

proof fn folder_means(n: int, id: i64, db: Database, s: Scope)
    ensures
        folder_condition(Term::Param(n, Bound::Int(id))).holds(db, s) <==> is_in_folder(
            db,
            s.row("t"@),
            id as int,
        ),
{
    let folder = Term::Param(n, Bound::Int(id));
    let t = s.row("t"@);
    let whole = folder_condition(folder);
    let wanted = *(whole->Exists_2);
    exists_in_table(false, "messages"@, "m"@, wanted, db, s);
    assert forall|m: Row| #[trigger]
        db.has("messages"@, m) implies (wanted.holds(db, s.with("m"@, m)) <==> is_of_thread(m, t)
        && stands_in(db, m, Cell::Int(id as int))) by {
        place_means(n, id, db, s, m);
    }
}

proof fn place_means(n: int, id: i64, db: Database, s: Scope, m: Row)
    ensures
        ({
            let wanted = *(folder_condition(Term::Param(n, Bound::Int(id)))->Exists_2);
            wanted.holds(db, s.with("m"@, m)) <==> is_of_thread(m, s.row("t"@)) && stands_in(
                db,
                m,
                Cell::Int(id as int),
            )
        }),
{
    let folder = Term::Param(n, Bound::Int(id));
    let inner = s.with("m"@, m);
    let wanted = *(folder_condition(folder)->Exists_2);
    let place = *(wanted->Both_1);
    let alternatives = *(place->Group_1);
    let own = *(alternatives->Either_0);
    let filed_there = *(alternatives->Either_1);
    let pair = *(filed_there->Group_1);
    let gmail = *(pair->Both_0);
    let filed = *(pair->Both_1);
    names_differ();
    gmail_means(db, s, m);
    filing_means(n, id, db, s, m);
    both_hold(of_thread(), place, db, inner);
    comparisons_hold(column("m"@, "thread_id"@), column("t"@, "id"@), db, inner);
    group_holds(true, alternatives, db, inner);
    either_holds(own, filed_there, db, inner);
    comparisons_hold(column("m"@, "folder_id"@), folder, db, inner);
    group_holds(true, pair, db, inner);
    both_hold(gmail, filed, db, inner);
}

proof fn gmail_means(db: Database, s: Scope, m: Row)
    ensures
        found(
            false,
            Source::Table("accounts"@, "ma"@),
            both(
                equal(column("ma"@, "id"@), column("m"@, "account_id"@)),
                equal(column("ma"@, "provider"@), Term::Quoted("gmail"@)),
            ),
        ).holds(db, s.with("m"@, m)) <==> is_at_gmail(db, m),
{
    names_differ();
    let inner = s.with("m"@, m);
    let mine = equal(column("ma"@, "id"@), column("m"@, "account_id"@));
    let there = equal(column("ma"@, "provider"@), Term::Quoted("gmail"@));
    exists_in_table(false, "accounts"@, "ma"@, both(mine, there), db, inner);
    assert forall|a: Row| #[trigger]
        db.has("accounts"@, a) implies (both(mine, there).holds(db, inner.with("ma"@, a))
        <==> same_cell(a.at("id"@), m.at("account_id"@)) && a.at("provider"@) == Cell::Text(
        "gmail"@,
    )) by {
        let last = inner.with("ma"@, a);
        both_hold(mine, there, db, last);
        comparisons_hold(column("ma"@, "id"@), column("m"@, "account_id"@), db, last);
        comparisons_hold(column("ma"@, "provider"@), Term::Quoted("gmail"@), db, last);
    }
}

proof fn filing_means(n: int, id: i64, db: Database, s: Scope, m: Row)
    ensures
        found(
            false,
            Source::Table("message_folders"@, "mf"@),
            both(
                equal(column("mf"@, "message_id"@), column("m"@, "id"@)),
                equal(column("mf"@, "folder_id"@), Term::Param(n, Bound::Int(id))),
            ),
        ).holds(db, s.with("m"@, m)) <==> exists|r: Row| #[trigger]
            db.has("message_folders"@, r) && same_cell(r.at("message_id"@), m.at("id"@))
                && same_cell(r.at("folder_id"@), Cell::Int(id as int)),
{
    names_differ();
    let inner = s.with("m"@, m);
    let folder = Term::Param(n, Bound::Int(id));
    let kept = equal(column("mf"@, "message_id"@), column("m"@, "id"@));
    let named = equal(column("mf"@, "folder_id"@), folder);
    exists_in_table(false, "message_folders"@, "mf"@, both(kept, named), db, inner);
    assert forall|r: Row| #[trigger]
        db.has("message_folders"@, r) implies (both(kept, named).holds(db, inner.with("mf"@, r))
        <==> same_cell(r.at("message_id"@), m.at("id"@)) && same_cell(
        r.at("folder_id"@),
        Cell::Int(id as int),
    )) by {
        let last = inner.with("mf"@, r);
        both_hold(kept, named, db, last);
        comparisons_hold(column("mf"@, "message_id"@), column("m"@, "id"@), db, last);
        comparisons_hold(column("mf"@, "folder_id"@), folder, db, last);
    }
}

proof fn label_means(n: int, id: i64, db: Database, s: Scope)
    ensures
        label_condition(Term::Param(n, Bound::Int(id))).holds(db, s) <==> has_label(
            db,
            s.row("t"@),
            id as int,
        ),
{
    names_differ();
    let t = s.row("t"@);
    let label = Term::Param(n, Bound::Int(id));
    let labels = Source::Table("message_labels"@, "ml"@);
    let on = equal(column("m"@, "id"@), column("ml"@, "message_id"@));
    let named = equal(column("ml"@, "label_id"@), label);
    let wanted = both(of_thread(), named);
    let inner = found(false, Source::Table("messages"@, "m"@), both(on, wanted));
    exists_in_join(false, labels, "messages"@, "m"@, on, wanted, db, s);
    exists_in_table(false, "message_labels"@, "ml"@, inner, db, s);
    assert forall|l: Row| #[trigger]
        db.has("message_labels"@, l) implies (inner.holds(db, s.with("ml"@, l)) <==> exists|m: Row|
     #[trigger]
        db.has("messages"@, m) && is_of_thread(m, t) && same_cell(
            l.at("message_id"@),
            m.at("id"@),
        ) && l.at("label_id"@) == Cell::Int(id as int)) by {
        let before = s.with("ml"@, l);
        exists_in_table(false, "messages"@, "m"@, both(on, wanted), db, before);
        assert forall|m: Row| #[trigger]
            db.has("messages"@, m) implies (both(on, wanted).holds(db, before.with("m"@, m))
            <==> is_of_thread(m, t) && same_cell(l.at("message_id"@), m.at("id"@)) && l.at(
            "label_id"@,
        ) == Cell::Int(id as int)) by {
            let last = before.with("m"@, m);
            both_hold(on, wanted, db, last);
            both_hold(of_thread(), named, db, last);
            comparisons_hold(column("m"@, "id"@), column("ml"@, "message_id"@), db, last);
            comparisons_hold(column("m"@, "thread_id"@), column("t"@, "id"@), db, last);
            comparisons_hold(column("ml"@, "label_id"@), label, db, last);
        }
    }
}

proof fn newest_means(automated: bool, db: Database, s: Scope)
    ensures
        newest_condition(
            Term::Number(
                if automated {
                    1
                } else {
                    0
                },
            ),
        ).holds(db, s) <==> newest_is(db, s.row("t"@), automated),
{
    names_differ();
    let t = s.row("t"@);
    let wanted = incoming();
    let kind = Term::Number(
        if automated {
            1
        } else {
            0
        },
    );
    newest_holds("is_automated"@, "messages"@, "m"@, wanted, kind, db, s);
    assert forall|m: Row| #[trigger]
        db.has("messages"@, m) implies (wanted.holds(db, s.with("m"@, m)) <==> came_in(m, t)) by {
        let inner = s.with("m"@, m);
        let draft = equal(column("m"@, "is_draft"@), Term::Number(0));
        let outgoing = equal(column("m"@, "is_outgoing"@), Term::Number(0));
        both_hold(of_thread(), both(draft, outgoing), db, inner);
        both_hold(draft, outgoing, db, inner);
        comparisons_hold(column("m"@, "thread_id"@), column("t"@, "id"@), db, inner);
        comparisons_hold(column("m"@, "is_draft"@), Term::Number(0), db, inner);
        comparisons_hold(column("m"@, "is_outgoing"@), Term::Number(0), db, inner);
    }
}

/// Whether a thread was sent to no tab, or waits to be.
pub open spec fn is_unrouted(t: Row) -> bool {
    t.at("routed_tab"@) is Null || t.at("routed_tab"@) == Cell::Text("pending"@)
}

proof fn tab_means(wide: bool, tab: Seq<char>, automated: bool, db: Database, s: Scope)
    ensures
        tab_condition(
            wide,
            tab,
            if automated {
                1
            } else {
                0
            },
        ).holds(db, s) <==> (s.row("t"@).at("routed_tab"@) == Cell::Text(tab) || (is_unrouted(
            s.row("t"@),
        ) && newest_is(db, s.row("t"@), automated))),
{
    newest_means(automated, db, s);
    let whole = tab_condition(
        wide,
        tab,
        if automated {
            1
        } else {
            0
        },
    );
    let alternatives = *(whole->Group_1);
    let sent = *(alternatives->Either_0);
    let fallen = *(alternatives->Either_1);
    let pair = *(fallen->Group_1);
    let unrouted = *(pair->Both_0);
    let either_way = *(unrouted->Group_1);
    let newest = newest_condition(
        Term::Number(
            if automated {
                1
            } else {
                0
            },
        ),
    );
    let routed = column("t"@, "routed_tab"@);
    group_holds(false, alternatives, db, s);
    either_holds(sent, fallen, db, s);
    comparisons_hold(routed, Term::Quoted(tab), db, s);
    group_holds(false, pair, db, s);
    both_hold(unrouted, *(pair->Both_1), db, s);
    group_holds(false, newest, db, s);
    group_holds(false, either_way, db, s);
    either_holds(*(either_way->Either_0), *(either_way->Either_1), db, s);
    comparisons_hold(routed, Term::Quoted("pending"@), db, s);
}

/// Whether a thread stands behind a cursor in a list with the newest first.
pub open spec fn row_is_behind(t: Row, cursor: ThreadCursor) -> bool {
    let moment = Cell::Int(cursor.last_message_at as int);
    let at = t.at("last_message_at"@);
    (!(at is Null) && is_below(at, moment)) || (at == moment && !(t.at("id"@) is Null) && is_below(
        t.at("id"@),
        Cell::Int(cursor.thread_id as int),
    ))
}

/// The rows behind a cursor are those of the threads that the next page shows.
pub proof fn pages_go_on_behind_the_cursor(t: Row, shown: ThreadSummary, cursor: ThreadCursor)
    requires
        t.at("id"@) == Cell::Int(shown.id as int),
        t.at("last_message_at"@) == Cell::Int(shown.last_message_at as int),
    ensures
        row_is_behind(t, cursor) <==> is_behind(shown, cursor),
{
}

proof fn cursor_means(m: int, n: int, cursor: ThreadCursor, db: Database, s: Scope)
    ensures
        cursor_condition(
            Term::Param(m, Bound::Int(cursor.last_message_at)),
            Term::Param(n, Bound::Int(cursor.thread_id)),
        ).holds(db, s) <==> row_is_behind(s.row("t"@), cursor),
{
    let moment = Term::Param(m, Bound::Int(cursor.last_message_at));
    let id = Term::Param(n, Bound::Int(cursor.thread_id));
    let at = column("t"@, "last_message_at"@);
    let earlier = Cond::Below(at, moment);
    let pair = both(equal(at, moment), Cond::Below(column("t"@, "id"@), id));
    group_holds(false, either(earlier, group(false, pair)), db, s);
    either_holds(earlier, group(false, pair), db, s);
    group_holds(false, pair, db, s);
    both_hold(equal(at, moment), Cond::Below(column("t"@, "id"@), id), db, s);
    comparisons_hold(at, moment, db, s);
    comparisons_hold(column("t"@, "id"@), id, db, s);
}

/// Whether a view shows a thread, by what is stored, by its row and by that of its snooze, which is
/// empty where it is not snoozed.
pub open spec fn is_in_view(view: MailView, db: Database, t: Row, snooze: Row) -> bool {
    let snoozed = !(snooze.at("thread_id"@) is Null);
    match view {
        MailView::Inbox => has_role(db, t, "inbox"@) && !snoozed,
        MailView::Starred => is_positive(t.at("starred_count"@)),
        MailView::Snoozed => snoozed,
        MailView::Sent => has_role(db, t, "sent"@),
        MailView::Drafts => has_draft(db, t, "drafts"@),
        MailView::Done => has_role(db, t, "archive"@) && !has_role(db, t, "inbox"@),
        MailView::Trash => has_role(db, t, "trash"@),
        MailView::Spam => has_role(db, t, "spam"@),
        MailView::All => true,
    }
}

/// Whether a tab shows a thread.
pub open spec fn is_in_tab(tab: Option<TabFilter>, db: Database, t: Row) -> bool {
    match tab {
        Some(TabFilter::Important) => t.at("routed_tab"@) == Cell::Text("important"@) || (
        is_unrouted(t) && newest_is(db, t, false)),
        Some(TabFilter::Other) => t.at("routed_tab"@) == Cell::Text("other"@) || (is_unrouted(t)
            && newest_is(db, t, true)),
        Some(TabFilter::Split(id)) => t.at("routed_tab"@) == Cell::Text(
            "split:"@ + signed_decimal(id as int),
        ),
        Some(TabFilter::AutoLabel(id)) => t.at("routed_tab"@) == Cell::Text(
            "label:"@ + signed_decimal(id as int),
        ),
        Some(TabFilter::ManualLabel(id)) => has_label(db, t, id as int),
        None => true,
    }
}

/// Whether a list shows a thread, on this page or on another.
pub open spec fn lists_thread(args: ListArgs, db: Database, t: Row, snooze: Row) -> bool {
    &&& is_in_view(args.view, db, t, snooze)
    &&& args.account_id is Some ==> t.at("account_id"@) == Cell::Int(args.account_id->0 as int)
    &&& is_in_tab(args.tab, db, t)
    &&& args.folder_id is Some ==> is_in_folder(db, t, args.folder_id->0 as int)
}

proof fn role_is_asked(f: Filter, wanted: spec_fn(Database, Scope) -> bool, role: Seq<char>)
    requires
        asks_for(f, wanted),
    ensures
        asks_for(
            f.role(role),
            also(wanted, |db: Database, s: Scope| has_role(db, s.row("t"@), role)),
        ),
{
    let bound = f.bind(Bound::Text(role));
    let term = Term::Param(bound.bind.len() as int, Bound::Text(role));
    let more = |db: Database, s: Scope| has_role(db, s.row("t"@), role);
    let after = also(wanted, more);
    let c = role_condition(term);
    role_is_read(term);
    role_fits(term, bound.bind);
    assert forall|db: Database, s: Scope| #[trigger]
        after(db, s) <==> wanted(db, s) && c.holds(db, s) by {
        role_means(bound.bind.len() as int, role, db, s);
    }
    asks_for_one_more(f, wanted, bound, c, after);
}

proof fn role_fits(role: Term, bind: Seq<Bound>)
    requires
        role.fits(bind),
    ensures
        role_condition(role).fits(bind),
        draft_condition(role).fits(bind),
{
    reveal_with_fuel(Cond::fits, 9);
    reveal_with_fuel(Source::fits, 9);
}

proof fn view_is_asked(f: Filter, wanted: spec_fn(Database, Scope) -> bool, view: MailView)
    requires
        asks_for(f, wanted),
    ensures
        asks_for(
            f.of_view(view),
            also(
                wanted,
                |db: Database, s: Scope| is_in_view(view, db, s.row("t"@), s.row("s"@)),
            ),
        ),
{
    let more = |db: Database, s: Scope| is_in_view(view, db, s.row("t"@), s.row("s"@));
    let after = also(wanted, more);
    let number = Term::Number(0);
    short_clauses_are_read(number);
    match view {
        MailView::Inbox => {
            let role = "inbox"@;
            let placed = also(wanted, |db: Database, s: Scope| has_role(db, s.row("t"@), role));
            role_is_asked(f, wanted, role);
            let c = Cond::Missing(column("s"@, "thread_id"@));
            assert forall|db: Database, s: Scope| #[trigger]
                after(db, s) <==> placed(db, s) && c.holds(db, s) by {
                comparisons_hold(column("s"@, "thread_id"@), number, db, s);
            }
            asks_for_one_more(f.role(role), placed, f.role(role), c, after);
        },
        MailView::Starred => {
            let c = Cond::Above(column("t"@, "starred_count"@), number);
            assert forall|db: Database, s: Scope| #[trigger]
                after(db, s) <==> wanted(db, s) && c.holds(db, s) by {
                comparisons_hold(column("t"@, "starred_count"@), number, db, s);
            }
            asks_for_one_more(f, wanted, f, c, after);
        },
        MailView::Snoozed => {
            let c = Cond::Given(column("s"@, "thread_id"@));
            assert forall|db: Database, s: Scope| #[trigger]
                after(db, s) <==> wanted(db, s) && c.holds(db, s) by {
                comparisons_hold(column("s"@, "thread_id"@), number, db, s);
            }
            asks_for_one_more(f, wanted, f, c, after);
        },
        MailView::Sent => {
            view_of_role(f, wanted, view, "sent"@);
        },
        MailView::Drafts => {
            let role = "drafts"@;
            let bound = f.bind(Bound::Text(role));
            let n = bound.bind.len() as int;
            let term = Term::Param(n, Bound::Text(role));
            let c = draft_condition(term);
            drafts_are_read(term);
            role_fits(term, bound.bind);
            assert forall|db: Database, s: Scope| #[trigger]
                after(db, s) <==> wanted(db, s) && c.holds(db, s) by {
                draft_means(n, role, db, s);
            }
            asks_for_one_more(f, wanted, bound, c, after);
        },
        MailView::Done => {
            done_is_asked(f, wanted);
        },
        MailView::Trash => {
            view_of_role(f, wanted, view, "trash"@);
        },
        MailView::Spam => {
            view_of_role(f, wanted, view, "spam"@);
        },
        MailView::All => {
            asks_in_other_words(f, wanted, after);
        },
    }
}

/// A view of one role.
proof fn view_of_role(
    f: Filter,
    wanted: spec_fn(Database, Scope) -> bool,
    view: MailView,
    role: Seq<char>,
)
    requires
        asks_for(f, wanted),
        forall|db: Database, t: Row, snooze: Row| #[trigger]
            is_in_view(view, db, t, snooze) <==> has_role(db, t, role),
    ensures
        asks_for(
            f.role(role),
            also(
                wanted,
                |db: Database, s: Scope| is_in_view(view, db, s.row("t"@), s.row("s"@)),
            ),
        ),
{
    let placed = also(wanted, |db: Database, s: Scope| has_role(db, s.row("t"@), role));
    let after = also(
        wanted,
        |db: Database, s: Scope| is_in_view(view, db, s.row("t"@), s.row("s"@)),
    );
    role_is_asked(f, wanted, role);
    asks_in_other_words(f.role(role), placed, after);
}

proof fn done_is_asked(f: Filter, wanted: spec_fn(Database, Scope) -> bool)
    requires
        asks_for(f, wanted),
    ensures
        asks_for(
            f.of_view(MailView::Done),
            also(
                wanted,
                |db: Database, s: Scope|
                    is_in_view(MailView::Done, db, s.row("t"@), s.row("s"@)),
            ),
        ),
{
    let more = |db: Database, s: Scope| is_in_view(MailView::Done, db, s.row("t"@), s.row("s"@));
    let after = also(wanted, more);
    let first = f.bind(Bound::Text("archive"@));
    let both_bound = first.bind(Bound::Text("inbox"@));
    let m = first.bind.len() as int;
    let n = both_bound.bind.len() as int;
    let archive = Term::Param(m, Bound::Text("archive"@));
    let inbox = Term::Param(n, Bound::Text("inbox"@));
    let filed = role_condition(archive);
    let back = role_condition(inbox);
    let gone = Cond::Not(Box::new(back));
    let placed = also(wanted, |db: Database, s: Scope| has_role(db, s.row("t"@), "archive"@));
    role_is_read(archive);
    role_is_read(inbox);
    assert(both_bound.bind[m - 1] == Bound::Text("archive"@));
    role_fits(archive, both_bound.bind);
    role_fits(inbox, both_bound.bind);
    assert forall|db: Database, s: Scope| #[trigger]
        placed(db, s) <==> wanted(db, s) && filed.holds(db, s) by {
        role_means(m, "archive"@, db, s);
    }
    asks_for_one_more(f, wanted, both_bound, filed, placed);
    let then = both_bound.and(filed.text());
    assert(gone.text() == "NOT "@ + in_role(inbox.text())) by {
        assert((gone->Not_0).text() == in_role(inbox.text()));
    }
    assert(gone.fits(then.bind)) by {
        assert((gone->Not_0).fits(then.bind));
    }
    assert forall|db: Database, s: Scope| #[trigger]
        after(db, s) <==> placed(db, s) && gone.holds(db, s) by {
        role_means(n, "inbox"@, db, s);
        let rows = both(of_thread(), equal(column("f"@, "role"@), inbox));
        existence_is_known(
            (false, own_folders(), rows),
            (true, filed_folders(), rows),
            db,
            s,
        );
        not_holds(back, db, s);
    }
    asks_for_one_more(then, placed, then, gone, after);
}

proof fn account_is_asked(
    f: Filter,
    wanted: spec_fn(Database, Scope) -> bool,
    account_id: Option<i64>,
)
    requires
        asks_for(f, wanted),
    ensures
        asks_for(
            f.of_account(account_id),
            also(
                wanted,
                |db: Database, s: Scope|
                    account_id is Some ==> s.row("t"@).at("account_id"@) == Cell::Int(
                        account_id->0 as int,
                    ),
            ),
        ),
{
    let more = |db: Database, s: Scope|
        account_id is Some ==> s.row("t"@).at("account_id"@) == Cell::Int(account_id->0 as int);
    let after = also(wanted, more);
    match account_id {
        Some(id) => {
            let bound = f.bind(Bound::Int(id));
            let term = Term::Param(bound.bind.len() as int, Bound::Int(id));
            let c = equal(column("t"@, "account_id"@), term);
            short_clauses_are_read(term);
            assert forall|db: Database, s: Scope| #[trigger]
                after(db, s) <==> wanted(db, s) && c.holds(db, s) by {
                comparisons_hold(column("t"@, "account_id"@), term, db, s);
            }
            asks_for_one_more(f, wanted, bound, c, after);
        },
        None => {
            asks_in_other_words(f, wanted, after);
        },
    }
}

proof fn tab_is_asked(f: Filter, wanted: spec_fn(Database, Scope) -> bool, tab: Option<TabFilter>)
    requires
        asks_for(f, wanted),
    ensures
        asks_for(
            f.tab(tab),
            also(wanted, |db: Database, s: Scope| is_in_tab(tab, db, s.row("t"@))),
        ),
{
    let more = |db: Database, s: Scope| is_in_tab(tab, db, s.row("t"@));
    let after = also(wanted, more);
    match tab {
        Some(TabFilter::Important) => {
            let c = tab_condition(true, "important"@, 0);
            important_tab_is_read();
            tab_fits(true, "important"@, 0, f.bind);
            assert forall|db: Database, s: Scope| #[trigger]
                after(db, s) <==> wanted(db, s) && c.holds(db, s) by {
                tab_means(true, "important"@, false, db, s);
            }
            asks_for_one_more(f, wanted, f, c, after);
        },
        Some(TabFilter::Other) => {
            let c = tab_condition(true, "other"@, 1);
            other_tab_is_read();
            tab_fits(true, "other"@, 1, f.bind);
            assert forall|db: Database, s: Scope| #[trigger]
                after(db, s) <==> wanted(db, s) && c.holds(db, s) by {
                tab_means(true, "other"@, true, db, s);
            }
            asks_for_one_more(f, wanted, f, c, after);
        },
        Some(TabFilter::Split(id)) => {
            routing_is_asked(f, wanted, "split:"@ + signed_decimal(id as int), after);
        },
        Some(TabFilter::AutoLabel(id)) => {
            routing_is_asked(f, wanted, "label:"@ + signed_decimal(id as int), after);
        },
        Some(TabFilter::ManualLabel(id)) => {
            label_is_asked(f, wanted, id, after);
        },
        None => {
            asks_in_other_words(f, wanted, after);
        },
    }
}

proof fn tab_fits(wide: bool, tab: Seq<char>, kind: nat, bind: Seq<Bound>)
    ensures
        tab_condition(wide, tab, kind).fits(bind),
{
    reveal_with_fuel(Cond::fits, 9);
}

proof fn routing_is_asked(
    f: Filter,
    wanted: spec_fn(Database, Scope) -> bool,
    tab: Seq<char>,
    after: spec_fn(Database, Scope) -> bool,
)
    requires
        asks_for(f, wanted),
        forall|db: Database, s: Scope| #[trigger]
            after(db, s) <==> wanted(db, s) && s.row("t"@).at("routed_tab"@) == Cell::Text(tab),
    ensures
        asks_for(f.routed(tab), after),
{
    let bound = f.bind(Bound::Text(tab));
    let term = Term::Param(bound.bind.len() as int, Bound::Text(tab));
    let c = equal(column("t"@, "routed_tab"@), term);
    short_clauses_are_read(term);
    assert forall|db: Database, s: Scope| #[trigger]
        after(db, s) <==> wanted(db, s) && c.holds(db, s) by {
        comparisons_hold(column("t"@, "routed_tab"@), term, db, s);
    }
    asks_for_one_more(f, wanted, bound, c, after);
}

proof fn label_is_asked(
    f: Filter,
    wanted: spec_fn(Database, Scope) -> bool,
    id: i64,
    after: spec_fn(Database, Scope) -> bool,
)
    requires
        asks_for(f, wanted),
        forall|db: Database, s: Scope| #[trigger]
            after(db, s) <==> wanted(db, s) && has_label(db, s.row("t"@), id as int),
    ensures
        asks_for(f.label(id), after),
{
    let bound = f.bind(Bound::Int(id));
    let n = bound.bind.len() as int;
    let term = Term::Param(n, Bound::Int(id));
    let c = label_condition(term);
    label_is_read(term);
    assert(c.fits(bound.bind)) by {
        reveal_with_fuel(Cond::fits, 4);
        reveal_with_fuel(Source::fits, 4);
    }
    assert forall|db: Database, s: Scope| #[trigger]
        after(db, s) <==> wanted(db, s) && c.holds(db, s) by {
        label_means(n, id, db, s);
    }
    asks_for_one_more(f, wanted, bound, c, after);
}

proof fn folder_is_asked(
    f: Filter,
    wanted: spec_fn(Database, Scope) -> bool,
    folder_id: Option<i64>,
)
    requires
        asks_for(f, wanted),
    ensures
        asks_for(
            f.folder(folder_id),
            also(
                wanted,
                |db: Database, s: Scope|
                    folder_id is Some ==> is_in_folder(db, s.row("t"@), folder_id->0 as int),
            ),
        ),
{
    let more = |db: Database, s: Scope|
        folder_id is Some ==> is_in_folder(db, s.row("t"@), folder_id->0 as int);
    let after = also(wanted, more);
    match folder_id {
        Some(id) => {
            let bound = f.bind(Bound::Int(id));
            let n = bound.bind.len() as int;
            let term = Term::Param(n, Bound::Int(id));
            let c = folder_condition(term);
            folder_is_read(term);
            assert(c.fits(bound.bind)) by {
                reveal_with_fuel(Cond::fits, 9);
                reveal_with_fuel(Source::fits, 9);
            }
            assert forall|db: Database, s: Scope| #[trigger]
                after(db, s) <==> wanted(db, s) && c.holds(db, s) by {
                folder_means(n, id, db, s);
            }
            asks_for_one_more(f, wanted, bound, c, after);
        },
        None => {
            asks_in_other_words(f, wanted, after);
        },
    }
}

proof fn cursor_is_asked(
    f: Filter,
    wanted: spec_fn(Database, Scope) -> bool,
    cursor: Option<ThreadCursor>,
)
    requires
        asks_for(f, wanted),
    ensures
        asks_for(
            f.after(cursor),
            also(
                wanted,
                |db: Database, s: Scope| cursor is Some ==> row_is_behind(s.row("t"@), cursor->0),
            ),
        ),
{
    let more = |db: Database, s: Scope| cursor is Some ==> row_is_behind(s.row("t"@), cursor->0);
    let after = also(wanted, more);
    match cursor {
        Some(at) => {
            let first = f.bind(Bound::Int(at.last_message_at));
            let bound = first.bind(Bound::Int(at.thread_id));
            let m = first.bind.len() as int;
            let n = bound.bind.len() as int;
            let moment = Term::Param(m, Bound::Int(at.last_message_at));
            let id = Term::Param(n, Bound::Int(at.thread_id));
            let c = cursor_condition(moment, id);
            cursor_is_read(moment, id);
            assert(bound.bind[m - 1] == Bound::Int(at.last_message_at));
            assert(c.fits(bound.bind)) by {
                reveal_with_fuel(Cond::fits, 6);
            }
            assert forall|db: Database, s: Scope| #[trigger]
                after(db, s) <==> wanted(db, s) && c.holds(db, s) by {
                cursor_means(m, n, at, db, s);
            }
            asks_for_one_more(f, wanted, bound, c, after);
        },
        None => {
            asks_in_other_words(f, wanted, after);
        },
    }
}

/// The conditions of a list ask for the threads that it is to show: those of its view, of its
/// account, of its tab and of its folder; of a page, those behind its cursor.
pub proof fn lists_show_their_threads(args: ListArgs, include_cursor: bool)
    ensures
        asks_for(
            filter_of(args, include_cursor),
            |db: Database, s: Scope|
                lists_thread(args, db, s.row("t"@), s.row("s"@)) && (include_cursor && args.cursor
                    is Some ==> row_is_behind(s.row("t"@), args.cursor->0)),
        ),
{
    let all = |db: Database, s: Scope| true;
    nothing_is_asked(all);
    let f1 = Filter::all().of_view(args.view);
    let w1 = also(
        all,
        |db: Database, s: Scope| is_in_view(args.view, db, s.row("t"@), s.row("s"@)),
    );
    view_is_asked(Filter::all(), all, args.view);
    let f2 = f1.of_account(args.account_id);
    let w2 = also(
        w1,
        |db: Database, s: Scope|
            args.account_id is Some ==> s.row("t"@).at("account_id"@) == Cell::Int(
                args.account_id->0 as int,
            ),
    );
    account_is_asked(f1, w1, args.account_id);
    let f3 = f2.tab(args.tab);
    let w3 = also(w2, |db: Database, s: Scope| is_in_tab(args.tab, db, s.row("t"@)));
    tab_is_asked(f2, w2, args.tab);
    let f4 = f3.folder(args.folder_id);
    let w4 = also(
        w3,
        |db: Database, s: Scope|
            args.folder_id is Some ==> is_in_folder(db, s.row("t"@), args.folder_id->0 as int),
    );
    folder_is_asked(f3, w3, args.folder_id);
    let shown = |db: Database, s: Scope|
        lists_thread(args, db, s.row("t"@), s.row("s"@)) && (include_cursor && args.cursor is Some
            ==> row_is_behind(s.row("t"@), args.cursor->0));
    if include_cursor {
        let w5 = also(
            w4,
            |db: Database, s: Scope| args.cursor is Some ==> row_is_behind(s.row("t"@), args.cursor->0),
        );
        cursor_is_asked(f4, w4, args.cursor);
        asks_in_other_words(f4.after(args.cursor), w5, shown);
    } else {
        asks_in_other_words(f4, w4, shown);
    }
}

/// The list of an account holds threads of that account alone, and of those the same as the list
/// without an account.
pub proof fn accounts_narrow_the_list(args: ListArgs, any: ListArgs, include_cursor: bool, a: i64)
    requires
        args.account_id == Some(a),
        any == (ListArgs { account_id: None, ..args }),
    ensures
        exists|mine: spec_fn(Database, Scope) -> bool, all: spec_fn(Database, Scope) -> bool|
            #![trigger asks_for(filter_of(args, include_cursor), mine), asks_for(filter_of(any, include_cursor), all)]
            {
                &&& asks_for(filter_of(args, include_cursor), mine)
                &&& asks_for(filter_of(any, include_cursor), all)
                &&& forall|db: Database, s: Scope| #[trigger]
                    mine(db, s) ==> s.row("t"@).at("account_id"@) == Cell::Int(a as int)
                &&& forall|db: Database, s: Scope|
                    s.row("t"@).at("account_id"@) == Cell::Int(a as int) ==> (#[trigger] mine(db, s)
                        <==> all(db, s))
            },
{
    lists_show_their_threads(args, include_cursor);
    lists_show_their_threads(any, include_cursor);
    let mine = |db: Database, s: Scope|
        lists_thread(args, db, s.row("t"@), s.row("s"@)) && (include_cursor && args.cursor is Some
            ==> row_is_behind(s.row("t"@), args.cursor->0));
    let all = |db: Database, s: Scope|
        lists_thread(any, db, s.row("t"@), s.row("s"@)) && (include_cursor && any.cursor is Some
            ==> row_is_behind(s.row("t"@), any.cursor->0));
    assert(asks_for(filter_of(args, include_cursor), mine));
    assert(asks_for(filter_of(any, include_cursor), all));
}

/// The drafts that are counted are written with the role in place.
proof fn counted_drafts_are_read()
    ensures
        draft_condition(Term::Quoted("drafts"@)).text() == drafted(),
{
    let role = Term::Quoted("drafts"@);
    drafts_are_read(role);
    assert("'drafts'"@ =~= "'"@ + "drafts"@ + "'"@) by {
        reveal_strlit("'drafts'");
        reveal_strlit("'");
        reveal_strlit("drafts");
    }
    counted_drafts_split();
}

proof fn counted_drafts_split()
    ensures
        drafted() == drafted_in("'drafts'"@),
{
    reveal_strlit("(EXISTS (SELECT 1 FROM messages m JOIN folders f ON f.id = m.folder_id WHERE m.thread_id = t.id AND m.is_draft = 1 AND f.role = 'drafts') OR EXISTS ( SELECT 1 FROM messages m JOIN accounts ma ON ma.id = m.account_id AND ma.provider = 'gmail' JOIN message_folders mf ON mf.message_id = m.id JOIN folders f ON f.id = mf.folder_id WHERE m.thread_id = t.id AND m.is_draft = 1 AND f.role = 'drafts' ))");
    reveal_strlit("(EXISTS (SELECT 1 FROM messages m JOIN folders f ON f.id = m.folder_id WHERE m.thread_id = t.id AND m.is_draft = 1 AND f.role = ");
    reveal_strlit(") OR EXISTS ( SELECT 1 FROM messages m JOIN accounts ma ON ma.id = m.account_id AND ma.provider = 'gmail' JOIN message_folders mf ON mf.message_id = m.id JOIN folders f ON f.id = mf.folder_id WHERE m.thread_id = t.id AND m.is_draft = 1 AND f.role = ");
    reveal_strlit("'drafts'");
    reveal_strlit(" ))");
    assert(drafted() =~= drafted_in("'drafts'"@));
}

/// Whether a condition on drafts means the same for a role in place as for one that is bound.
proof fn counted_drafts_mean(db: Database, s: Scope)
    ensures
        draft_condition(Term::Quoted("drafts"@)).holds(db, s) <==> has_draft(
            db,
            s.row("t"@),
            "drafts"@,
        ),
{
    let quoted = Term::Quoted("drafts"@);
    let bound = Term::Param(1, Bound::Text("drafts"@));
    draft_means(1, "drafts"@, db, s);
    own_folders_mean(drafted_wanted(quoted), db, s);
    own_folders_mean(drafted_wanted(bound), db, s);
    filed_folders_mean(drafted_wanted(quoted), db, s);
    filed_folders_mean(drafted_wanted(bound), db, s);
    assert forall|x: Scope| #[trigger]
        drafted_wanted(quoted).holds(db, x) <==> drafted_wanted(bound).holds(db, x) by {
        drafts_in_place(quoted, bound, db, x);
    }
    let q_own = found(false, own_folders(), drafted_wanted(quoted));
    let q_filed = found(true, filed_folders(), drafted_wanted(quoted));
    let b_own = found(false, own_folders(), drafted_wanted(bound));
    let b_filed = found(true, filed_folders(), drafted_wanted(bound));
    group_holds(false, either(q_own, q_filed), db, s);
    either_holds(q_own, q_filed, db, s);
    group_holds(false, either(b_own, b_filed), db, s);
    either_holds(b_own, b_filed, db, s);
}

/// Two ways of writing a role mean the same.
proof fn drafts_in_place(a: Term, b: Term, db: Database, s: Scope)
    requires
        a.value(s) == b.value(s),
    ensures
        drafted_wanted(a).holds(db, s) <==> drafted_wanted(b).holds(db, s),
{
    let draft = equal(column("m"@, "is_draft"@), Term::Number(1));
    let there_a = equal(column("f"@, "role"@), a);
    let there_b = equal(column("f"@, "role"@), b);
    both_hold(of_thread(), both(draft, there_a), db, s);
    both_hold(of_thread(), both(draft, there_b), db, s);
    both_hold(draft, there_a, db, s);
    both_hold(draft, there_b, db, s);
    comparisons_hold(column("f"@, "role"@), a, db, s);
    comparisons_hold(column("f"@, "role"@), b, db, s);
}

/// Whether a thread counts as unread, for an account or for all.
pub open spec fn is_unread(t: Row, account_id: Option<i64>) -> bool {
    is_positive(t.at("unread_count"@)) && (account_id is Some ==> t.at("account_id"@) == Cell::Int(
        account_id->0 as int,
    ))
}

/// Whether a thread counts as unread in the inbox.
pub open spec fn is_unread_in_inbox(
    db: Database,
    t: Row,
    snooze: Row,
    account_id: Option<i64>,
) -> bool {
    is_unread(t, account_id) && is_in_view(MailView::Inbox, db, t, snooze)
}

proof fn unread_is_asked(account_id: Option<i64>)
    ensures
        asks_for(
            Filter::unread(account_id),
            |db: Database, s: Scope| is_unread(s.row("t"@), account_id),
        ),
{
    let all = |db: Database, s: Scope| true;
    let number = Term::Number(0);
    let c = Cond::Above(column("t"@, "unread_count"@), number);
    let positive = |db: Database, s: Scope| is_positive(s.row("t"@).at("unread_count"@));
    nothing_is_asked(all);
    short_clauses_are_read(number);
    assert forall|db: Database, s: Scope| #[trigger]
        positive(db, s) <==> all(db, s) && c.holds(db, s) by {
        comparisons_hold(column("t"@, "unread_count"@), number, db, s);
    }
    asks_for_one_more(Filter::all(), all, Filter::all(), c, positive);
    let f = Filter::all().and(c.text());
    account_is_asked(f, positive, account_id);
    let both_asked = also(
        positive,
        |db: Database, s: Scope|
            account_id is Some ==> s.row("t"@).at("account_id"@) == Cell::Int(account_id->0 as int),
    );
    let said = |db: Database, s: Scope| is_unread(s.row("t"@), account_id);
    asks_in_other_words(f.of_account(account_id), both_asked, said);
}

proof fn inbox_is_asked(account_id: Option<i64>)
    ensures
        asks_for(
            Filter::unread(account_id).inbox(),
            |db: Database, s: Scope|
                is_unread_in_inbox(db, s.row("t"@), s.row("s"@), account_id),
        ),
{
    let unread = |db: Database, s: Scope| is_unread(s.row("t"@), account_id);
    unread_is_asked(account_id);
    let f = Filter::unread(account_id);
    view_is_asked(f, unread, MailView::Inbox);
    let shown = also(
        unread,
        |db: Database, s: Scope| is_in_view(MailView::Inbox, db, s.row("t"@), s.row("s"@)),
    );
    let said = |db: Database, s: Scope|
        is_unread_in_inbox(db, s.row("t"@), s.row("s"@), account_id);
    asks_in_other_words(f.of_view(MailView::Inbox), shown, said);
}

/// The counts of the inbox and of its tabs count the unread threads that the inbox shows, and of a
/// tab or label those that it holds.
pub proof fn inbox_counts_count_their_threads(account_id: Option<i64>, id: i64)
    ensures
        ({
            let inbox = Filter::unread(account_id).inbox();
            &&& asks_for(
                inbox,
                |db: Database, s: Scope|
                    is_unread_in_inbox(db, s.row("t"@), s.row("s"@), account_id),
            )
            &&& asks_for(
                inbox.and(in_bucket(false)),
                |db: Database, s: Scope|
                    is_unread_in_inbox(db, s.row("t"@), s.row("s"@), account_id) && is_in_tab(
                        Some(TabFilter::Important),
                        db,
                        s.row("t"@),
                    ),
            )
            &&& asks_for(
                inbox.and(in_bucket(true)),
                |db: Database, s: Scope|
                    is_unread_in_inbox(db, s.row("t"@), s.row("s"@), account_id) && is_in_tab(
                        Some(TabFilter::Other),
                        db,
                        s.row("t"@),
                    ),
            )
            &&& asks_for(
                inbox.routed(split_tab(id)),
                |db: Database, s: Scope|
                    is_unread_in_inbox(db, s.row("t"@), s.row("s"@), account_id) && is_in_tab(
                        Some(TabFilter::Split(id)),
                        db,
                        s.row("t"@),
                    ),
            )
        }),
{
    let inbox = Filter::unread(account_id).inbox();
    let unread = |db: Database, s: Scope|
        is_unread_in_inbox(db, s.row("t"@), s.row("s"@), account_id);
    inbox_is_asked(account_id);
    let important = |db: Database, s: Scope|
        is_unread_in_inbox(db, s.row("t"@), s.row("s"@), account_id) && is_in_tab(
            Some(TabFilter::Important),
            db,
            s.row("t"@),
        );
    let c = tab_condition(false, "important"@, 0);
    important_bucket_is_read();
    tab_fits(false, "important"@, 0, inbox.bind);
    assert forall|db: Database, s: Scope| #[trigger]
        important(db, s) <==> unread(db, s) && c.holds(db, s) by {
        tab_means(false, "important"@, false, db, s);
    }
    asks_for_one_more(inbox, unread, inbox, c, important);
    let others = |db: Database, s: Scope|
        is_unread_in_inbox(db, s.row("t"@), s.row("s"@), account_id) && is_in_tab(
            Some(TabFilter::Other),
            db,
            s.row("t"@),
        );
    let d = tab_condition(false, "other"@, 1);
    other_bucket_is_read();
    tab_fits(false, "other"@, 1, inbox.bind);
    assert forall|db: Database, s: Scope| #[trigger]
        others(db, s) <==> unread(db, s) && d.holds(db, s) by {
        tab_means(false, "other"@, true, db, s);
    }
    asks_for_one_more(inbox, unread, inbox, d, others);
    let split = |db: Database, s: Scope|
        is_unread_in_inbox(db, s.row("t"@), s.row("s"@), account_id) && is_in_tab(
            Some(TabFilter::Split(id)),
            db,
            s.row("t"@),
        );
    routing_is_asked(inbox, unread, "split:"@ + signed_decimal(id as int), split);
}

/// The count of a label counts the unread threads of the inbox that are in the tab of the label,
/// where it sorts mail by itself, and those that carry it, where it does not.
pub proof fn label_counts_count_their_threads(account_id: Option<i64>, label: Label)
    ensures
        asks_for(
            label_filter(account_id, label),
            |db: Database, s: Scope|
                is_unread_in_inbox(db, s.row("t"@), s.row("s"@), account_id) && is_in_tab(
                    Some(
                        if label.is_auto {
                            TabFilter::AutoLabel(label.id)
                        } else {
                            TabFilter::ManualLabel(label.id)
                        },
                    ),
                    db,
                    s.row("t"@),
                ),
        ),
{
    let inbox = Filter::unread(account_id).inbox();
    let unread = |db: Database, s: Scope|
        is_unread_in_inbox(db, s.row("t"@), s.row("s"@), account_id);
    inbox_is_asked(account_id);
    let labelled_too = |db: Database, s: Scope|
        is_unread_in_inbox(db, s.row("t"@), s.row("s"@), account_id) && is_in_tab(
            Some(
                if label.is_auto {
                    TabFilter::AutoLabel(label.id)
                } else {
                    TabFilter::ManualLabel(label.id)
                },
            ),
            db,
            s.row("t"@),
        );
    if label.is_auto {
        routing_is_asked(
            inbox,
            unread,
            "label:"@ + signed_decimal(label.id as int),
            labelled_too,
        );
    } else {
        label_is_asked(inbox, unread, label.id, labelled_too);
    }
}

/// The counts of the views count the unread threads that are starred and those that are snoozed,
/// and all threads with a draft, read or unread.
pub proof fn view_counts_count_their_threads(account_id: Option<i64>)
    ensures
        asks_for(
            Filter::unread(account_id).and("t.starred_count > 0"@),
            |db: Database, s: Scope|
                is_unread(s.row("t"@), account_id) && is_in_view(
                    MailView::Starred,
                    db,
                    s.row("t"@),
                    s.row("s"@),
                ),
        ),
        asks_for(
            Filter::unread(account_id).and("s.thread_id IS NOT NULL"@),
            |db: Database, s: Scope|
                is_unread(s.row("t"@), account_id) && is_in_view(
                    MailView::Snoozed,
                    db,
                    s.row("t"@),
                    s.row("s"@),
                ),
        ),
        asks_for(
            Filter::all().of_account(account_id).and(drafted()),
            |db: Database, s: Scope|
                (account_id is Some ==> s.row("t"@).at("account_id"@) == Cell::Int(
                    account_id->0 as int,
                )) && is_in_view(MailView::Drafts, db, s.row("t"@), s.row("s"@)),
        ),
{
    let f = Filter::unread(account_id);
    let unread = |db: Database, s: Scope| is_unread(s.row("t"@), account_id);
    unread_is_asked(account_id);
    view_is_asked(f, unread, MailView::Starred);
    view_is_asked(f, unread, MailView::Snoozed);
    let starred = |db: Database, s: Scope|
        is_unread(s.row("t"@), account_id) && is_in_view(
            MailView::Starred,
            db,
            s.row("t"@),
            s.row("s"@),
        );
    let snoozed = |db: Database, s: Scope|
        is_unread(s.row("t"@), account_id) && is_in_view(
            MailView::Snoozed,
            db,
            s.row("t"@),
            s.row("s"@),
        );
    asks_in_other_words(
        f.of_view(MailView::Starred),
        also(
            unread,
            |db: Database, s: Scope| is_in_view(MailView::Starred, db, s.row("t"@), s.row("s"@)),
        ),
        starred,
    );
    asks_in_other_words(
        f.of_view(MailView::Snoozed),
        also(
            unread,
            |db: Database, s: Scope| is_in_view(MailView::Snoozed, db, s.row("t"@), s.row("s"@)),
        ),
        snoozed,
    );
    let all = |db: Database, s: Scope| true;
    nothing_is_asked(all);
    account_is_asked(Filter::all(), all, account_id);
    let g = Filter::all().of_account(account_id);
    let mine = also(
        all,
        |db: Database, s: Scope|
            account_id is Some ==> s.row("t"@).at("account_id"@) == Cell::Int(account_id->0 as int),
    );
    let drafts = |db: Database, s: Scope|
        (account_id is Some ==> s.row("t"@).at("account_id"@) == Cell::Int(account_id->0 as int))
            && is_in_view(MailView::Drafts, db, s.row("t"@), s.row("s"@));
    let c = draft_condition(Term::Quoted("drafts"@));
    counted_drafts_are_read();
    role_fits(Term::Quoted("drafts"@), g.bind);
    assert forall|db: Database, s: Scope| #[trigger]
        drafts(db, s) <==> mine(db, s) && c.holds(db, s) by {
        counted_drafts_mean(db, s);
    }
    asks_for_one_more(g, mine, g, c, drafts);
}

} // verus!
