//! Searching mail: the queries of the lexical branch, and how its hits and those of the semantic
//! branch are filtered, folded into threads and capped.

use crate::repo::ids::holds;
use crate::repo::message_rows::{operators_find_their_messages, passes_operators};
use crate::repo::rows::{asks_for, Database, Scope};
use crate::repo::sql::{
    holding, holding_pattern, number_list, write_numbers, Bind, Bound, Conditions, Filter,
};
use crate::text::{
    contains, has_text, i64_text, lit, lowercase, opt, same, signed_decimal, split, split_where,
    split_words, stands_at, starts_with, texts, words,
};
use vstd::prelude::*;
use vstd::string::*;

verus! {

/// A search as it was understood: full-text expressions and operators.
#[derive(Debug)]
pub struct ParsedQuery {
    /// All terms, as a full-text expression.
    pub fts: String,
    /// Any term, as a full-text expression.
    pub fts_or: String,
    /// Excluded terms, as a full-text expression.
    pub fts_not: String,
    pub from: Option<String>,
    pub to: Option<String>,
    pub in_folder: Option<String>,
    pub is_unread: Option<bool>,
    pub is_starred: Option<bool>,
    pub has_attachment: Option<bool>,
    pub account_id: Option<i64>,
    pub terms: Vec<String>,
}

/// Whether a search carries a real matcher.
pub open spec fn selects(q: ParsedQuery) -> bool {
    q.fts@.len() > 0 || q.from is Some || q.to is Some || q.in_folder is Some || q.is_unread
        == Some(true) || q.is_starred == Some(true) || q.has_attachment == Some(true)
}

/// True when the query carries a real matcher (full-text terms or an operator),
/// as opposed to being empty or only account-scoped. Used to decide whether the
/// default Trash/Spam exclusion should apply.
pub fn has_positive_selector(q: &ParsedQuery) -> (r: bool)
    ensures
        r == selects(*q),
{
    !q.fts.as_str().is_empty() || q.from.is_some() || q.to.is_some() || q.in_folder.is_some()
        || q.is_unread == Some(true) || q.is_starred == Some(true) || q.has_attachment == Some(
        true,
    )
}

/// What keeps Trash and Spam out.
pub open spec fn hides_trash_and_spam() -> Seq<char> {
    "NOT EXISTS (SELECT 1 FROM folders f WHERE f.id = m.folder_id AND f.role IN ('trash','spam'))"@
}

impl Filter {
    /// Messages of the account that is searched.
    pub open spec fn searched_account(self, q: ParsedQuery) -> Filter {
        match q.account_id {
            Some(id) => {
                let bound = self.bind(Bound::Int(id));
                bound.and("m.account_id = "@ + bound.param())
            },
            None => self,
        }
    }

    /// Messages of the sender that is searched.
    pub open spec fn searched_from(self, q: ParsedQuery) -> Filter {
        match q.from {
            Some(from) => {
                let bound = self.bind(Bound::Text(holding(lowercase(from@))));
                bound.and(
                    "(LOWER(COALESCE(m.from_addr,'')) LIKE "@ + bound.param()
                        + " OR LOWER(COALESCE(m.from_name,'')) LIKE "@ + bound.param() + ")"@,
                )
            },
            None => self,
        }
    }

    /// Messages to the recipient that is searched.
    pub open spec fn searched_to(self, q: ParsedQuery) -> Filter {
        match q.to {
            Some(to) => {
                let bound = self.bind(Bound::Text(holding(lowercase(to@))));
                bound.and("LOWER(m.to_json) LIKE "@ + bound.param())
            },
            None => self,
        }
    }

    /// Messages of the folder that is searched; without one, a search keeps out of Trash and Spam.
    pub open spec fn searched_folder(self, q: ParsedQuery) -> Filter {
        match q.in_folder {
            Some(role) => {
                let bound = self.bind(Bound::Text(role@));
                bound.and(
                    "EXISTS (SELECT 1 FROM folders f WHERE f.id = m.folder_id AND f.role = "@
                        + bound.param() + ")"@,
                )
            },
            None => if selects(q) {
                self.and(hides_trash_and_spam())
            } else {
                self
            },
        }
    }

    /// One more condition where it is asked for.
    pub open spec fn when(self, asked: Option<bool>, clause: Seq<char>) -> Filter {
        if asked == Some(true) {
            self.and(clause)
        } else {
            self
        }
    }

    /// Messages without the excluded terms.
    pub open spec fn excluded(self, q: ParsedQuery) -> Filter {
        if q.fts_not@.len() > 0 {
            let bound = self.bind(Bound::Text(q.fts_not@));
            bound.and(
                "m.id NOT IN (SELECT rowid FROM messages_fts WHERE messages_fts MATCH "@
                    + bound.param() + ")"@,
            )
        } else {
            self
        }
    }

    /// Messages that the operators of a search pass.
    pub open spec fn operators(self, q: ParsedQuery) -> Filter {
        self.searched_account(q).searched_from(q).searched_to(q).searched_folder(q).when(
            q.is_unread,
            "m.is_read = 0"@,
        ).when(q.is_starred, "m.is_starred = 1"@).when(
            q.has_attachment,
            "m.has_attachments = 1"@,
        ).excluded(q)
    }
}

/// Append `from:`/`to:`/`in:`/`is:`/`has:` predicates over the `m` alias.
/// Parameters are numbered behind those that were bound before, so this composes
/// with whatever the caller bound already.
pub fn append_operator_clauses(q: &ParsedQuery, out: &mut Conditions)
    ensures
        final(out)@ == old(out)@.operators(*q),
        forall|wanted: spec_fn(Database, Scope) -> bool| #[trigger]
            asks_for(old(out)@, wanted) ==> asks_for(
                final(out)@,
                |db: Database, s: Scope| wanted(db, s) && passes_operators(*q, db, s.row("m"@)),
            ),
{
    proof {
        assert forall|wanted: spec_fn(Database, Scope) -> bool| #[trigger]
            asks_for(out@, wanted) implies asks_for(
            out@.operators(*q),
            |db: Database, s: Scope| wanted(db, s) && passes_operators(*q, db, s.row("m"@)),
        ) by {
            operators_find_their_messages(out@, wanted, *q);
        }
    }
    match q.account_id {
        Some(id) => {
            let param = out.bind(Bind::Int(id));
            out.and(lit("m.account_id = ").concat(param.as_str()));
        },
        None => {},
    }
    match &q.from {
        Some(from) => {
            let lower = from.as_str().to_lowercase();
            let param = out.bind(Bind::Text(holding_pattern(lower.as_str())));
            out.and(
                lit("(LOWER(COALESCE(m.from_addr,'')) LIKE ").concat(param.as_str()).concat(
                    " OR LOWER(COALESCE(m.from_name,'')) LIKE ",
                ).concat(param.as_str()).concat(")"),
            );
        },
        None => {},
    }
    match &q.to {
        Some(to) => {
            let lower = to.as_str().to_lowercase();
            let param = out.bind(Bind::Text(holding_pattern(lower.as_str())));
            out.and(lit("LOWER(m.to_json) LIKE ").concat(param.as_str()));
        },
        None => {},
    }
    match &q.in_folder {
        Some(role) => {
            let param = out.bind(Bind::Text(role.clone()));
            out.and(
                lit(
                    "EXISTS (SELECT 1 FROM folders f WHERE f.id = m.folder_id AND f.role = ",
                ).concat(param.as_str()).concat(")"),
            );
        },
        None => {
            // No explicit `in:` scope: keep Trash and Spam out of results, the same
            // way the inbox and folder views do. Without this, triaging a result (trash,
            // spam) leaves it matching the query and it reappears on the next
            // refetch. `in:trash` / `in:spam` set `in_folder` and opt back in.
            // Gated on there being a real matcher so an empty query still returns
            // nothing (rather than every non-trash thread).
            if has_positive_selector(q) {
                out.and(
                    lit(
                        "NOT EXISTS (SELECT 1 FROM folders f WHERE f.id = m.folder_id AND f.role IN ('trash','spam'))",
                    ),
                );
            }
        },
    }
    if q.is_unread == Some(true) {
        out.and(lit("m.is_read = 0"));
    }
    if q.is_starred == Some(true) {
        out.and(lit("m.is_starred = 1"));
    }
    if q.has_attachment == Some(true) {
        out.and(lit("m.has_attachments = 1"));
    }
    // Excluded terms are applied here (not in the MATCH expression) so that they work uniformly
    // whether the message was found by its words or by its meaning, and even when there are no
    // positive terms to hang a `NOT` off.
    if !q.fts_not.as_str().is_empty() {
        let param = out.bind(Bind::Text(q.fts_not.clone()));
        out.and(
            lit("m.id NOT IN (SELECT rowid FROM messages_fts WHERE messages_fts MATCH ").concat(
                param.as_str(),
            ).concat(")"),
        );
    }
}

/// A query and the values of its parameters.
#[derive(Debug)]
pub struct SearchQuery {
    pub sql: String,
    pub bind: Vec<Bind>,
}

/// The model of a [`SearchQuery`].
#[verifier::ext_equal]
pub struct Statement {
    pub sql: Seq<char>,
    pub bind: Seq<Bound>,
}

impl View for SearchQuery {
    type V = Statement;

    open spec fn view(&self) -> Statement {
        Statement { sql: self.sql@, bind: crate::repo::sql::bounds(self.bind@) }
    }
}

/// The ranking of full-text matches. It must be materialized: if the planner flattens it into the
/// outer join, bm25() loses its full-text context and the query fails.
pub open spec fn ranked_matches() -> Seq<char> {
    "WITH f AS MATERIALIZED ( SELECT rowid AS mid, bm25(messages_fts, 4.0, 2.0, 2.0, 1.0) AS fts_rank FROM messages_fts WHERE messages_fts MATCH ?1 ORDER BY fts_rank LIMIT 2000)"@
}

fn ranked_matches_text() -> (r: &'static str)
    ensures
        r@ == ranked_matches(),
{
    "WITH f AS MATERIALIZED ( SELECT rowid AS mid, bm25(messages_fts, 4.0, 2.0, 2.0, 1.0) AS fts_rank FROM messages_fts WHERE messages_fts MATCH ?1 ORDER BY fts_rank LIMIT 2000)"
}

/// The conditions of a search, its full-text expression bound first.
pub open spec fn search_filter(q: ParsedQuery, chronological: bool) -> Filter {
    let matched = if q.fts@.len() == 0 {
        Filter::all()
    } else if chronological {
        Filter::all().bind(Bound::Text(q.fts@)).and("messages_fts MATCH ?1"@)
    } else {
        Filter::all().bind(Bound::Text(q.fts@))
    };
    matched.operators(q)
}

/// The query of the threads that a search finds; none where nothing is searched for.
pub open spec fn thread_search(q: ParsedQuery, cap: i64, chronological: bool) -> Option<Statement> {
    let filter = search_filter(q, chronological);
    let fts = q.fts@.len() > 0;
    if cap <= 0 || (filter.clauses.len() == 0 && !fts) {
        None
    } else if chronological {
        Some(
            Statement {
                sql: " SELECT m.thread_id FROM messages m "@ + (if fts {
                    "JOIN messages_fts ON messages_fts.rowid = m.id"@
                } else {
                    ""@
                }) + " WHERE m.thread_id IS NOT NULL "@ + filter.behind("AND "@)
                    + " ORDER BY m.date DESC, m.thread_id DESC"@,
                bind: filter.bind,
            },
        )
    } else {
        Some(
            Statement {
                sql: (if fts {
                    ranked_matches()
                } else {
                    ""@
                }) + " SELECT m.thread_id, MIN("@ + (if fts {
                    "f.fts_rank"@
                } else {
                    "0.0"@
                }) + ") AS rank, MAX(m.date) AS d FROM messages m "@ + (if fts {
                    "JOIN f ON f.mid = m.id"@
                } else {
                    ""@
                }) + " WHERE m.thread_id IS NOT NULL "@ + filter.behind("AND "@)
                    + " GROUP BY m.thread_id ORDER BY rank ASC, d DESC LIMIT "@ + signed_decimal(
                    cap as int,
                ),
                bind: filter.bind,
            },
        )
    }
}

/// Whether a search asks for nothing: it has no words, neither sought nor excluded, and no operator.
pub open spec fn asks_nothing(q: ParsedQuery) -> bool {
    &&& q.fts@.len() == 0 && q.fts_not@.len() == 0
    &&& q.account_id is None && q.from is None && q.to is None && q.in_folder is None
    &&& q.is_unread != Some(true) && q.is_starred != Some(true) && q.has_attachment != Some(true)
}

/// Whether a text ends with another.
pub open spec fn ends_with_text(s: Seq<char>, end: Seq<char>) -> bool {
    stands_at(s, end, s.len() - end.len())
}

proof fn joined_ends(a: Seq<char>, b: Seq<char>)
    ensures
        ends_with_text(a + b, b),
{
    assert((a + b).subrange(a.len() as int, (a + b).len() as int) =~= b);
}

/// Every operator adds a condition, and takes none away.
proof fn operators_add(f: Filter, q: ParsedQuery)
    ensures
        f.operators(q).clauses.len() >= f.clauses.len(),
        q.fts@.len() == 0 ==> (f.operators(q).clauses.len() == f.clauses.len() <==> asks_nothing(
            q,
        )),
        f.bind.len() > 0 ==> f.operators(q).bind.len() > 0 && f.operators(q).bind[0] == f.bind[0],
{
}

/// A search has no query where nothing is asked for, and its query ends as its order needs.
proof fn searches_end_as_they_should(q: ParsedQuery, cap: i64, chronological: bool)
    ensures
        thread_search(q, cap, chronological) is None <==> cap <= 0 || asks_nothing(q),
        thread_search(q, cap, chronological) is Some ==> {
            let s = thread_search(q, cap, chronological)->0;
            &&& chronological ==> ends_with_text(
                s.sql,
                " ORDER BY m.date DESC, m.thread_id DESC"@,
            )
            &&& !chronological ==> ends_with_text(
                s.sql,
                " GROUP BY m.thread_id ORDER BY rank ASC, d DESC LIMIT "@ + signed_decimal(
                    cap as int,
                ),
            )
            &&& q.fts@.len() > 0 ==> s.bind.len() > 0 && s.bind[0] == Bound::Text(q.fts@)
        },
{
    let filter = search_filter(q, chronological);
    let fts = q.fts@.len() > 0;
    let matched = if !fts {
        Filter::all()
    } else if chronological {
        Filter::all().bind(Bound::Text(q.fts@)).and("messages_fts MATCH ?1"@)
    } else {
        Filter::all().bind(Bound::Text(q.fts@))
    };
    operators_add(matched, q);
    if thread_search(q, cap, chronological) is Some {
        if chronological {
            let head = " SELECT m.thread_id FROM messages m "@ + (if fts {
                "JOIN messages_fts ON messages_fts.rowid = m.id"@
            } else {
                ""@
            }) + " WHERE m.thread_id IS NOT NULL "@ + filter.behind("AND "@);
            joined_ends(head, " ORDER BY m.date DESC, m.thread_id DESC"@);
        } else {
            let head = (if fts {
                ranked_matches()
            } else {
                ""@
            }) + " SELECT m.thread_id, MIN("@ + (if fts {
                "f.fts_rank"@
            } else {
                "0.0"@
            }) + ") AS rank, MAX(m.date) AS d FROM messages m "@ + (if fts {
                "JOIN f ON f.mid = m.id"@
            } else {
                ""@
            }) + " WHERE m.thread_id IS NOT NULL "@ + filter.behind("AND "@);
            let order = " GROUP BY m.thread_id ORDER BY rank ASC, d DESC LIMIT "@;
            let limit = signed_decimal(cap as int);
            assert(head + order + limit =~= head + (order + limit));
            joined_ends(head, order + limit);
        }
    }
}

/// Lexical branch: thread ids ranked by bm25 + recency or ordered strictly by
/// newest match for timeline callers, capped at `cap`. Chronological
/// callers must retain every full-text match; applying the relevance candidate
/// cap first could hide a newer, weaker match. Walking matches newest-first and
/// keeping the first of each thread avoids a temporary table: the first occurrence of each thread
/// is necessarily its newest matching message.
pub fn structured_thread_query(q: &ParsedQuery, cap: i64, chronological: bool) -> (r: Option<
    SearchQuery,
>)
    ensures
        match thread_search(*q, cap, chronological) {
            Some(s) => r is Some && r->0@ == s,
            None => r is None,
        },
        r is None <==> cap <= 0 || asks_nothing(*q),
        r is Some && chronological ==> ends_with_text(
            r->0.sql@,
            " ORDER BY m.date DESC, m.thread_id DESC"@,
        ),
        r is Some && !chronological ==> ends_with_text(
            r->0.sql@,
            " GROUP BY m.thread_id ORDER BY rank ASC, d DESC LIMIT "@ + signed_decimal(cap as int),
        ),
        r is Some && q.fts@.len() > 0 ==> r->0@.bind.len() > 0 && r->0@.bind[0] == Bound::Text(
            q.fts@,
        ),
{
    proof {
        searches_end_as_they_should(*q, cap, chronological);
    }
    if cap <= 0 {
        return None;
    }
    let fts = !q.fts.as_str().is_empty();
    let mut filter = Conditions::new();
    if fts {
        let _ = filter.bind(Bind::Text(q.fts.clone()));
        if chronological {
            filter.and(lit("messages_fts MATCH ?1"));
        }
    }
    append_operator_clauses(q, &mut filter);
    proof {
        assert(filter@.clauses.len() == filter.clauses@.len());
        assert(q.fts@.len() == 0 <==> !fts);
    }
    if filter.clauses.len() == 0 && !fts {
        return None;
    }
    let rest = filter.behind("AND ");
    let sql = if chronological {
        lit(" SELECT m.thread_id FROM messages m ").concat(
            if fts {
                "JOIN messages_fts ON messages_fts.rowid = m.id"
            } else {
                ""
            },
        ).concat(" WHERE m.thread_id IS NOT NULL ").concat(rest.as_str()).concat(
            " ORDER BY m.date DESC, m.thread_id DESC",
        )
    } else {
        let limit = i64_text(cap);
        lit(
            if fts {
                ranked_matches_text()
            } else {
                ""
            },
        ).concat(" SELECT m.thread_id, MIN(").concat(
            if fts {
                "f.fts_rank"
            } else {
                "0.0"
            },
        ).concat(") AS rank, MAX(m.date) AS d FROM messages m ").concat(
            if fts {
                "JOIN f ON f.mid = m.id"
            } else {
                ""
            },
        ).concat(" WHERE m.thread_id IS NOT NULL ").concat(rest.as_str()).concat(
            " GROUP BY m.thread_id ORDER BY rank ASC, d DESC LIMIT ",
        ).concat(limit.as_str())
    };
    Some(SearchQuery { sql, bind: filter.bind })
}

/// The query of the messages that a search finds; none where nothing is searched for.
pub open spec fn message_search(q: ParsedQuery, cap: i64) -> Option<Statement> {
    let filter = search_filter(q, false);
    let fts = q.fts@.len() > 0;
    if filter.clauses.len() == 0 && !fts {
        None
    } else {
        Some(
            Statement {
                sql: (if fts {
                    ranked_matches()
                } else {
                    ""@
                }) + " SELECT m.id FROM messages m "@ + (if fts {
                    "JOIN f ON f.mid = m.id"@
                } else {
                    ""@
                }) + " WHERE m.thread_id IS NOT NULL "@ + filter.behind("AND "@) + " ORDER BY "@
                    + (if fts {
                    "f.fts_rank"@
                } else {
                    "0.0"@
                }) + " ASC, m.date DESC LIMIT "@ + signed_decimal(cap as int),
                bind: filter.bind,
            },
        )
    }
}

/// Lexical branch at message granularity: message ids ranked by bm25 + recency
/// (or recency alone when operators-only), best first, capped, so that callers can retrieve and
/// cite specific emails.
pub fn structured_message_query(q: &ParsedQuery, cap: i64) -> (r: Option<SearchQuery>)
    ensures
        match message_search(*q, cap) {
            Some(s) => r is Some && r->0@ == s,
            None => r is None,
        },
{
    let fts = !q.fts.as_str().is_empty();
    let mut filter = Conditions::new();
    if fts {
        let _ = filter.bind(Bind::Text(q.fts.clone()));
    }
    append_operator_clauses(q, &mut filter);
    proof {
        assert(filter@.clauses.len() == filter.clauses@.len());
        assert(q.fts@.len() == 0 <==> !fts);
    }
    if filter.clauses.len() == 0 && !fts {
        return None;
    }
    let rest = filter.behind("AND ");
    let limit = i64_text(cap);
    let sql = lit(
        if fts {
            ranked_matches_text()
        } else {
            ""
        },
    ).concat(" SELECT m.id FROM messages m ").concat(
        if fts {
            "JOIN f ON f.mid = m.id"
        } else {
            ""
        },
    ).concat(" WHERE m.thread_id IS NOT NULL ").concat(rest.as_str()).concat(" ORDER BY ").concat(
        if fts {
            "f.fts_rank"
        } else {
            "0.0"
        },
    ).concat(" ASC, m.date DESC LIMIT ").concat(limit.as_str());
    Some(SearchQuery { sql, bind: filter.bind })
}

/// The query of those messages among `ids` that pass the operators of a search. Ids are trusted
/// (from our own vector index), so they are inlined rather than bound.
pub fn allowed_query(q: &ParsedQuery, ids: &Vec<i64>) -> (r: Option<SearchQuery>)
    ensures
        if ids@.len() == 0 {
            r is None
        } else {
            let filter = Filter::all().operators(*q);
            r is Some && r->0@ == (Statement {
                sql:
                    "SELECT m.id, m.thread_id FROM messages m WHERE m.thread_id IS NOT NULL AND m.id IN ("@
                    + number_list(ids@) + ") "@ + filter.behind("AND "@),
                bind: filter.bind,
            })
        },
{
    if ids.len() == 0 {
        return None;
    }
    let mut filter = Conditions::new();
    append_operator_clauses(q, &mut filter);
    let rest = filter.behind("AND ");
    let list = write_numbers(ids);
    let sql = lit(
        "SELECT m.id, m.thread_id FROM messages m WHERE m.thread_id IS NOT NULL AND m.id IN (",
    ).concat(list.as_str()).concat(") ").concat(rest.as_str());
    Some(SearchQuery { sql, bind: filter.bind })
}

/// How many candidate thread ids each branch feeds into fusion for a given
/// result `limit`.
pub fn candidate_cap(limit: i64) -> (r: usize)
    requires
        limit * 4 <= usize::MAX,
    ensures
        ({
            let wanted: int = if limit > 1 {
                limit * 4
            } else {
                4
            };
            r == if wanted < 50 {
                50
            } else if wanted > 400 {
                400
            } else {
                wanted
            }
        }),
{
    let at_least: usize = if limit > 1 {
        limit as usize
    } else {
        1
    };
    let wanted: usize = at_least * 4;
    if wanted < 50 {
        50
    } else if wanted > 400 {
        400
    } else {
        wanted
    }
}

/// How many results are shown for a `limit`.
pub fn shown_results(limit: i64) -> (r: usize)
    requires
        limit <= usize::MAX,
    ensures
        r == if limit > 1 {
            limit as int
        } else {
            1
        },
{
    if limit > 1 {
        limit as usize
    } else {
        1
    }
}

/// Whether a search that found nothing is tried once more with any of its terms.
pub fn relaxes(q: &ParsedQuery, found: usize) -> (r: bool)
    ensures
        r == (found == 0 && q.fts@.len() > 0 && q.fts_or@ != q.fts@),
{
    found == 0 && !q.fts.as_str().is_empty() && !same(q.fts_or.as_str(), q.fts.as_str())
}

fn copy_text(o: &Option<String>) -> (r: Option<String>)
    ensures
        r == *o,
{
    match o {
        Some(s) => Some(s.clone()),
        None => None,
    }
}

/// A search for any of the terms.
pub fn relaxed(q: &ParsedQuery) -> (r: ParsedQuery)
    ensures
        texts(r.terms@) == texts(q.terms@),
        r == (ParsedQuery { fts: q.fts_or, terms: r.terms, ..*q }),
{
    let mut terms: Vec<String> = Vec::new();
    let mut i: usize = 0;
    while i < q.terms.len()
        invariant
            i <= q.terms.len(),
            terms@.len() == i,
            forall|k: int| 0 <= k < i ==> (#[trigger] terms@[k])@ == q.terms@[k]@,
        decreases q.terms.len() - i,
    {
        terms.push(q.terms[i].clone());
        i = i + 1;
    }
    proof {
        assert(texts(terms@) =~= texts(q.terms@));
    }
    ParsedQuery {
        fts: q.fts_or.clone(),
        fts_or: q.fts_or.clone(),
        fts_not: q.fts_not.clone(),
        from: copy_text(&q.from),
        to: copy_text(&q.to),
        in_folder: copy_text(&q.in_folder),
        is_unread: q.is_unread,
        is_starred: q.is_starred,
        has_attachment: q.has_attachment,
        account_id: q.account_id,
        terms,
    }
}

/// The first occurrences of ids, as many as fit. One always fits.
pub open spec fn first_distinct(ids: Seq<i64>, cap: int) -> Seq<i64>
    decreases ids.len(),
{
    if ids.len() == 0 {
        Seq::empty()
    } else {
        let before = first_distinct(ids.drop_last(), cap);
        if (before.len() > 0 && before.len() >= cap) || before.contains(ids.last()) {
            before
        } else {
            before.push(ids.last())
        }
    }
}

/// Keep the first occurrence of each id, at most `cap` of them.
pub fn distinct_ids(ids: &Vec<i64>, cap: usize) -> (r: Vec<i64>)
    ensures
        r@ == first_distinct(ids@, cap as int),
{
    let mut out: Vec<i64> = Vec::new();
    let mut i: usize = 0;
    proof {
        assert(ids@.take(0) =~= Seq::<i64>::empty());
    }
    while i < ids.len()
        invariant
            i <= ids.len(),
            out@ == first_distinct(ids@.take(i as int), cap as int),
        decreases ids.len() - i,
    {
        proof {
            assert(ids@.take(i + 1).drop_last() =~= ids@.take(i as int));
            assert(ids@.take(i + 1).last() == ids@[i as int]);
        }
        let full = out.len() > 0 && out.len() >= cap;
        if !full && !holds(&out, ids[i]) {
            out.push(ids[i]);
        }
        i = i + 1;
    }
    proof {
        assert(ids@.take(ids@.len() as int) =~= ids@);
    }
    out
}

/// What is shown was found, nothing of it twice, and no more than was asked for; where there was
/// room, everything that was found is shown.
pub proof fn results_are_distinct(ids: Seq<i64>, cap: int)
    requires
        cap > 0,
    ensures
        first_distinct(ids, cap).no_duplicates(),
        first_distinct(ids, cap).len() <= cap,
        forall|i: int|
            0 <= i < first_distinct(ids, cap).len() ==> ids.contains(
                #[trigger] first_distinct(ids, cap)[i],
            ),
        first_distinct(ids, cap).len() < cap ==> forall|i: int|
            0 <= i < ids.len() ==> first_distinct(ids, cap).contains(#[trigger] ids[i]),
    decreases ids.len(),
{
    if ids.len() > 0 {
        let head = ids.drop_last();
        let before = first_distinct(head, cap);
        let after = first_distinct(ids, cap);
        results_are_distinct(head, cap);
        assert forall|i: int| 0 <= i < after.len() implies ids.contains(#[trigger] after[i]) by {
            if i < before.len() {
                assert(after[i] == before[i]);
                assert(head.contains(before[i]));
                let k = choose|k: int| 0 <= k < head.len() && head[k] == before[i];
                assert(ids[k] == after[i]);
            } else {
                assert(ids[ids.len() - 1] == after[i]);
            }
        }
        if after.len() < cap {
            assert forall|i: int| 0 <= i < ids.len() implies after.contains(#[trigger] ids[i]) by {
                if i < head.len() {
                    assert(before.contains(head[i]));
                    let k = choose|k: int| 0 <= k < before.len() && before[k] == head[i];
                    assert(after[k] == ids[i]);
                } else if before.contains(ids.last()) {
                } else {
                    assert(after[after.len() - 1] == ids[i]);
                }
            }
        }
    }
}

/// A message and its thread.
#[derive(Debug, Clone, Copy)]
pub struct MessageThread {
    pub message_id: i64,
    pub thread_id: i64,
}

/// The thread of a message, where the message was allowed.
pub open spec fn thread_of(allowed: Seq<MessageThread>, message_id: i64) -> Option<i64>
    decreases allowed.len(),
{
    if allowed.len() == 0 {
        None
    } else if allowed.last().message_id == message_id {
        Some(allowed.last().thread_id)
    } else {
        thread_of(allowed.drop_last(), message_id)
    }
}

fn find_thread(allowed: &Vec<MessageThread>, message_id: i64) -> (r: Option<i64>)
    ensures
        r == thread_of(allowed@, message_id),
{
    let mut i: usize = allowed.len();
    proof {
        assert(allowed@.take(i as int) =~= allowed@);
    }
    while i > 0
        invariant
            i <= allowed.len(),
            thread_of(allowed@, message_id) == thread_of(allowed@.take(i as int), message_id),
        decreases i,
    {
        i = i - 1;
        proof {
            assert(allowed@.take(i + 1).drop_last() =~= allowed@.take(i as int));
            assert(allowed@.take(i + 1).last() == allowed@[i as int]);
        }
        if allowed[i].message_id == message_id {
            return Some(allowed[i].thread_id);
        }
    }
    None
}

/// The subset of `ids` (input order preserved) whose messages satisfy the
/// query's operator filters. Used to constrain semantic vector hits by
/// from:/to:/is:/etc. before fusing.
pub fn allowed_message_ids(ids: &Vec<i64>, allowed: &Vec<MessageThread>) -> (r: Vec<i64>)
    ensures
        r@ == ids@.filter(|id: i64| thread_of(allowed@, id) is Some),
{
    let ghost p = |id: i64| thread_of(allowed@, id) is Some;
    let mut out: Vec<i64> = Vec::new();
    let mut i: usize = 0;
    proof {
        assert(ids@.take(0) =~= Seq::<i64>::empty());
        reveal(Seq::filter);
    }
    while i < ids.len()
        invariant
            i <= ids.len(),
            p == (|id: i64| thread_of(allowed@, id) is Some),
            out@ == ids@.take(i as int).filter(p),
        decreases ids.len() - i,
    {
        proof {
            assert(ids@.take(i + 1) =~= ids@.take(i as int).push(ids@[i as int]));
            crate::text::filter_push(ids@.take(i as int), ids@[i as int], p);
        }
        if find_thread(allowed, ids[i]).is_some() {
            out.push(ids[i]);
        }
        i = i + 1;
    }
    proof {
        assert(ids@.take(ids@.len() as int) =~= ids@);
    }
    out
}

/// The threads of the hits that were allowed, in order.
pub open spec fn hit_threads(hits: Seq<i64>, allowed: Seq<MessageThread>) -> Seq<i64>
    decreases hits.len(),
{
    if hits.len() == 0 {
        Seq::empty()
    } else {
        let before = hit_threads(hits.drop_last(), allowed);
        match thread_of(allowed, hits.last()) {
            Some(t) => before.push(t),
            None => before,
        }
    }
}

/// The thread of an allowed message is the one that it was allowed with.
proof fn thread_was_allowed(allowed: Seq<MessageThread>, message_id: i64)
    ensures
        match thread_of(allowed, message_id) {
            Some(t) => exists|k: int|
                0 <= k < allowed.len() && (#[trigger] allowed[k]).message_id == message_id
                    && allowed[k].thread_id == t,
            None => forall|k: int|
                0 <= k < allowed.len() ==> (#[trigger] allowed[k]).message_id != message_id,
        },
    decreases allowed.len(),
{
    if allowed.len() > 0 {
        let head = allowed.drop_last();
        let last = allowed.len() - 1;
        thread_was_allowed(head, message_id);
        assert(allowed[last] == allowed.last());
        assert forall|k: int| 0 <= k < head.len() implies head[k] == #[trigger] allowed[k] by {}
        if allowed.last().message_id != message_id && thread_of(head, message_id) is Some {
            let t = thread_of(head, message_id)->0;
            let k = choose|k: int|
                0 <= k < head.len() && (#[trigger] head[k]).message_id == message_id
                    && head[k].thread_id == t;
            assert(allowed[k].thread_id == t);
        }
    }
}

/// The threads that a search by meaning finds are those of the hits that pass its operators, in the
/// order of the hits.
pub proof fn hits_lead_to_their_threads(hits: Seq<i64>, allowed: Seq<MessageThread>)
    ensures
        ({
            let kept = hits.filter(|id: i64| thread_of(allowed, id) is Some);
            let threads = hit_threads(hits, allowed);
            &&& threads.len() == kept.len()
            &&& forall|i: int|
                #![trigger threads[i]]
                0 <= i < threads.len() ==> exists|k: int|
                    0 <= k < allowed.len() && (#[trigger] allowed[k]).message_id == kept[i]
                        && allowed[k].thread_id == threads[i]
        }),
    decreases hits.len(),
{
    reveal(Seq::filter);
    if hits.len() > 0 {
        let head = hits.drop_last();
        hits_lead_to_their_threads(head, allowed);
        thread_was_allowed(allowed, hits.last());
        let p = |id: i64| thread_of(allowed, id) is Some;
        let kept = hits.filter(p);
        let before = head.filter(p);
        let threads = hit_threads(hits, allowed);
        assert forall|i: int| 0 <= i < before.len() implies kept[i] == before[i] && threads[i]
            == hit_threads(head, allowed)[i] by {}
    }
}

/// Semantic branch: fold message-level vector hits (already score-sorted) into
/// an operator-filtered, best-first, de-duplicated thread-id list.
pub fn vector_thread_ids(hits: &Vec<i64>, allowed: &Vec<MessageThread>, cap: usize) -> (r: Vec<i64>)
    ensures
        r@ == first_distinct(hit_threads(hits@, allowed@), cap as int),
{
    let mut threads: Vec<i64> = Vec::new();
    let mut i: usize = 0;
    proof {
        assert(hits@.take(0) =~= Seq::<i64>::empty());
    }
    while i < hits.len()
        invariant
            i <= hits.len(),
            threads@ == hit_threads(hits@.take(i as int), allowed@),
        decreases hits.len() - i,
    {
        proof {
            assert(hits@.take(i + 1).drop_last() =~= hits@.take(i as int));
            assert(hits@.take(i + 1).last() == hits@[i as int]);
        }
        match find_thread(allowed, hits[i]) {
            Some(t) => threads.push(t),
            None => {},
        }
        i = i + 1;
    }
    proof {
        assert(hits@.take(hits@.len() as int) =~= hits@);
    }
    distinct_ids(&threads, cap)
}

/// How a sender matches one term of a search.
#[derive(Debug, Clone, Copy, PartialEq, Eq, Structural)]
pub enum TermMatch {
    /// The term starts a word of the name or a part of the address's local part.
    Start,
    /// The term stands somewhere in the name or the address.
    Within,
    Nowhere,
}

/// Whether one of the texts starts with `t`.
pub open spec fn one_starts_with(parts: Seq<Seq<char>>, t: Seq<char>) -> bool {
    exists|i: int| 0 <= i < parts.len() && stands_at(#[trigger] parts[i], t, 0)
}

/// What stands before the first `@`.
pub open spec fn local_part(addr: Seq<char>) -> Seq<char> {
    split(addr, |c: char| c == '@')[0]
}

/// How a sender matches a term, both folded.
pub open spec fn term_match(t: Seq<char>, name: Seq<char>, addr: Seq<char>) -> TermMatch {
    if one_starts_with(words(name), t) || one_starts_with(
        split(local_part(addr), |c: char| c == '.' || c == '-' || c == '_'),
        t,
    ) {
        TermMatch::Start
    } else if has_text(name, t) || has_text(addr, t) {
        TermMatch::Within
    } else {
        TermMatch::Nowhere
    }
}

fn any_starts_with(parts: &Vec<String>, t: &str) -> (r: bool)
    ensures
        r == one_starts_with(texts(parts@), t@),
{
    let ghost all = texts(parts@);
    let mut i: usize = 0;
    while i < parts.len()
        invariant
            i <= parts.len(),
            all == texts(parts@),
            forall|j: int| 0 <= j < i ==> !stands_at(#[trigger] all[j], t@, 0),
        decreases parts.len() - i,
    {
        if starts_with(parts[i].as_str(), t) {
            proof {
                assert(stands_at(all[i as int], t@, 0));
            }
            return true;
        }
        i = i + 1;
    }
    false
}

/// How a sender matches the query's free-text terms, each of them. A term that starts a name word
/// or the address local-part matches fully
/// ("be" → "Bé Dọn Dẹp", "be@group.vn"); a mere substring matches weakly
/// ("be" somewhere inside "noreply@bendover.com"). Name and address are folded, as the terms are.
pub fn sender_match(terms: &Vec<String>, name: &str, addr: &str) -> (r: Vec<TermMatch>)
    ensures
        r@ == texts(terms@).map_values(|t: Seq<char>| term_match(t, name@, addr@)),
{
    let name_words = split_words(name);
    let at_parts = crate::text::split_char(addr, '@');
    proof {
        crate::text::split_len(addr@, |c: char| c == '@');
        assert(texts(at_parts@)[0] == at_parts@[0]@);
    }
    let is_break = |c: char| -> (r: bool)
        ensures
            r == (c == '.' || c == '-' || c == '_'),
        { c == '.' || c == '-' || c == '_' };
    let parts = split_where(
        at_parts[0].as_str(),
        is_break,
        Ghost(|c: char| c == '.' || c == '-' || c == '_'),
    );
    let mut out: Vec<TermMatch> = Vec::new();
    let mut i: usize = 0;
    while i < terms.len()
        invariant
            i <= terms.len(),
            out@.len() == i,
            texts(name_words@) == words(name@),
            texts(parts@) == split(local_part(addr@), |c: char| c == '.' || c == '-' || c == '_'),
            forall|k: int|
                0 <= k < i ==> #[trigger] out@[k] == term_match(terms@[k]@, name@, addr@),
        decreases terms.len() - i,
    {
        let t = terms[i].as_str();
        let found = if any_starts_with(&name_words, t) || any_starts_with(&parts, t) {
            TermMatch::Start
        } else if contains(name, t) || contains(addr, t) {
            TermMatch::Within
        } else {
            TermMatch::Nowhere
        };
        out.push(found);
        i = i + 1;
    }
    proof {
        assert(out@ =~= texts(terms@).map_values(|t: Seq<char>| term_match(t, name@, addr@)));
    }
    out
}

/// What is known of a message that was found: its thread, its moment, and how often the user and
/// its sender write to each other.
#[derive(Debug, Clone, Copy)]
pub struct MessageSignal {
    pub thread_id: i64,
    pub date: i64,
    pub affinity: i64,
}

/// What is known of a thread that was found: its latest moment and its closest sender.
#[derive(Debug, Clone, Copy, PartialEq, Eq, Structural)]
pub struct ThreadSignal {
    pub date: i64,
    pub affinity: i64,
}

/// The greater of two.
pub open spec fn greater(a: i64, b: i64) -> i64 {
    if a >= b {
        a
    } else {
        b
    }
}

/// What the messages that were found say of a thread.
pub open spec fn signal_of(rows: Seq<MessageSignal>, thread_id: i64) -> Option<ThreadSignal>
    decreases rows.len(),
{
    if rows.len() == 0 {
        None
    } else {
        let before = signal_of(rows.drop_last(), thread_id);
        let row = rows.last();
        if row.thread_id != thread_id {
            before
        } else {
            match before {
                Some(s) => Some(
                    ThreadSignal {
                        date: greater(s.date, row.date),
                        affinity: greater(s.affinity, row.affinity),
                    },
                ),
                None => Some(ThreadSignal { date: row.date, affinity: greater(0, row.affinity) }),
            }
        }
    }
}

/// A thread is as recent as the newest of its messages that were found and as close as the closest of
/// their senders; nothing is known of a thread of which no message was found.
pub proof fn signals_are_the_strongest(rows: Seq<MessageSignal>, thread_id: i64)
    ensures
        match signal_of(rows, thread_id) {
            Some(s) => {
                &&& forall|i: int|
                    0 <= i < rows.len() && (#[trigger] rows[i]).thread_id == thread_id
                        ==> rows[i].date <= s.date && rows[i].affinity <= s.affinity
                &&& exists|i: int|
                    0 <= i < rows.len() && (#[trigger] rows[i]).thread_id == thread_id
                        && rows[i].date == s.date
                &&& s.affinity >= 0
                &&& s.affinity > 0 ==> exists|i: int|
                    0 <= i < rows.len() && (#[trigger] rows[i]).thread_id == thread_id
                        && rows[i].affinity == s.affinity
            },
            None => forall|i: int|
                0 <= i < rows.len() ==> (#[trigger] rows[i]).thread_id != thread_id,
        },
    decreases rows.len(),
{
    if rows.len() > 0 {
        let head = rows.drop_last();
        let last = rows.len() - 1;
        signals_are_the_strongest(head, thread_id);
        assert forall|i: int| 0 <= i < last implies head[i] == #[trigger] rows[i] by {}
        if let Some(s) = signal_of(head, thread_id) {
            let d = choose|i: int|
                0 <= i < head.len() && (#[trigger] head[i]).thread_id == thread_id && head[i].date
                    == s.date;
            assert(rows[d] == head[d]);
            if s.affinity > 0 {
                let a = choose|i: int|
                    0 <= i < head.len() && (#[trigger] head[i]).thread_id == thread_id
                        && head[i].affinity == s.affinity;
                assert(rows[a] == head[a]);
            }
        }
        assert(rows[last] == rows.last());
    }
}

/// Fold what is known of messages into what is known of their thread.
pub fn thread_signal(rows: &Vec<MessageSignal>, thread_id: i64) -> (r: Option<ThreadSignal>)
    ensures
        r == signal_of(rows@, thread_id),
{
    let mut found: Option<ThreadSignal> = None;
    let mut i: usize = 0;
    proof {
        assert(rows@.take(0) =~= Seq::<MessageSignal>::empty());
    }
    while i < rows.len()
        invariant
            i <= rows.len(),
            found == signal_of(rows@.take(i as int), thread_id),
        decreases rows.len() - i,
    {
        proof {
            assert(rows@.take(i + 1).drop_last() =~= rows@.take(i as int));
            assert(rows@.take(i + 1).last() == rows@[i as int]);
        }
        let row = rows[i];
        if row.thread_id == thread_id {
            let (date, affinity): (i64, i64) = match found {
                Some(s) => (s.date, s.affinity),
                None => (i64::MIN, 0),
            };
            found =
            Some(
                ThreadSignal {
                    date: if date >= row.date {
                        date
                    } else {
                        row.date
                    },
                    affinity: if affinity >= row.affinity {
                        affinity
                    } else {
                        row.affinity
                    },
                },
            );
        }
        i = i + 1;
    }
    proof {
        assert(rows@.take(rows@.len() as int) =~= rows@);
    }
    found
}

/// A search keeps Trash and Spam out exactly where it looks for something and names no folder.
pub proof fn trash_and_spam_are_hidden_unless_scoped(q: ParsedQuery, before: Filter)
    requires
        !before.clauses.contains(hides_trash_and_spam()),
    ensures
        selects(q) && q.in_folder is None <==> before.searched_folder(q).clauses.contains(
            hides_trash_and_spam(),
        ),
        selects(q) && q.in_folder is None ==> before.operators(q).clauses.contains(
            hides_trash_and_spam(),
        ),
{
    reveal_strlit(
        "NOT EXISTS (SELECT 1 FROM folders f WHERE f.id = m.folder_id AND f.role IN ('trash','spam'))",
    );
    reveal_strlit("EXISTS (SELECT 1 FROM folders f WHERE f.id = m.folder_id AND f.role = ");
    let scoped = before.searched_folder(q);
    if q.in_folder is Some {
        assert(scoped.clauses.last()[0] == 'E');
        assert(hides_trash_and_spam()[0] == 'N');
        if scoped.clauses.contains(hides_trash_and_spam()) {
            let k = choose|k: int|
                0 <= k < scoped.clauses.len() && scoped.clauses[k] == hides_trash_and_spam();
            assert(before.clauses[k] == hides_trash_and_spam());
        }
    } else if selects(q) {
        assert(scoped.clauses[before.clauses.len() as int] == hides_trash_and_spam());
        let folder = before.searched_account(q).searched_from(q).searched_to(q).searched_folder(q);
        let at = folder.clauses.len() - 1;
        assert(folder.clauses[at] == hides_trash_and_spam());
        assert(before.operators(q).clauses[at] == hides_trash_and_spam());
    }
}

} // verus!
