//! What conditions mean: the part of SQL that they are written in, as expressions over rows.

use crate::repo::sql::{holding, like_escaped, parameter, Bound, Filter};
use crate::text::{
    ascii_lower, decimal, has_text, replaced, signed_decimal, stands_at, text_order,
};
use vstd::prelude::*;
use vstd::string::*;

verus! {

/// A value in a row.
pub enum Cell {
    Null,
    Int(int),
    Text(Seq<char>),
}

/// A row of a table, by the names of its columns.
pub struct Row {
    pub cells: Map<Seq<char>, Cell>,
}

impl Row {
    /// The value in a column.
    pub open spec fn at(self, column: Seq<char>) -> Cell {
        self.cells[column]
    }
}

/// The rows that a condition speaks of, by the names that it has for them.
pub struct Scope {
    pub rows: Map<Seq<char>, Row>,
}

impl Scope {
    /// The row of a name.
    pub open spec fn row(self, alias: Seq<char>) -> Row {
        self.rows[alias]
    }

    /// What can be asked of any rows, so that one can look for them.
    pub open spec fn is_scope(self) -> bool {
        true
    }

    /// One more row, under a name.
    pub open spec fn with(self, alias: Seq<char>, row: Row) -> Scope {
        Scope { rows: self.rows.insert(alias, row) }
    }
}

/// What is stored: the rows of every table, and the messages that every full-text expression finds.
pub struct Database {
    pub tables: Map<Seq<char>, Set<Row>>,
    pub matches: Map<Seq<char>, Set<Cell>>,
}

impl Database {
    /// Whether a row stands in a table.
    pub open spec fn has(self, table: Seq<char>, row: Row) -> bool {
        self.tables[table].contains(row)
    }

    /// Whether a full-text expression finds the message of an id.
    pub open spec fn finds(self, expression: Seq<char>, id: Cell) -> bool {
        self.matches[expression].contains(id)
    }
}

/// The value that is bound to a parameter, as a value in a row.
pub open spec fn cell_of(b: Bound) -> Cell {
    match b {
        Bound::Int(n) => Cell::Int(n as int),
        Bound::Text(s) => Cell::Text(s),
    }
}

/// The text of a value; `None` of no value.
pub open spec fn cell_text(c: Cell) -> Option<Seq<char>> {
    match c {
        Cell::Null => None,
        Cell::Int(n) => Some(signed_decimal(n)),
        Cell::Text(s) => Some(s),
    }
}

/// A text with its ASCII letters in lower case.
pub open spec fn lower(s: Seq<char>) -> Seq<char> {
    s.map_values(|c: char| ascii_lower(c))
}

/// Whether two values are there and the same.
pub open spec fn same_cell(a: Cell, b: Cell) -> bool {
    !(a is Null) && a == b
}

/// Whether a text matches a pattern of LIKE: `%` stands for any text, `_` for any character, an ASCII
/// letter for itself in either case, and every other character for itself.
pub open spec fn like(s: Seq<char>, pattern: Seq<char>) -> bool
    decreases pattern.len(), s.len(),
{
    if pattern.len() == 0 {
        s.len() == 0
    } else if pattern[0] == '%' {
        like(s, pattern.skip(1)) || (s.len() > 0 && like(s.skip(1), pattern))
    } else if pattern[0] == '_' {
        s.len() > 0 && like(s.skip(1), pattern.skip(1))
    } else {
        s.len() > 0 && ascii_lower(s[0]) == ascii_lower(pattern[0]) && like(
            s.skip(1),
            pattern.skip(1),
        )
    }
}

/// Whether a text matches a pattern of LIKE in which the character behind `\` stands for itself.
pub open spec fn like_with_escapes(s: Seq<char>, pattern: Seq<char>) -> bool
    decreases pattern.len(), s.len(),
{
    if pattern.len() == 0 {
        s.len() == 0
    } else if pattern[0] == '%' {
        like_with_escapes(s, pattern.skip(1)) || (s.len() > 0 && like_with_escapes(
            s.skip(1),
            pattern,
        ))
    } else if pattern[0] == '_' {
        s.len() > 0 && like_with_escapes(s.skip(1), pattern.skip(1))
    } else if pattern[0] == '\\' {
        pattern.len() >= 2 && s.len() > 0 && ascii_lower(s[0]) == ascii_lower(pattern[1])
            && like_with_escapes(s.skip(1), pattern.skip(2))
    } else {
        s.len() > 0 && ascii_lower(s[0]) == ascii_lower(pattern[0]) && like_with_escapes(
            s.skip(1),
            pattern.skip(1),
        )
    }
}

/// A value in a condition.
pub enum Term {
    /// The value in a column of the row of a name.
    Column(Seq<char>, Seq<char>),
    /// The value that is bound to a parameter.
    Param(int, Bound),
    Number(nat),
    Quoted(Seq<char>),
    /// The value in lower case.
    Lower(Box<Term>),
    /// The value, or an empty text where there is none.
    OrEmpty(Box<Term>),
    /// The value in a column of the contact that is looked at.
    Own(Seq<char>),
    /// The value, or another where there is none.
    OrElse(Box<Term>, Box<Term>),
    /// The value, or another where there is none or an empty text.
    Filled(Box<Term>, Box<Term>),
    /// Two texts, one behind the other.
    Glued(Box<Term>, Box<Term>),
}

/// A condition. Some forms can be written with blanks inside of their parentheses.
pub enum Cond {
    Equal(Term, Term),
    Below(Term, Term),
    Above(Term, Term),
    Missing(Term),
    Given(Term),
    Like(Term, Term),
    /// A text matches a pattern in which a wildcard behind `\` stands for itself.
    Holds(Term, Term),
    /// A text comes behind another, without regard to the case of ASCII letters.
    BehindText(Term, Term),
    /// Two texts are the same, without regard to the case of ASCII letters.
    SameText(Term, Term),
    OneOfTwo(Term, Seq<char>, Seq<char>),
    Both(Box<Cond>, Box<Cond>),
    Either(Box<Cond>, Box<Cond>),
    Not(Box<Cond>),
    Group(bool, Box<Cond>),
    /// Rows of the source meet the condition.
    Exists(bool, Box<Source>, Box<Cond>),
    /// The column holds the value in the last of those rows of a table that meet the condition,
    /// by their date and then by their id.
    Newest(Seq<char>, Seq<char>, Seq<char>, Box<Cond>, Term),
    /// The value is no id of a message that the full-text expression finds.
    Unmatched(Term, Term),
}

/// Rows of tables, each under a name.
pub enum Source {
    Table(Seq<char>, Seq<char>),
    /// Rows of one more table where they meet the condition.
    Join(Box<Source>, Seq<char>, Seq<char>, Box<Cond>),
}

impl Term {
    /// How the value is written.
    pub open spec fn text(self) -> Seq<char>
        decreases self,
    {
        match self {
            Term::Column(alias, name) => alias + "."@ + name,
            Term::Param(n, _) => parameter(n),
            Term::Number(n) => decimal(n),
            Term::Quoted(s) => "'"@ + s + "'"@,
            Term::Lower(t) => "LOWER("@ + t.text() + ")"@,
            Term::OrEmpty(t) => "COALESCE("@ + t.text() + ",'')"@,
            Term::Own(name) => name,
            Term::OrElse(a, b) => "COALESCE("@ + a.text() + ", "@ + b.text() + ")"@,
            Term::Filled(a, b) => "CASE WHEN "@ + a.text() + " IS NULL OR "@ + a.text()
                + " = '' THEN "@ + b.text() + " ELSE "@ + a.text() + " END"@,
            Term::Glued(a, b) => a.text() + " || "@ + b.text(),
        }
    }

    /// Whether the parameters are bound to the values that they stand for.
    pub open spec fn fits(self, bind: Seq<Bound>) -> bool
        decreases self,
    {
        match self {
            Term::Param(n, value) => 1 <= n <= bind.len() && bind[n - 1] == value,
            Term::Lower(t) => t.fits(bind),
            Term::OrEmpty(t) => t.fits(bind),
            Term::OrElse(a, b) => a.fits(bind) && b.fits(bind),
            Term::Filled(a, b) => a.fits(bind) && b.fits(bind),
            Term::Glued(a, b) => a.fits(bind) && b.fits(bind),
            _ => true,
        }
    }

    /// The value.
    pub open spec fn value(self, s: Scope) -> Cell
        decreases self,
    {
        match self {
            Term::Column(alias, name) => s.row(alias).at(name),
            Term::Param(_, value) => cell_of(value),
            Term::Number(n) => Cell::Int(n as int),
            Term::Quoted(t) => Cell::Text(t),
            Term::Lower(t) => match cell_text(t.value(s)) {
                Some(x) => Cell::Text(lower(x)),
                None => Cell::Null,
            },
            Term::OrEmpty(t) => if t.value(s) is Null {
                Cell::Text(Seq::empty())
            } else {
                t.value(s)
            },
            Term::Own(name) => s.row("contacts"@).at(name),
            Term::OrElse(a, b) => if a.value(s) is Null {
                b.value(s)
            } else {
                a.value(s)
            },
            Term::Filled(a, b) => if a.value(s) is Null || a.value(s) == Cell::Text(Seq::empty()) {
                b.value(s)
            } else {
                a.value(s)
            },
            Term::Glued(a, b) => match (cell_text(a.value(s)), cell_text(b.value(s))) {
                (Some(x), Some(y)) => Cell::Text(x + y),
                _ => Cell::Null,
            },
        }
    }
}

/// Whether a message comes before another where the last by date and then by id come first.
pub open spec fn is_later(a: Row, b: Row) -> bool {
    match (a.at("date"@), b.at("date"@), a.at("id"@), b.at("id"@)) {
        (Cell::Int(x), Cell::Int(y), Cell::Int(m), Cell::Int(n)) => x > y || (x == y && m > n),
        _ => false,
    }
}

/// What a comparison of numbers gives; nothing where a value is missing.
pub open spec fn compared(a: Cell, b: Cell, holds: bool) -> Option<bool> {
    if a is Null || b is Null {
        None
    } else {
        Some(holds)
    }
}

/// Whether one number is below another. Numbers stand before texts.
pub open spec fn is_below(a: Cell, b: Cell) -> bool {
    match (a, b) {
        (Cell::Int(x), Cell::Int(y)) => x < y,
        (Cell::Int(_), Cell::Text(_)) => true,
        _ => false,
    }
}

/// Whether something is known to be true.
pub open spec fn is_true(a: Option<bool>) -> bool {
    match a {
        Some(t) => t,
        None => false,
    }
}

/// Both are true; unknown where that hangs on what is not known.
pub open spec fn and3(a: Option<bool>, b: Option<bool>) -> Option<bool> {
    match (a, b) {
        (Some(x), Some(y)) => Some(x && y),
        (Some(x), None) => if x {
            None
        } else {
            Some(false)
        },
        (None, Some(y)) => if y {
            None
        } else {
            Some(false)
        },
        (None, None) => None,
    }
}

/// One of two is true; unknown where that hangs on what is not known.
pub open spec fn or3(a: Option<bool>, b: Option<bool>) -> Option<bool> {
    match (a, b) {
        (Some(x), Some(y)) => Some(x || y),
        (Some(x), None) => if x {
            Some(true)
        } else {
            None
        },
        (None, Some(y)) => if y {
            Some(true)
        } else {
            None
        },
        (None, None) => None,
    }
}

impl Cond {
    /// How the condition is written.
    pub open spec fn text(self) -> Seq<char>
        decreases self,
    {
        match self {
            Cond::Equal(a, b) => a.text() + " = "@ + b.text(),
            Cond::Below(a, b) => a.text() + " < "@ + b.text(),
            Cond::Above(a, b) => a.text() + " > "@ + b.text(),
            Cond::Missing(a) => a.text() + " IS NULL"@,
            Cond::Given(a) => a.text() + " IS NOT NULL"@,
            Cond::Like(a, b) => a.text() + " LIKE "@ + b.text(),
            Cond::Holds(a, b) => a.text() + " LIKE "@ + b.text() + " ESCAPE '\\'"@,
            Cond::BehindText(a, b) => a.text() + " COLLATE NOCASE > "@ + b.text()
                + " COLLATE NOCASE"@,
            Cond::SameText(a, b) => a.text() + " COLLATE NOCASE = "@ + b.text()
                + " COLLATE NOCASE"@,
            Cond::OneOfTwo(a, x, y) => a.text() + " IN ('"@ + x + "','"@ + y + "')"@,
            Cond::Both(a, b) => a.text() + " AND "@ + b.text(),
            Cond::Either(a, b) => a.text() + " OR "@ + b.text(),
            Cond::Not(a) => "NOT "@ + a.text(),
            Cond::Group(wide, a) => if wide {
                "( "@ + a.text() + " )"@
            } else {
                "("@ + a.text() + ")"@
            },
            Cond::Exists(wide, source, a) => if wide {
                "EXISTS ( SELECT 1 FROM "@ + source.text() + " WHERE "@ + a.text() + " )"@
            } else {
                "EXISTS (SELECT 1 FROM "@ + source.text() + " WHERE "@ + a.text() + ")"@
            },
            Cond::Newest(column, table, alias, a, value) => "(SELECT "@ + alias + "."@ + column
                + " FROM "@ + table + " "@ + alias + " WHERE "@ + a.text() + " ORDER BY "@ + alias
                + ".date DESC, "@ + alias + ".id DESC LIMIT 1) = "@ + value.text(),
            Cond::Unmatched(a, expression) => a.text()
                + " NOT IN (SELECT rowid FROM messages_fts WHERE messages_fts MATCH "@
                + expression.text() + ")"@,
        }
    }

    /// Whether the condition is written so that it is read as what it is: alternatives stand in
    /// parentheses where they are a part of something else, and the parameters are bound to the
    /// values that they stand for.
    pub open spec fn fits(self, bind: Seq<Bound>) -> bool
        decreases self,
    {
        match self {
            Cond::Equal(a, b) => a.fits(bind) && b.fits(bind),
            Cond::Below(a, b) => a.fits(bind) && b.fits(bind),
            Cond::Above(a, b) => a.fits(bind) && b.fits(bind),
            Cond::Missing(a) => a.fits(bind),
            Cond::Given(a) => a.fits(bind),
            Cond::Like(a, b) => a.fits(bind) && b.fits(bind),
            Cond::Holds(a, b) => a.fits(bind) && b.fits(bind),
            Cond::BehindText(a, b) => a.fits(bind) && b.fits(bind),
            Cond::SameText(a, b) => a.fits(bind) && b.fits(bind),
            Cond::OneOfTwo(a, _, _) => a.fits(bind),
            Cond::Both(a, b) => !(*a is Either) && !(*b is Either) && a.fits(bind) && b.fits(bind),
            Cond::Either(a, b) => a.fits(bind) && b.fits(bind),
            Cond::Not(a) => !(*a is Either) && !(*a is Both) && a.fits(bind),
            Cond::Group(_, a) => a.fits(bind),
            Cond::Exists(_, source, a) => source.fits(bind) && a.fits(bind),
            Cond::Newest(_, _, _, a, value) => a.fits(bind) && value.fits(bind),
            Cond::Unmatched(a, expression) => a.fits(bind) && expression.fits(bind),
        }
    }

    /// Whether the condition holds of rows; unknown where that hangs on a value that is missing.
    pub open spec fn truth(self, db: Database, s: Scope) -> Option<bool>
        decreases self,
    {
        match self {
            Cond::Equal(a, b) => compared(a.value(s), b.value(s), a.value(s) == b.value(s)),
            Cond::Below(a, b) => compared(
                a.value(s),
                b.value(s),
                is_below(a.value(s), b.value(s)),
            ),
            Cond::Above(a, b) => compared(
                a.value(s),
                b.value(s),
                is_below(b.value(s), a.value(s)),
            ),
            Cond::Missing(a) => Some(a.value(s) is Null),
            Cond::Given(a) => Some(!(a.value(s) is Null)),
            Cond::Like(a, b) => match (cell_text(a.value(s)), cell_text(b.value(s))) {
                (Some(x), Some(pattern)) => Some(like(x, pattern)),
                _ => None,
            },
            Cond::Holds(a, b) => match (cell_text(a.value(s)), cell_text(b.value(s))) {
                (Some(x), Some(pattern)) => Some(like_with_escapes(x, pattern)),
                _ => None,
            },
            Cond::BehindText(a, b) => match (cell_text(a.value(s)), cell_text(b.value(s))) {
                (Some(x), Some(y)) => Some(text_order(lower(x), lower(y)) > 0),
                _ => None,
            },
            Cond::SameText(a, b) => match (cell_text(a.value(s)), cell_text(b.value(s))) {
                (Some(x), Some(y)) => Some(lower(x) == lower(y)),
                _ => None,
            },
            Cond::OneOfTwo(a, x, y) => compared(
                a.value(s),
                a.value(s),
                a.value(s) == Cell::Text(x) || a.value(s) == Cell::Text(y),
            ),
            Cond::Both(a, b) => and3(a.truth(db, s), b.truth(db, s)),
            Cond::Either(a, b) => or3(a.truth(db, s), b.truth(db, s)),
            Cond::Not(a) => match a.truth(db, s) {
                Some(t) => Some(!t),
                None => None,
            },
            Cond::Group(_, a) => a.truth(db, s),
            Cond::Exists(_, source, a) => Some(
                exists|inner: Scope| #[trigger]
                    inner.is_scope() && source.gives(db, s, inner) && is_true(a.truth(db, inner)),
            ),
            Cond::Newest(column, table, alias, a, value) => {
                if exists|r: Row| #[trigger]
                    db.has(table, r) && is_true(a.truth(db, s.with(alias, r))) && (forall|o: Row|
                     #[trigger]
                        db.has(table, o) && is_true(a.truth(db, s.with(alias, o)))
                            ==> !is_later(o, r)) && same_cell(r.at(column), value.value(s)) {
                    Some(true)
                } else {
                    None
                }
            },
            Cond::Unmatched(a, expression) => match (a.value(s), expression.value(s)) {
                (Cell::Null, _) => None,
                (id, Cell::Text(e)) => Some(!db.finds(e, id)),
                _ => None,
            },
        }
    }

    /// Whether the condition passes rows.
    #[verifier::opaque]
    pub open spec fn holds(self, db: Database, s: Scope) -> bool {
        is_true(self.truth(db, s))
    }
}

impl Cond {
    /// Whether the condition is known not to hold.
    #[verifier::opaque]
    pub open spec fn denied(self, db: Database, s: Scope) -> bool {
        match self.truth(db, s) {
            Some(t) => !t,
            None => false,
        }
    }
}

impl Source {
    /// How the source is written.
    pub open spec fn text(self) -> Seq<char>
        decreases self,
    {
        match self {
            Source::Table(table, alias) => table + " "@ + alias,
            Source::Join(first, table, alias, on) => first.text() + " JOIN "@ + table + " "@ + alias
                + " ON "@ + on.text(),
        }
    }

    pub open spec fn fits(self, bind: Seq<Bound>) -> bool
        decreases self,
    {
        match self {
            Source::Table(_, _) => true,
            Source::Join(first, _, _, on) => first.fits(bind) && on.fits(bind),
        }
    }

    /// Whether the source gives rows, beside those that are there already.
    pub open spec fn gives(self, db: Database, outer: Scope, s: Scope) -> bool
        decreases self,
    {
        match self {
            Source::Table(table, alias) => exists|r: Row| #[trigger]
                db.has(table, r) && s == outer.with(alias, r),
            Source::Join(first, table, alias, on) => exists|before: Scope, r: Row| #[trigger]
                before.is_scope() && #[trigger] db.has(table, r) && first.gives(db, outer, before)
                    && s == before.with(alias, r) && is_true(on.truth(db, s)),
        }
    }
}

/// A column of the row of a name.
pub open spec fn column(alias: Seq<char>, name: Seq<char>) -> Term {
    Term::Column(alias, name)
}

/// Two values are the same.
pub open spec fn equal(a: Term, b: Term) -> Cond {
    Cond::Equal(a, b)
}

/// Both conditions.
pub open spec fn both(a: Cond, b: Cond) -> Cond {
    Cond::Both(Box::new(a), Box::new(b))
}

/// One of two conditions.
pub open spec fn either(a: Cond, b: Cond) -> Cond {
    Cond::Either(Box::new(a), Box::new(b))
}

/// A condition in parentheses.
pub open spec fn group(wide: bool, a: Cond) -> Cond {
    Cond::Group(wide, Box::new(a))
}

/// Rows of a source meet a condition.
pub open spec fn found(wide: bool, source: Source, a: Cond) -> Cond {
    Cond::Exists(wide, Box::new(source), Box::new(a))
}

/// Rows of a source with those of one more table.
pub open spec fn join(source: Source, table: Seq<char>, alias: Seq<char>, on: Cond) -> Source {
    Source::Join(Box::new(source), table, alias, Box::new(on))
}

/// Whether the clauses of a filter are read as conditions.
pub open spec fn is_read_as(f: Filter, conditions: Seq<Cond>) -> bool {
    &&& f.clauses.len() == conditions.len()
    &&& forall|i: int|
        0 <= i < conditions.len() ==> (#[trigger] conditions[i]).text() == f.clauses[i]
            && conditions[i].fits(f.bind) && !(conditions[i] is Either)
}

/// Whether all conditions pass rows.
pub open spec fn all_hold(conditions: Seq<Cond>, db: Database, s: Scope) -> bool {
    forall|i: int| 0 <= i < conditions.len() ==> (#[trigger] conditions[i]).holds(db, s)
}

/// Whether a filter asks for the rows that are wanted: its clauses, read as conditions, pass those
/// rows and no others.
pub open spec fn asks_for(f: Filter, wanted: spec_fn(Database, Scope) -> bool) -> bool {
    exists|conditions: Seq<Cond>| #[trigger]
        is_read_as(f, conditions) && forall|db: Database, s: Scope|
            all_hold(conditions, db, s) <==> #[trigger] wanted(db, s)
}

/// What is wanted, narrowed.
pub open spec fn also(
    wanted: spec_fn(Database, Scope) -> bool,
    more: spec_fn(Database, Scope) -> bool,
) -> spec_fn(Database, Scope) -> bool {
    |db: Database, s: Scope| wanted(db, s) && more(db, s)
}

proof fn more_values_keep_terms(t: Term, bind: Seq<Bound>, more: Seq<Bound>)
    requires
        t.fits(bind),
        bind.is_prefix_of(more),
    ensures
        t.fits(more),
    decreases t,
{
    match t {
        Term::Lower(inner) => more_values_keep_terms(*inner, bind, more),
        Term::OrEmpty(inner) => more_values_keep_terms(*inner, bind, more),
        Term::OrElse(a, b) => {
            more_values_keep_terms(*a, bind, more);
            more_values_keep_terms(*b, bind, more);
        },
        Term::Filled(a, b) => {
            more_values_keep_terms(*a, bind, more);
            more_values_keep_terms(*b, bind, more);
        },
        Term::Glued(a, b) => {
            more_values_keep_terms(*a, bind, more);
            more_values_keep_terms(*b, bind, more);
        },
        _ => {},
    }
}

pub(crate) proof fn more_values_keep_conditions(c: Cond, bind: Seq<Bound>, more: Seq<Bound>)
    requires
        c.fits(bind),
        bind.is_prefix_of(more),
    ensures
        c.fits(more),
    decreases c,
{
    match c {
        Cond::Equal(a, b) => {
            more_values_keep_terms(a, bind, more);
            more_values_keep_terms(b, bind, more);
        },
        Cond::Below(a, b) => {
            more_values_keep_terms(a, bind, more);
            more_values_keep_terms(b, bind, more);
        },
        Cond::Above(a, b) => {
            more_values_keep_terms(a, bind, more);
            more_values_keep_terms(b, bind, more);
        },
        Cond::Missing(a) => more_values_keep_terms(a, bind, more),
        Cond::Given(a) => more_values_keep_terms(a, bind, more),
        Cond::Like(a, b) => {
            more_values_keep_terms(a, bind, more);
            more_values_keep_terms(b, bind, more);
        },
        Cond::Holds(a, b) => {
            more_values_keep_terms(a, bind, more);
            more_values_keep_terms(b, bind, more);
        },
        Cond::BehindText(a, b) => {
            more_values_keep_terms(a, bind, more);
            more_values_keep_terms(b, bind, more);
        },
        Cond::SameText(a, b) => {
            more_values_keep_terms(a, bind, more);
            more_values_keep_terms(b, bind, more);
        },
        Cond::OneOfTwo(a, _, _) => more_values_keep_terms(a, bind, more),
        Cond::Both(a, b) => {
            more_values_keep_conditions(*a, bind, more);
            more_values_keep_conditions(*b, bind, more);
        },
        Cond::Either(a, b) => {
            more_values_keep_conditions(*a, bind, more);
            more_values_keep_conditions(*b, bind, more);
        },
        Cond::Not(a) => more_values_keep_conditions(*a, bind, more),
        Cond::Group(_, a) => more_values_keep_conditions(*a, bind, more),
        Cond::Exists(_, source, a) => {
            more_values_keep_sources(*source, bind, more);
            more_values_keep_conditions(*a, bind, more);
        },
        Cond::Newest(_, _, _, a, value) => {
            more_values_keep_conditions(*a, bind, more);
            more_values_keep_terms(value, bind, more);
        },
        Cond::Unmatched(a, expression) => {
            more_values_keep_terms(a, bind, more);
            more_values_keep_terms(expression, bind, more);
        },
    }
}

proof fn more_values_keep_sources(source: Source, bind: Seq<Bound>, more: Seq<Bound>)
    requires
        source.fits(bind),
        bind.is_prefix_of(more),
    ensures
        source.fits(more),
    decreases source,
{
    match source {
        Source::Table(_, _) => {},
        Source::Join(first, _, _, on) => {
            more_values_keep_sources(*first, bind, more);
            more_values_keep_conditions(*on, bind, more);
        },
    }
}

/// A table gives each of its rows.
proof fn table_gives(table: Seq<char>, alias: Seq<char>, db: Database, outer: Scope, r: Row)
    requires
        db.has(table, r),
    ensures
        Source::Table(table, alias).gives(db, outer, outer.with(alias, r)),
{
    let source = Source::Table(table, alias);
    assert(db.has(source->Table_0, r));
}

/// A join gives the rows that meet its condition.
proof fn join_gives(
    first: Source,
    table: Seq<char>,
    alias: Seq<char>,
    on: Cond,
    db: Database,
    outer: Scope,
    before: Scope,
    r: Row,
)
    requires
        first.gives(db, outer, before),
        db.has(table, r),
        on.holds(db, before.with(alias, r)),
    ensures
        Source::Join(Box::new(first), table, alias, Box::new(on)).gives(
            db,
            outer,
            before.with(alias, r),
        ),
{
    reveal(Cond::holds);
    let source = Source::Join(Box::new(first), table, alias, Box::new(on));
    assert(before.is_scope() && db.has(source->Join_1, r));
}

/// Both conditions pass what each passes.
pub(crate) proof fn both_hold(a: Cond, b: Cond, db: Database, s: Scope)
    ensures
        Cond::Both(Box::new(a), Box::new(b)).holds(db, s) <==> a.holds(db, s) && b.holds(db, s),
{
    reveal(Cond::holds);
    let c = Cond::Both(Box::new(a), Box::new(b));
    assert(c.truth(db, s) == and3((c->Both_0).truth(db, s), (c->Both_1).truth(db, s)));
}

/// Alternatives pass what one of them passes.
pub(crate) proof fn either_holds(a: Cond, b: Cond, db: Database, s: Scope)
    ensures
        Cond::Either(Box::new(a), Box::new(b)).holds(db, s) <==> a.holds(db, s) || b.holds(db, s),
{
    reveal(Cond::holds);
}

/// Parentheses change nothing.
pub(crate) proof fn group_holds(wide: bool, a: Cond, db: Database, s: Scope)
    ensures
        Cond::Group(wide, Box::new(a)).holds(db, s) <==> a.holds(db, s),
{
    reveal(Cond::holds);
}

/// What is known to be one or the other is passed by one of the two: a condition or its negation.
pub(crate) proof fn not_holds(a: Cond, db: Database, s: Scope)
    requires
        a.truth(db, s) is Some,
    ensures
        Cond::Not(Box::new(a)).holds(db, s) <==> !a.holds(db, s),
{
    reveal(Cond::holds);
    let c = Cond::Not(Box::new(a));
    assert((c->Not_0).truth(db, s) is Some);
}

/// What is denied: each of two alternatives, that two values that are there are the same, and that
/// there are rows where there are none.
pub(crate) proof fn denials_are_known(a: Cond, b: Cond, x: Term, y: Term, db: Database, s: Scope)
    ensures
        Cond::Not(Box::new(a)).holds(db, s) <==> a.denied(db, s),
        Cond::Group(false, Box::new(a)).denied(db, s) <==> a.denied(db, s),
        Cond::Either(Box::new(a), Box::new(b)).denied(db, s) <==> a.denied(db, s) && b.denied(
            db,
            s,
        ),
        Cond::Equal(x, y).denied(db, s) <==> !(x.value(s) is Null) && !(y.value(s) is Null)
            && x.value(s) != y.value(s),
        a is Exists ==> (a.denied(db, s) <==> !a.holds(db, s)),
{
    reveal(Cond::holds);
    reveal(Cond::denied);
    let not = Cond::Not(Box::new(a));
    assert((not->Not_0).truth(db, s) == a.truth(db, s));
    let grouped = Cond::Group(false, Box::new(a));
    assert((grouped->Group_1).truth(db, s) == a.truth(db, s));
    let alternatives = Cond::Either(Box::new(a), Box::new(b));
    assert((alternatives->Either_0).truth(db, s) == a.truth(db, s));
    assert((alternatives->Either_1).truth(db, s) == b.truth(db, s));
}

/// Whether there are rows is known.
pub(crate) proof fn existence_is_known(
    first: (bool, Source, Cond),
    second: (bool, Source, Cond),
    db: Database,
    s: Scope,
)
    ensures
        ({
            let a = Cond::Exists(first.0, Box::new(first.1), Box::new(first.2));
            let b = Cond::Exists(second.0, Box::new(second.1), Box::new(second.2));
            let alternatives = Cond::Either(Box::new(a), Box::new(b));
            &&& a.truth(db, s) is Some
            &&& Cond::Group(false, Box::new(alternatives)).truth(db, s) is Some
        }),
{
    let a = Cond::Exists(first.0, Box::new(first.1), Box::new(first.2));
    let b = Cond::Exists(second.0, Box::new(second.1), Box::new(second.2));
    let alternatives = Cond::Either(Box::new(a), Box::new(b));
    assert(a.truth(db, s) is Some && b.truth(db, s) is Some);
    assert((alternatives->Either_0).truth(db, s) is Some);
    assert((alternatives->Either_1).truth(db, s) is Some);
    assert(alternatives.truth(db, s) is Some);
    let whole = Cond::Group(false, Box::new(alternatives));
    assert((whole->Group_1).truth(db, s) is Some);
}

/// What holds of the last row.
pub(crate) proof fn newest_holds(
    column: Seq<char>,
    table: Seq<char>,
    alias: Seq<char>,
    c: Cond,
    value: Term,
    db: Database,
    s: Scope,
)
    ensures
        Cond::Newest(column, table, alias, Box::new(c), value).holds(db, s) <==> exists|r: Row|
         #[trigger]
            db.has(table, r) && c.holds(db, s.with(alias, r)) && (forall|o: Row| #[trigger]
                db.has(table, o) && c.holds(db, s.with(alias, o)) ==> !is_later(o, r)) && same_cell(
                r.at(column),
                value.value(s),
            ),
{
    reveal(Cond::holds);
    let whole = Cond::Newest(column, table, alias, Box::new(c), value);
    assert forall|r: Row| #[trigger] db.has(table, r) implies db.has(whole->Newest_1, r) by {}
    assert forall|r: Row| #[trigger] db.has(whole->Newest_1, r) implies db.has(table, r) by {}
}

/// What holds of two values.
pub(crate) proof fn comparisons_hold(a: Term, b: Term, db: Database, s: Scope)
    ensures
        Cond::Equal(a, b).holds(db, s) <==> same_cell(a.value(s), b.value(s)),
        Cond::Below(a, b).holds(db, s) <==> !(a.value(s) is Null) && !(b.value(s) is Null)
            && is_below(a.value(s), b.value(s)),
        Cond::Above(a, b).holds(db, s) <==> !(a.value(s) is Null) && !(b.value(s) is Null)
            && is_below(b.value(s), a.value(s)),
        Cond::Missing(a).holds(db, s) <==> a.value(s) is Null,
        Cond::Given(a).holds(db, s) <==> !(a.value(s) is Null),
{
    reveal(Cond::holds);
}

/// Rows of a table are there where one of them meets the condition.
pub(crate) proof fn exists_in_table(
    wide: bool,
    table: Seq<char>,
    alias: Seq<char>,
    c: Cond,
    db: Database,
    s: Scope,
)
    ensures
        Cond::Exists(wide, Box::new(Source::Table(table, alias)), Box::new(c)).holds(db, s)
            <==> exists|r: Row| #[trigger] db.has(table, r) && c.holds(db, s.with(alias, r)),
{
    reveal(Cond::holds);
    let source = Source::Table(table, alias);
    let whole = Cond::Exists(wide, Box::new(source), Box::new(c));
    if exists|r: Row| #[trigger] db.has(table, r) && c.holds(db, s.with(alias, r)) {
        let r = choose|r: Row| #[trigger] db.has(table, r) && c.holds(db, s.with(alias, r));
        let inner = s.with(alias, r);
        table_gives(table, alias, db, s, r);
        assert(inner.is_scope());
        assert(whole.holds(db, s));
    }
    if whole.holds(db, s) {
        let inner = choose|inner: Scope| #[trigger]
            inner.is_scope() && source.gives(db, s, inner) && is_true(c.truth(db, inner));
        assert(source.gives(db, s, inner));
        let r = choose|r: Row| #[trigger] db.has(table, r) && inner == s.with(alias, r);
        assert(c.holds(db, s.with(alias, r)));
    }
}

/// Rows of a source and of one more table are there where the source gives rows for which the table
/// has one that meets both conditions.
pub(crate) proof fn exists_in_join(
    wide: bool,
    first: Source,
    table: Seq<char>,
    alias: Seq<char>,
    on: Cond,
    c: Cond,
    db: Database,
    s: Scope,
)
    ensures
        Cond::Exists(
            wide,
            Box::new(Source::Join(Box::new(first), table, alias, Box::new(on))),
            Box::new(c),
        ).holds(db, s) <==> Cond::Exists(
            false,
            Box::new(first),
            Box::new(
                Cond::Exists(
                    false,
                    Box::new(Source::Table(table, alias)),
                    Box::new(Cond::Both(Box::new(on), Box::new(c))),
                ),
            ),
        ).holds(db, s),
{
    reveal(Cond::holds);
    let source = Source::Join(Box::new(first), table, alias, Box::new(on));
    let pair = Cond::Both(Box::new(on), Box::new(c));
    let inner = Cond::Exists(false, Box::new(Source::Table(table, alias)), Box::new(pair));
    let whole = Cond::Exists(wide, Box::new(source), Box::new(c));
    let nested = Cond::Exists(false, Box::new(first), Box::new(inner));
    if whole.holds(db, s) {
        let x = choose|x: Scope| #[trigger]
            x.is_scope() && source.gives(db, s, x) && is_true(c.truth(db, x));
        assert(source.gives(db, s, x));
        let (before, r) = choose|before: Scope, r: Row| #[trigger]
            before.is_scope() && #[trigger] db.has(table, r) && first.gives(db, s, before) && x
                == before.with(alias, r) && is_true(on.truth(db, x));
        exists_in_table(false, table, alias, pair, db, before);
        both_hold(on, c, db, x);
        assert(pair.holds(db, before.with(alias, r)));
        assert(inner.holds(db, before));
        assert(before.is_scope());
        assert(nested.holds(db, s));
    }
    if nested.holds(db, s) {
        let before = choose|x: Scope| #[trigger]
            x.is_scope() && first.gives(db, s, x) && is_true(inner.truth(db, x));
        assert(inner.holds(db, before));
        exists_in_table(false, table, alias, pair, db, before);
        let r = choose|r: Row| #[trigger]
            db.has(table, r) && pair.holds(db, before.with(alias, r));
        let x = before.with(alias, r);
        both_hold(on, c, db, x);
        assert(before.is_scope() && x.is_scope());
        join_gives(first, table, alias, on, db, s, before, r);
        assert(whole.holds(db, s));
    }
}

/// How numbers are written.
pub(crate) proof fn numbers_are_read()
    ensures
        Term::Number(0).text() == "0"@,
        Term::Number(1).text() == "1"@,
{
    reveal_strlit("0");
    reveal_strlit("1");
    reveal_with_fuel(decimal, 2);
    assert(decimal(0) =~= "0"@);
    assert(decimal(1) =~= "1"@);
}

/// What holds of a text and a pattern, of a value among two, and of what is not found.
pub(crate) proof fn lookups_hold(
    a: Term,
    b: Term,
    x: Seq<char>,
    y: Seq<char>,
    db: Database,
    s: Scope,
)
    ensures
        Cond::Like(a, b).holds(db, s) <==> (cell_text(a.value(s)) is Some && cell_text(b.value(s))
            is Some && like(cell_text(a.value(s))->0, cell_text(b.value(s))->0)),
        Cond::OneOfTwo(a, x, y).holds(db, s) <==> (a.value(s) == Cell::Text(x) || a.value(s)
            == Cell::Text(y)),
        b.value(s) is Text ==> (Cond::Unmatched(a, b).holds(db, s) <==> (!(a.value(s) is Null)
            && !db.finds(b.value(s)->Text_0, a.value(s)))),
{
    reveal(Cond::holds);
}

/// What holds of texts without regard to case, and of a text and a pattern with escapes.
pub(crate) proof fn texts_hold(a: Term, b: Term, db: Database, s: Scope)
    ensures
        ({
            let x = cell_text(a.value(s));
            let y = cell_text(b.value(s));
            let there = x is Some && y is Some;
            &&& Cond::Holds(a, b).holds(db, s) <==> there && like_with_escapes(x->0, y->0)
            &&& Cond::BehindText(a, b).holds(db, s) <==> there && text_order(
                lower(x->0),
                lower(y->0),
            ) > 0
            &&& Cond::SameText(a, b).holds(db, s) <==> there && lower(x->0) == lower(y->0)
        }),
{
    reveal(Cond::holds);
}

/// A pattern with escapes that begins with `%` matches what the rest matches at some place.
proof fn percent_skips_with_escapes(s: Seq<char>, rest: Seq<char>)
    ensures
        like_with_escapes(s, seq!['%'] + rest) <==> exists|k: int|
            0 <= k <= s.len() && #[trigger] like_with_escapes(s.skip(k), rest),
    decreases s.len(),
{
    let pattern = seq!['%'] + rest;
    assert(pattern.skip(1) =~= rest);
    assert(s.skip(0) =~= s);
    assert(like_with_escapes(s.skip(0), rest) == like_with_escapes(s, rest));
    assert(pattern[0] == '%');
    if s.len() > 0 {
        percent_skips_with_escapes(s.skip(1), rest);
        if exists|k: int| 0 <= k <= s.len() && #[trigger] like_with_escapes(s.skip(k), rest) {
            let k = choose|k: int|
                0 <= k <= s.len() && #[trigger] like_with_escapes(s.skip(k), rest);
            if k > 0 {
                assert(s.skip(1).skip(k - 1) =~= s.skip(k));
                assert(like_with_escapes(s.skip(1).skip(k - 1), rest));
            }
        }
        if like_with_escapes(s.skip(1), pattern) {
            let k = choose|k: int|
                0 <= k <= s.skip(1).len() && #[trigger] like_with_escapes(s.skip(1).skip(k), rest);
            assert(s.skip(1).skip(k) =~= s.skip(k + 1));
            assert(like_with_escapes(s.skip(k + 1), rest));
        }
    } else if exists|k: int| 0 <= k <= s.len() && #[trigger] like_with_escapes(s.skip(k), rest) {
        let k = choose|k: int| 0 <= k <= s.len() && #[trigger] like_with_escapes(s.skip(k), rest);
        assert(s.skip(k) =~= s);
    }
}

/// How a character of a text is written in a pattern, so that it stands for itself.
spec fn escaped_char(c: char) -> Seq<char> {
    if c == '\\' || c == '%' || c == '_' {
        seq!['\\', c]
    } else {
        seq![c]
    }
}

/// Replacing goes on from one text to the next.
proof fn replacing_goes_on(a: Seq<char>, b: Seq<char>, c: char, with: Seq<char>)
    ensures
        replaced(a + b, c, with) == replaced(a, c, with) + replaced(b, c, with),
    decreases b.len(),
{
    if b.len() == 0 {
        assert(a + b =~= a);
        assert(replaced(a, c, with) + replaced(b, c, with) =~= replaced(a, c, with));
    } else {
        replacing_goes_on(a, b.drop_last(), c, with);
        assert((a + b).drop_last() =~= a + b.drop_last());
        assert(replaced(a + b, c, with) =~= replaced(a, c, with) + replaced(b, c, with));
    }
}

/// A text is escaped character by character.
proof fn escaping_begins(text: Seq<char>)
    requires
        text.len() > 0,
    ensures
        like_escaped(text) == escaped_char(text[0]) + like_escaped(text.skip(1)),
{
    let first = seq![text[0]];
    let rest = text.skip(1);
    assert(text =~= first + rest);
    replacing_goes_on(first, rest, '\\', "\\\\"@);
    let r1 = replaced(rest, '\\', "\\\\"@);
    let f1 = replaced(first, '\\', "\\\\"@);
    replacing_goes_on(f1, r1, '%', "\\%"@);
    let r2 = replaced(r1, '%', "\\%"@);
    let f2 = replaced(f1, '%', "\\%"@);
    replacing_goes_on(f2, r2, '_', "\\_"@);
    let f3 = replaced(f2, '_', "\\_"@);
    assert(f3 =~= escaped_char(text[0])) by {
        reveal_strlit("\\\\");
        reveal_strlit("\\%");
        reveal_strlit("\\_");
        reveal_with_fuel(replaced, 4);
        assert(first.drop_last() =~= Seq::<char>::empty());
        if text[0] == '\\' {
            assert(f1 =~= seq!['\\', '\\']);
            assert(f1.drop_last() =~= seq!['\\']);
            assert(f1.drop_last().drop_last() =~= Seq::<char>::empty());
            assert(f2 =~= f1);
            assert(f3 =~= f1);
        } else {
            assert(f1 =~= first);
            if text[0] == '%' {
                assert(f2 =~= seq!['\\', '%']);
                assert(f2.drop_last() =~= seq!['\\']);
                assert(f2.drop_last().drop_last() =~= Seq::<char>::empty());
                assert(f3 =~= f2);
            } else {
                assert(f2 =~= first);
            }
        }
    }
}

/// A text whose wildcards are escaped matches itself, in either case.
proof fn escaped_text_reads(s: Seq<char>, text: Seq<char>, rest: Seq<char>)
    ensures
        like_with_escapes(s, like_escaped(text) + rest) <==> stands_at(lower(s), lower(text), 0)
            && like_with_escapes(s.skip(text.len() as int), rest),
    decreases text.len(),
{
    if text.len() == 0 {
        reveal_with_fuel(replaced, 1);
        assert(like_escaped(text) =~= Seq::<char>::empty());
        assert(like_escaped(text) + rest =~= rest);
        assert(s.skip(0) =~= s);
        assert(lower(s).subrange(0, 0) =~= lower(text));
    } else {
        escaping_begins(text);
        let more = text.skip(1);
        let pattern = like_escaped(text) + rest;
        let tail = like_escaped(more) + rest;
        assert(pattern =~= escaped_char(text[0]) + tail);
        assert(pattern.skip(escaped_char(text[0]).len() as int) =~= tail);
        if s.len() > 0 {
            escaped_text_reads(s.skip(1), more, rest);
            if s.len() >= text.len() {
                assert(s.skip(1).skip(more.len() as int) =~= s.skip(text.len() as int));
            }
            if stands_at(lower(s), lower(text), 0) {
                let part = lower(s).subrange(0, text.len() as int);
                assert(part[0] == lower(text)[0]);
                assert(lower(s.skip(1)).subrange(0, more.len() as int) =~= lower(more)) by {
                    assert forall|k: int| 0 <= k < more.len() implies lower(s.skip(1))[k] == lower(
                        more,
                    )[k] by {
                        assert(part[k + 1] == lower(text)[k + 1]);
                    }
                }
            }
            if ascii_lower(s[0]) == ascii_lower(text[0]) && stands_at(
                lower(s.skip(1)),
                lower(more),
                0,
            ) {
                let part = lower(s.skip(1)).subrange(0, more.len() as int);
                assert forall|k: int| 0 <= k < text.len() implies lower(s)[k] == lower(
                    text,
                )[k] by {
                    if k > 0 {
                        assert(part[k - 1] == lower(more)[k - 1]);
                    }
                }
                assert(lower(s).subrange(0, text.len() as int) =~= lower(text));
            }
        }
    }
}

/// A text whose wildcards are escaped, between two `%`, matches the texts that hold it, in either
/// case: no character of the text is a wildcard.
pub proof fn escaped_patterns_match_what_holds_the_text(s: Seq<char>, text: Seq<char>)
    ensures
        like_with_escapes(s, holding(like_escaped(text))) <==> has_text(lower(s), lower(text)),
{
    let end = seq!['%'];
    let rest = like_escaped(text) + end;
    reveal_strlit("%");
    assert(holding(like_escaped(text)) =~= seq!['%'] + rest);
    percent_skips_with_escapes(s, rest);
    assert forall|k: int| 0 <= k <= s.len() implies (#[trigger] like_with_escapes(s.skip(k), rest)
        <==> stands_at(lower(s), lower(text), k)) by {
        let from = s.skip(k);
        escaped_text_reads(from, text, end);
        if k + text.len() <= s.len() {
            assert(lower(from).subrange(0, text.len() as int) =~= lower(s).subrange(
                k,
                k + text.len(),
            ));
            let left = from.skip(text.len() as int);
            assert(end =~= seq!['%'] + Seq::<char>::empty());
            percent_skips_with_escapes(left, Seq::empty());
            assert(like_with_escapes(left.skip(left.len() as int), Seq::empty()));
        }
    }
    if has_text(lower(s), lower(text)) {
        let k = choose|k: int| #[trigger] stands_at(lower(s), lower(text), k);
        assert(like_with_escapes(s.skip(k), rest));
    }
}

/// A pattern that begins with `%` matches what the rest matches at some place.
proof fn percent_skips(s: Seq<char>, rest: Seq<char>)
    ensures
        like(s, seq!['%'] + rest) <==> exists|k: int|
            0 <= k <= s.len() && #[trigger] like(s.skip(k), rest),
    decreases s.len(),
{
    let pattern = seq!['%'] + rest;
    assert(pattern.skip(1) =~= rest);
    assert(s.skip(0) =~= s);
    assert(like(s.skip(0), rest) == like(s, rest));
    assert(pattern[0] == '%');
    if s.len() > 0 {
        percent_skips(s.skip(1), rest);
        if exists|k: int| 0 <= k <= s.len() && #[trigger] like(s.skip(k), rest) {
            let k = choose|k: int| 0 <= k <= s.len() && #[trigger] like(s.skip(k), rest);
            if k > 0 {
                assert(s.skip(1).skip(k - 1) =~= s.skip(k));
                assert(like(s.skip(1).skip(k - 1), rest));
            }
        }
        if like(s.skip(1), pattern) {
            let k = choose|k: int|
                0 <= k <= s.skip(1).len() && #[trigger] like(s.skip(1).skip(k), rest);
            assert(s.skip(1).skip(k) =~= s.skip(k + 1));
            assert(like(s.skip(k + 1), rest));
        }
    } else if exists|k: int| 0 <= k <= s.len() && #[trigger] like(s.skip(k), rest) {
        let k = choose|k: int| 0 <= k <= s.len() && #[trigger] like(s.skip(k), rest);
        assert(s.skip(k) =~= s);
    }
}

/// Whether a text holds no wildcard of LIKE.
pub open spec fn is_plain(s: Seq<char>) -> bool {
    forall|i: int| 0 <= i < s.len() ==> #[trigger] s[i] != '%' && s[i] != '_'
}

/// A text without wildcards matches itself, in either case.
proof fn plain_text_reads(s: Seq<char>, text: Seq<char>, rest: Seq<char>)
    requires
        is_plain(text),
    ensures
        like(s, text + rest) <==> stands_at(lower(s), lower(text), 0) && like(
            s.skip(text.len() as int),
            rest,
        ),
    decreases text.len(),
{
    if text.len() == 0 {
        assert(text + rest =~= rest);
        assert(s.skip(0) =~= s);
        assert(lower(s).subrange(0, 0) =~= lower(text));
    } else {
        let more = text.skip(1);
        let pattern = text + rest;
        assert(pattern.skip(1) =~= more + rest);
        assert(pattern[0] == text[0]);
        assert(text[0] != '%' && text[0] != '_');
        assert forall|i: int| 0 <= i < more.len() implies #[trigger] more[i] != '%' && more[i]
            != '_' by {
            assert(more[i] == text[i + 1]);
        }
        if s.len() > 0 {
            plain_text_reads(s.skip(1), more, rest);
            if s.len() >= text.len() {
                assert(s.skip(1).skip(more.len() as int) =~= s.skip(text.len() as int));
            }
            if stands_at(lower(s), lower(text), 0) {
                let part = lower(s).subrange(0, text.len() as int);
                assert(part[0] == lower(text)[0]);
                assert(lower(s.skip(1)).subrange(0, more.len() as int) =~= lower(more)) by {
                    assert forall|k: int| 0 <= k < more.len() implies lower(s.skip(1))[k] == lower(
                        more,
                    )[k] by {
                        assert(part[k + 1] == lower(text)[k + 1]);
                    }
                }
            }
            if ascii_lower(s[0]) == ascii_lower(text[0]) && stands_at(
                lower(s.skip(1)),
                lower(more),
                0,
            ) {
                let part = lower(s.skip(1)).subrange(0, more.len() as int);
                assert forall|k: int| 0 <= k < text.len() implies lower(s)[k] == lower(
                    text,
                )[k] by {
                    if k > 0 {
                        assert(part[k - 1] == lower(more)[k - 1]);
                    }
                }
                assert(lower(s).subrange(0, text.len() as int) =~= lower(text));
            }
        }
    }
}

/// A text without wildcards, between two `%`, matches the texts that hold it, in either case.
pub proof fn patterns_match_what_holds_the_text(s: Seq<char>, text: Seq<char>)
    requires
        is_plain(text),
    ensures
        like(s, holding(text)) <==> has_text(lower(s), lower(text)),
{
    let end = seq!['%'];
    let rest = text + end;
    reveal_strlit("%");
    assert(holding(text) =~= seq!['%'] + rest);
    percent_skips(s, rest);
    assert forall|k: int| 0 <= k <= s.len() implies (#[trigger] like(s.skip(k), rest) <==> stands_at(
        lower(s),
        lower(text),
        k,
    )) by {
        let from = s.skip(k);
        plain_text_reads(from, text, end);
        if k + text.len() <= s.len() {
            assert(lower(from).subrange(0, text.len() as int) =~= lower(s).subrange(
                k,
                k + text.len(),
            ));
            let left = from.skip(text.len() as int);
            assert(end =~= seq!['%'] + Seq::<char>::empty());
            percent_skips(left, Seq::empty());
            assert(like(left.skip(left.len() as int), Seq::empty()));
        }
    }
    if has_text(lower(s), lower(text)) {
        let k = choose|k: int| #[trigger] stands_at(lower(s), lower(text), k);
        assert(like(s.skip(k), rest));
    }
}

/// Texts that are put together can be put together from the left.
pub(crate) proof fn texts_join()
    ensures
        forall|a: Seq<char>, b: Seq<char>, c: Seq<char>| #[trigger] (a + (b + c)) == a + b + c,
{
    assert forall|a: Seq<char>, b: Seq<char>, c: Seq<char>| #[trigger] (a + (b + c)) == a + b
        + c by {
        assert(a + (b + c) =~= a + b + c);
    }
}

/// No condition passes all rows.
pub(crate) proof fn nothing_is_asked(wanted: spec_fn(Database, Scope) -> bool)
    requires
        forall|db: Database, s: Scope| #[trigger] wanted(db, s),
    ensures
        asks_for(Filter::all(), wanted),
{
    assert(is_read_as(Filter::all(), Seq::empty()));
}

/// The same rows can be said in other words.
pub(crate) proof fn asks_in_other_words(
    f: Filter,
    wanted: spec_fn(Database, Scope) -> bool,
    said: spec_fn(Database, Scope) -> bool,
)
    requires
        asks_for(f, wanted),
        forall|db: Database, s: Scope| #[trigger] said(db, s) <==> wanted(db, s),
    ensures
        asks_for(f, said),
{
    let conditions = choose|conditions: Seq<Cond>| #[trigger]
        is_read_as(f, conditions) && forall|db: Database, s: Scope|
            all_hold(conditions, db, s) <==> #[trigger] wanted(db, s);
    assert forall|db: Database, s: Scope|
        all_hold(conditions, db, s) <==> #[trigger] said(db, s) by {
        assert(said(db, s) <==> wanted(db, s));
    }
}

/// One more condition, over values that were bound before it, narrows what is asked for by what it
/// means.
pub(crate) proof fn asks_for_one_more(
    f: Filter,
    wanted: spec_fn(Database, Scope) -> bool,
    bound: Filter,
    c: Cond,
    narrowed: spec_fn(Database, Scope) -> bool,
)
    requires
        asks_for(f, wanted),
        bound.clauses == f.clauses,
        f.bind.is_prefix_of(bound.bind),
        c.fits(bound.bind),
        !(c is Either),
        forall|db: Database, s: Scope| #[trigger]
            narrowed(db, s) <==> wanted(db, s) && c.holds(db, s),
    ensures
        asks_for(bound.and(c.text()), narrowed),
{
    let before = choose|conditions: Seq<Cond>| #[trigger]
        is_read_as(f, conditions) && forall|db: Database, s: Scope|
            all_hold(conditions, db, s) <==> #[trigger] wanted(db, s);
    let after = before.push(c);
    let g = bound.and(c.text());
    assert forall|i: int| 0 <= i < after.len() implies (#[trigger] after[i]).text() == g.clauses[i]
        && after[i].fits(g.bind) && !(after[i] is Either) by {
        if i < before.len() {
            assert(after[i] == before[i]);
            more_values_keep_conditions(before[i], f.bind, bound.bind);
        }
    }
    assert(is_read_as(g, after));
    assert forall|db: Database, s: Scope|
        all_hold(after, db, s) <==> #[trigger] narrowed(db, s) by {
        assert(narrowed(db, s) <==> wanted(db, s) && c.holds(db, s));
        if all_hold(after, db, s) {
            assert forall|i: int| 0 <= i < before.len() implies (#[trigger] before[i]).holds(
                db,
                s,
            ) by {
                assert(after[i] == before[i]);
            }
            assert(after[before.len() as int].holds(db, s));
        }
        if all_hold(before, db, s) && c.holds(db, s) {
            assert forall|i: int| 0 <= i < after.len() implies (#[trigger] after[i]).holds(
                db,
                s,
            ) by {
                if i < before.len() {
                    assert(after[i] == before[i]);
                }
            }
        }
    }
}

} // verus!
