//! Conditions of a query: clauses with numbered parameters, and the values bound to them.

use crate::text::{decimal, join, join_texts, lit, signed_decimal, texts, u64_text};
use vstd::prelude::*;
use vstd::string::*;

verus! {

/// A value that is bound to a parameter.
#[derive(Debug)]
pub enum Bind {
    Int(i64),
    Text(String),
}

/// The model of a [`Bind`].
pub enum Bound {
    Int(i64),
    Text(Seq<char>),
}

impl View for Bind {
    type V = Bound;

    open spec fn view(&self) -> Bound {
        match self {
            Bind::Int(n) => Bound::Int(*n),
            Bind::Text(s) => Bound::Text(s@),
        }
    }
}

/// The models of a list of values.
pub open spec fn bounds(v: Seq<Bind>) -> Seq<Bound> {
    v.map_values(|b: Bind| b@)
}

/// The conditions of a query.
#[derive(Debug)]
pub struct Conditions {
    pub clauses: Vec<String>,
    pub bind: Vec<Bind>,
}

/// The model of [`Conditions`].
#[verifier::ext_equal]
pub struct Filter {
    pub clauses: Seq<Seq<char>>,
    pub bind: Seq<Bound>,
}

impl View for Conditions {
    type V = Filter;

    open spec fn view(&self) -> Filter {
        Filter { clauses: texts(self.clauses@), bind: bounds(self.bind@) }
    }
}

/// How a parameter is written.
pub open spec fn parameter(n: int) -> Seq<char> {
    "?"@ + decimal(n as nat)
}

impl Filter {
    /// No condition.
    pub open spec fn all() -> Filter {
        Filter { clauses: Seq::empty(), bind: Seq::empty() }
    }

    /// One more condition.
    pub open spec fn and(self, clause: Seq<char>) -> Filter {
        Filter { clauses: self.clauses.push(clause), ..self }
    }

    /// One more value.
    pub open spec fn bind(self, value: Bound) -> Filter {
        Filter { bind: self.bind.push(value), ..self }
    }

    /// The parameter of the value that was bound last.
    pub open spec fn param(self) -> Seq<char> {
        parameter(self.bind.len() as int)
    }

    /// The conditions in one text, all of them required.
    pub open spec fn text(self) -> Seq<char> {
        join(self.clauses, " AND "@)
    }

    /// The conditions behind a keyword; nothing where there are none.
    pub open spec fn behind(self, keyword: Seq<char>) -> Seq<char> {
        if self.clauses.len() == 0 {
            Seq::empty()
        } else {
            keyword + self.text()
        }
    }
}

/// The text of a parameter.
pub fn param_text(n: usize) -> (r: String)
    ensures
        r@ == parameter(n as int),
{
    let digits = u64_text(n as u64);
    lit("?").concat(digits.as_str())
}

impl Conditions {
    pub fn new() -> (r: Conditions)
        ensures
            r@ == Filter::all(),
    {
        let r = Conditions { clauses: Vec::new(), bind: Vec::new() };
        proof {
            assert(r@.clauses =~= Filter::all().clauses);
            assert(r@.bind =~= Filter::all().bind);
        }
        r
    }

    /// One more condition.
    pub fn and(&mut self, clause: String)
        ensures
            final(self)@ == old(self)@.and(clause@),
    {
        let ghost before = self@;
        self.clauses.push(clause);
        proof {
            assert(self@.clauses =~= before.clauses.push(clause@));
            assert(self@ =~= before.and(clause@));
        }
    }

    /// One more value; returns its parameter.
    pub fn bind(&mut self, value: Bind) -> (r: String)
        ensures
            final(self)@ == old(self)@.bind(value@),
            r@ == final(self)@.param(),
    {
        let ghost before = self@;
        self.bind.push(value);
        proof {
            assert(self@.bind =~= before.bind.push(value@));
            assert(self@ =~= before.bind(value@));
        }
        param_text(self.bind.len())
    }

    /// The conditions in one text.
    pub fn text(&self) -> (r: String)
        ensures
            r@ == self@.text(),
    {
        join_texts(&self.clauses, " AND ")
    }

    /// The conditions behind a keyword.
    pub fn behind(&self, keyword: &str) -> (r: String)
        ensures
            r@ == self@.behind(keyword@),
    {
        proof {
            assert(self@.clauses.len() == self.clauses@.len());
        }
        if self.clauses.len() == 0 {
            return String::new();
        }
        let all = self.text();
        lit(keyword).concat(all.as_str())
    }
}

/// The parameters from the first up to the n-th, with commas between them.
pub open spec fn parameters(n: int) -> Seq<char> {
    join(Seq::new(n as nat, |i: int| parameter(i + 1)), ","@)
}

/// Parameters for a list of values.
pub fn numbered_parameters(n: usize) -> (r: String)
    requires
        n < usize::MAX,
    ensures
        r@ == parameters(n as int),
{
    let mut list: Vec<String> = Vec::new();
    let mut i: usize = 0;
    while i < n
        invariant
            i <= n < usize::MAX,
            list@.len() == i,
            forall|k: int| 0 <= k < i ==> (#[trigger] list@[k])@ == parameter(k + 1),
        decreases n - i,
    {
        list.push(param_text(i + 1));
        i = i + 1;
    }
    proof {
        assert(texts(list@) =~= Seq::new(n as nat, |i: int| parameter(i + 1)));
    }
    join_texts(&list, ",")
}

/// Numbers in decimal, with commas between them.
pub open spec fn number_list(ids: Seq<i64>) -> Seq<char> {
    join(ids.map_values(|n: i64| signed_decimal(n as int)), ","@)
}

/// Write numbers into a query.
pub fn write_numbers(ids: &Vec<i64>) -> (r: String)
    ensures
        r@ == number_list(ids@),
{
    let mut list: Vec<String> = Vec::new();
    let mut i: usize = 0;
    while i < ids.len()
        invariant
            i <= ids.len(),
            list@.len() == i,
            forall|k: int| 0 <= k < i ==> (#[trigger] list@[k])@ == signed_decimal(ids@[k] as int),
        decreases ids.len() - i,
    {
        list.push(crate::text::i64_text(ids[i]));
        i = i + 1;
    }
    proof {
        assert(texts(list@) =~= ids@.map_values(|n: i64| signed_decimal(n as int)));
    }
    join_texts(&list, ",")
}

/// A text with the wildcards of LIKE made to stand for themselves.
pub open spec fn like_escaped(s: Seq<char>) -> Seq<char> {
    crate::text::replaced(
        crate::text::replaced(crate::text::replaced(s, '\\', "\\\\"@), '%', "\\%"@),
        '_',
        "\\_"@,
    )
}

/// Escape LIKE wildcards so a literal % or _ in the query can't scan-match.
pub fn escape_like(s: &str) -> (r: String)
    ensures
        r@ == like_escaped(s@),
{
    let a = crate::text::replace_char(s, '\\', "\\\\");
    let b = crate::text::replace_char(a.as_str(), '%', "\\%");
    crate::text::replace_char(b.as_str(), '_', "\\_")
}

/// The pattern of every text that holds `s`.
pub open spec fn holding(s: Seq<char>) -> Seq<char> {
    "%"@ + s + "%"@
}

pub fn holding_pattern(s: &str) -> (r: String)
    ensures
        r@ == holding(s@),
{
    lit("%").concat(s).concat("%")
}

/// The numbers of a list that SQLite joined with commas; what is no number is passed over.
pub open spec fn read_numbers(parts: Seq<Seq<char>>) -> Seq<i64>
    decreases parts.len(),
{
    if parts.len() == 0 {
        Seq::empty()
    } else {
        let before = read_numbers(parts.drop_last());
        match crate::text::parsed_i64(parts.last()) {
            Some(n) => before.push(n),
            None => before,
        }
    }
}

/// The numbers among texts.
pub fn parse_numbers(parts: &Vec<String>) -> (r: Vec<i64>)
    ensures
        r@ == read_numbers(texts(parts@)),
{
    let ghost all = texts(parts@);
    let mut out: Vec<i64> = Vec::new();
    let mut i: usize = 0;
    proof {
        assert(all.take(0) == Seq::<Seq<char>>::empty());
    }
    while i < parts.len()
        invariant
            i <= parts.len(),
            all == texts(parts@),
            out@ == read_numbers(all.take(i as int)),
        decreases parts.len() - i,
    {
        proof {
            assert(all.take(i + 1).drop_last() == all.take(i as int));
            assert(all.take(i + 1).last() == parts@[i as int]@);
        }
        match crate::text::parse_i64(parts[i].as_str()) {
            Some(n) => {
                out.push(n);
            },
            None => {},
        }
        i = i + 1;
    }
    proof {
        assert(all.take(all.len() as int) == all);
    }
    out
}

} // verus!
