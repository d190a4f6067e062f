//! Texts folded for comparison: neither case nor accents count.

use crate::text::{chars, from_chars, lowercase};
use vstd::prelude::*;
use vstd::string::*;

verus! {

/// A mark that stands over the letter before it.
pub open spec fn is_mark(c: char) -> bool {
    '\u{300}' <= c <= '\u{36f}'
}

/// The plain letter of a small Latin letter with an accent; any other character itself.
pub open spec fn plain_letter(c: char) -> char {
    if ('\u{e0}' <= c <= '\u{e5}') || c == '\u{101}' || c == '\u{103}' || c == '\u{105}' {
        'a'
    } else if c == '\u{e7}' || c == '\u{107}' || c == '\u{109}' || c == '\u{10b}' || c == '\u{10d}' {
        'c'
    } else if c == '\u{10f}' {
        'd'
    } else if ('\u{e8}' <= c <= '\u{eb}') || c == '\u{113}' || c == '\u{115}' || c == '\u{117}' || c
        == '\u{119}' || c == '\u{11b}' {
        'e'
    } else if c == '\u{11d}' || c == '\u{11f}' || c == '\u{121}' || c == '\u{123}' {
        'g'
    } else if c == '\u{125}' {
        'h'
    } else if ('\u{ec}' <= c <= '\u{ef}') || c == '\u{129}' || c == '\u{12b}' || c == '\u{12d}' || c
        == '\u{12f}' {
        'i'
    } else if c == '\u{135}' {
        'j'
    } else if c == '\u{137}' {
        'k'
    } else if c == '\u{13a}' || c == '\u{13c}' || c == '\u{13e}' {
        'l'
    } else if c == '\u{f1}' || c == '\u{144}' || c == '\u{146}' || c == '\u{148}' {
        'n'
    } else if ('\u{f2}' <= c <= '\u{f6}') || c == '\u{14d}' || c == '\u{14f}' || c == '\u{151}' {
        'o'
    } else if c == '\u{155}' || c == '\u{157}' || c == '\u{159}' {
        'r'
    } else if c == '\u{15b}' || c == '\u{15d}' || c == '\u{15f}' || c == '\u{161}' {
        's'
    } else if c == '\u{163}' || c == '\u{165}' {
        't'
    } else if ('\u{f9}' <= c <= '\u{fc}') || c == '\u{169}' || c == '\u{16b}' || c == '\u{16d}' || c
        == '\u{16f}' || c == '\u{171}' || c == '\u{173}' {
        'u'
    } else if c == '\u{175}' {
        'w'
    } else if c == '\u{fd}' || c == '\u{ff}' || c == '\u{177}' {
        'y'
    } else if c == '\u{17a}' || c == '\u{17c}' || c == '\u{17e}' {
        'z'
    } else {
        c
    }
}

fn plain(c: char) -> (r: char)
    ensures
        r == plain_letter(c),
{
    match c {
        '\u{e0}'..='\u{e5}' | '\u{101}' | '\u{103}' | '\u{105}' => 'a',
        '\u{e7}' | '\u{107}' | '\u{109}' | '\u{10b}' | '\u{10d}' => 'c',
        '\u{10f}' => 'd',
        '\u{e8}'..='\u{eb}' | '\u{113}' | '\u{115}' | '\u{117}' | '\u{119}' | '\u{11b}' => 'e',
        '\u{11d}' | '\u{11f}' | '\u{121}' | '\u{123}' => 'g',
        '\u{125}' => 'h',
        '\u{ec}'..='\u{ef}' | '\u{129}' | '\u{12b}' | '\u{12d}' | '\u{12f}' => 'i',
        '\u{135}' => 'j',
        '\u{137}' => 'k',
        '\u{13a}' | '\u{13c}' | '\u{13e}' => 'l',
        '\u{f1}' | '\u{144}' | '\u{146}' | '\u{148}' => 'n',
        '\u{f2}'..='\u{f6}' | '\u{14d}' | '\u{14f}' | '\u{151}' => 'o',
        '\u{155}' | '\u{157}' | '\u{159}' => 'r',
        '\u{15b}' | '\u{15d}' | '\u{15f}' | '\u{161}' => 's',
        '\u{163}' | '\u{165}' => 't',
        '\u{f9}'..='\u{fc}' | '\u{169}' | '\u{16b}' | '\u{16d}' | '\u{16f}' | '\u{171}' | '\u{173}' => 'u',
        '\u{175}' => 'w',
        '\u{fd}' | '\u{ff}' | '\u{177}' => 'y',
        '\u{17a}' | '\u{17c}' | '\u{17e}' => 'z',
        _ => c,
    }
}

/// A text without its accents.
pub open spec fn unaccented(s: Seq<char>) -> Seq<char>
    decreases s.len(),
{
    if s.len() == 0 {
        Seq::empty()
    } else if is_mark(s.last()) {
        unaccented(s.drop_last())
    } else {
        unaccented(s.drop_last()).push(plain_letter(s.last()))
    }
}

/// A text folded for comparison: in lower case, without accents.
pub open spec fn folded(s: Seq<char>) -> Seq<char> {
    unaccented(lowercase(s))
}

/// Fold a text for comparison.
pub fn fold(text: &str) -> (r: String)
    ensures
        r@ == folded(text@),
{
    let low = text.to_lowercase();
    let v = chars(low.as_str());
    let mut out: Vec<char> = Vec::new();
    let mut i: usize = 0;
    proof {
        assert(v@.take(0) =~= Seq::<char>::empty());
    }
    while i < v.len()
        invariant
            i <= v.len(),
            out@ == unaccented(v@.take(i as int)),
        decreases v.len() - i,
    {
        proof {
            assert(v@.take(i + 1).drop_last() =~= v@.take(i as int));
            assert(v@.take(i + 1).last() == v@[i as int]);
        }
        if !('\u{300}' <= v[i] && v[i] <= '\u{36f}') {
            out.push(plain(v[i]));
        }
        i = i + 1;
    }
    proof {
        assert(v@.take(v@.len() as int) =~= v@);
    }
    from_chars(out.as_slice())
}

/// What is folded holds no mark and no accented letter any more, so that folding again changes
/// nothing.
pub proof fn accents_are_folded_away(s: Seq<char>)
    ensures
        forall|i: int|
            0 <= i < unaccented(s).len() ==> !is_mark(#[trigger] unaccented(s)[i]) && plain_letter(
                unaccented(s)[i],
            ) == unaccented(s)[i],
        unaccented(unaccented(s)) == unaccented(s),
    decreases s.len(),
{
    if s.len() > 0 {
        let head = unaccented(s.drop_last());
        accents_are_folded_away(s.drop_last());
        if !is_mark(s.last()) {
            let c = plain_letter(s.last());
            assert(!is_mark(c) && plain_letter(c) == c);
            assert(head.push(c).drop_last() =~= head);
            assert forall|i: int| 0 <= i < unaccented(s).len() implies !is_mark(
                #[trigger] unaccented(s)[i],
            ) && plain_letter(unaccented(s)[i]) == unaccented(s)[i] by {
                if i < head.len() {
                    assert(unaccented(s)[i] == head[i]);
                }
            }
        }
    }
}

} // verus!
