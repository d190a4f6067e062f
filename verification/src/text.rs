//! Text: character sequences, decimal numbers, splitting and joining.
//!
//! Every contract of the crate speaks of text as a `Seq<char>`, the view of `str` and `String`.

use vstd::prelude::*;
use vstd::string::*;

verus! {

/// `String::push` appends one character.
pub assume_specification[ String::push ](s: &mut String, c: char)
    ensures
        final(s)@ == old(s)@.push(c),
;

/// `str` equality compares the two texts character by character.
pub assume_specification[ <str as PartialEq<str>>::eq ](a: &str, b: &str) -> (r: bool)
    ensures
        r == (a@ == b@),
;

/// What `char::is_whitespace` answers: the Unicode `White_Space` property.
pub uninterp spec fn whitespace(c: char) -> bool;

/// `char::is_whitespace` depends on the character alone.
pub assume_specification[ char::is_whitespace ](c: char) -> (r: bool)
    ensures
        r == whitespace(c),
;

/// What `char::is_alphanumeric` answers: the Unicode `Alphabetic` and numeric properties.
pub uninterp spec fn alphanumeric(c: char) -> bool;

/// `char::is_alphanumeric` depends on the character alone.
pub assume_specification[ char::is_alphanumeric ](c: char) -> (r: bool)
    ensures
        r == alphanumeric(c),
;

/// What `str::to_lowercase` returns.
pub uninterp spec fn lowercase(s: Seq<char>) -> Seq<char>;

/// `str::to_lowercase` is a function of the text alone.
pub assume_specification[ str::to_lowercase ](s: &str) -> (r: String)
    ensures
        r@ == lowercase(s@),
;

/// An owned copy of a text.
pub fn lit(s: &str) -> (r: String)
    ensures
        r@ == s@,
{
    s.to_owned()
}

/// Whether two texts are the same.
pub fn same(a: &str, b: &str) -> (r: bool)
    ensures
        r == (a@ == b@),
{
    *a == *b
}

/// The texts of a list of strings.
pub open spec fn texts(v: Seq<String>) -> Seq<Seq<char>> {
    v.map_values(|s: String| s@)
}

/// The text of an optional string.
pub open spec fn opt(o: Option<String>) -> Option<Seq<char>> {
    match o {
        Some(s) => Some(s@),
        None => None,
    }
}

/// The text of an optional borrowed string.
pub open spec fn opt_str(o: Option<&str>) -> Option<Seq<char>> {
    match o {
        Some(s) => Some(s@),
        None => None,
    }
}

/// The characters of a text.
pub fn chars(s: &str) -> (r: Vec<char>)
    ensures
        r@ == s@,
{
    let mut out: Vec<char> = Vec::new();
    for c in it: s.chars()
        invariant
            out@ == it.history(),
    {
        out.push(c);
    }
    out
}

/// The text that a list of characters spells.
pub fn from_chars(v: &[char]) -> (r: String)
    ensures
        r@ == v@,
{
    let mut out = String::new();
    let mut i: usize = 0;
    while i < v.len()
        invariant
            i <= v.len(),
            out@ == v@.take(i as int),
        decreases v.len() - i,
    {
        out.push(v[i]);
        i = i + 1;
    }
    proof {
        assert(v@.take(v@.len() as int) == v@);
    }
    out
}

/// The characters from position `i` up to position `j`.
pub fn piece(v: &[char], i: usize, j: usize) -> (r: String)
    requires
        i <= j <= v@.len(),
    ensures
        r@ == v@.subrange(i as int, j as int),
{
    let mut out = String::new();
    let mut k: usize = i;
    while k < j
        invariant
            i <= k <= j <= v@.len(),
            out@ == v@.subrange(i as int, k as int),
        decreases j - k,
    {
        out.push(v[k]);
        proof {
            assert(v@.subrange(i as int, k as int).push(v@[k as int]) == v@.subrange(
                i as int,
                k + 1,
            ));
        }
        k = k + 1;
    }
    out
}

/// A control character: Unicode general category `Cc`.
pub open spec fn control(c: char) -> bool {
    c as u32 <= 0x1f || 0x7f <= c as u32 <= 0x9f
}

pub fn is_control(c: char) -> (r: bool)
    ensures
        r == control(c),
{
    let n: u32 = c as u32;
    n <= 0x1f || (0x7f <= n && n <= 0x9f)
}

/// The parts of `s` between the characters that `p` marks, as many as there are marks and one more.
pub open spec fn split(s: Seq<char>, p: spec_fn(char) -> bool) -> Seq<Seq<char>>
    decreases s.len(),
{
    if s.len() == 0 {
        seq![Seq::empty()]
    } else {
        let head = split(s.drop_last(), p);
        if p(s.last()) {
            head.push(Seq::empty())
        } else {
            head.drop_last().push(head.last().push(s.last()))
        }
    }
}

/// Splitting a text leaves at least one part.
pub(crate) proof fn split_len(s: Seq<char>, p: spec_fn(char) -> bool)
    ensures
        split(s, p).len() > 0,
    decreases s.len(),
{
    if s.len() > 0 {
        split_len(s.drop_last(), p);
    }
}

/// Split a text at every character that `mark` answers `true` for.
pub fn split_where<F: Fn(char) -> bool>(
    s: &str,
    mark: F,
    Ghost(p): Ghost<spec_fn(char) -> bool>,
) -> (r: Vec<String>)
    requires
        forall|c: char| mark.requires((c,)),
        forall|c: char, b: bool| mark.ensures((c,), b) ==> b == p(c),
    ensures
        texts(r@) == split(s@, p),
{
    let v = chars(s);
    let mut out: Vec<String> = Vec::new();
    let mut word = String::new();
    let mut i: usize = 0;
    proof {
        assert(v@.take(0) == Seq::<char>::empty());
        assert(texts(out@).push(word@) == split(v@.take(0), p));
    }
    while i < v.len()
        invariant
            i <= v.len(),
            v@ == s@,
            forall|c: char| mark.requires((c,)),
            forall|c: char, b: bool| mark.ensures((c,), b) ==> b == p(c),
            texts(out@).push(word@) == split(v@.take(i as int), p),
        decreases v.len() - i,
    {
        let c = v[i];
        let ghost before = split(v@.take(i as int), p);
        proof {
            assert(v@.take(i + 1).drop_last() == v@.take(i as int));
            assert(v@.take(i + 1).last() == c);
        }
        if mark(c) {
            let ghost old_out = out@;
            let ghost old_word = word@;
            out.push(word);
            word = String::new();
            proof {
                assert(texts(out@) =~= texts(old_out).push(old_word));
            }
        } else {
            let ghost old_word = word@;
            word.push(c);
            proof {
                assert(before.drop_last() =~= texts(out@));
                assert(before.last() == old_word);
            }
        }
        i = i + 1;
    }
    let ghost old_out = out@;
    let ghost old_word = word@;
    out.push(word);
    proof {
        assert(texts(out@) =~= texts(old_out).push(old_word));
        assert(v@.take(v@.len() as int) == v@);
    }
    out
}

/// Split a text at every occurrence of one character.
pub fn split_char(s: &str, sep: char) -> (r: Vec<String>)
    ensures
        texts(r@) == split(s@, |c: char| c == sep),
        r@.len() > 0,
{
    proof {
        split_len(s@, |c: char| c == sep);
    }
    let mark = |c: char| -> (b: bool)
        ensures
            b == (c == sep),
        {
            c == sep
        };
    let r = split_where(s, mark, Ghost(|c: char| c == sep));
    proof {
        assert(texts(r@).len() == r@.len());
    }
    r
}

/// The parts that hold at least one character, in order.
pub open spec fn nonempty(parts: Seq<Seq<char>>) -> Seq<Seq<char>> {
    parts.filter(|p: Seq<char>| p.len() > 0)
}

/// One item more is kept or not by itself.
pub(crate) proof fn filter_push<T>(s: Seq<T>, x: T, p: spec_fn(T) -> bool)
    ensures
        s.push(x).filter(p) == if p(x) {
            s.filter(p).push(x)
        } else {
            s.filter(p)
        },
{
    reveal(Seq::filter);
    assert(s.push(x).drop_last() == s);
}

/// Drop the empty parts.
pub fn keep_nonempty(parts: Vec<String>) -> (r: Vec<String>)
    ensures
        texts(r@) == nonempty(texts(parts@)),
{
    let mut out: Vec<String> = Vec::new();
    let mut i: usize = 0;
    proof {
        reveal(Seq::filter);
        assert(texts(parts@).take(0) == Seq::<Seq<char>>::empty());
        assert(texts(out@) =~= nonempty(texts(parts@).take(0)));
    }
    while i < parts.len()
        invariant
            i <= parts.len(),
            texts(out@) == nonempty(texts(parts@).take(i as int)),
        decreases parts.len() - i,
    {
        proof {
            assert(texts(parts@).take(i + 1) == texts(parts@).take(i as int).push(
                parts@[i as int]@,
            ));
            filter_push(
                texts(parts@).take(i as int),
                parts@[i as int]@,
                |p: Seq<char>| p.len() > 0,
            );
        }
        if !parts[i].as_str().is_empty() {
            let ghost before = out@;
            out.push(parts[i].clone());
            proof {
                assert(texts(out@) =~= texts(before).push(parts@[i as int]@));
            }
        }
        i = i + 1;
    }
    proof {
        assert(texts(parts@).take(parts@.len() as int) == texts(parts@));
    }
    out
}

/// The parts one after another, with `sep` between two neighbours.
pub open spec fn join(parts: Seq<Seq<char>>, sep: Seq<char>) -> Seq<char>
    decreases parts.len(),
{
    if parts.len() == 0 {
        Seq::empty()
    } else if parts.len() == 1 {
        parts[0]
    } else {
        join(parts.drop_last(), sep) + sep + parts.last()
    }
}

/// Join texts with a separator.
pub fn join_texts(parts: &Vec<String>, sep: &str) -> (r: String)
    ensures
        r@ == join(texts(parts@), sep@),
{
    if parts.len() == 0 {
        return String::new();
    }
    let mut out = parts[0].clone();
    let mut i: usize = 1;
    proof {
        assert(texts(parts@).take(1).len() == 1);
        assert(join(texts(parts@).take(1), sep@) == parts@[0]@);
    }
    while i < parts.len()
        invariant
            1 <= i <= parts.len(),
            out@ == join(texts(parts@).take(i as int), sep@),
        decreases parts.len() - i,
    {
        proof {
            let t = texts(parts@).take(i + 1);
            assert(t.drop_last() == texts(parts@).take(i as int));
            assert(t.last() == parts@[i as int]@);
        }
        out.append(sep);
        out.append(parts[i].as_str());
        i = i + 1;
    }
    proof {
        assert(texts(parts@).take(parts@.len() as int) == texts(parts@));
    }
    out
}

/// Whether `t` stands in `s` from position `i` on.
pub open spec fn stands_at(s: Seq<char>, t: Seq<char>, i: int) -> bool {
    0 <= i && i + t.len() <= s.len() && s.subrange(i, i + t.len()) == t
}

/// Whether `t` occurs anywhere in `s`.
pub open spec fn has_text(s: Seq<char>, t: Seq<char>) -> bool {
    exists|i: int| #[trigger] stands_at(s, t, i)
}

fn stands(v: &[char], t: &[char], i: usize) -> (r: bool)
    ensures
        r == stands_at(v@, t@, i as int),
{
    if v.len() < t.len() || i > v.len() - t.len() {
        return false;
    }
    let mut k: usize = 0;
    while k < t.len()
        invariant
            k <= t.len() <= v.len(),
            i + t.len() <= v.len(),
            forall|j: int| 0 <= j < k ==> v@[i + j] == t@[j],
        decreases t.len() - k,
    {
        if v[i + k] != t[k] {
            proof {
                assert(v@.subrange(i as int, i + t@.len())[k as int] == v@[i + k]);
            }
            return false;
        }
        k = k + 1;
    }
    proof {
        assert(v@.subrange(i as int, i + t@.len()) =~= t@);
    }
    true
}

/// `str::starts_with` for a text.
pub fn starts_with(s: &str, t: &str) -> (r: bool)
    ensures
        r == stands_at(s@, t@, 0),
{
    let v = chars(s);
    let w = chars(t);
    stands(v.as_slice(), w.as_slice(), 0)
}

/// `str::ends_with` for a text.
pub fn ends_with(s: &str, t: &str) -> (r: bool)
    ensures
        r == stands_at(s@, t@, s@.len() - t@.len()),
{
    let v = chars(s);
    let w = chars(t);
    if v.len() < w.len() {
        return false;
    }
    stands(v.as_slice(), w.as_slice(), v.len() - w.len())
}

/// `str::contains` for a text.
pub fn contains(s: &str, t: &str) -> (r: bool)
    ensures
        r == has_text(s@, t@),
{
    let v = chars(s);
    let w = chars(t);
    if v.len() < w.len() {
        return false;
    }
    let end: usize = v.len() - w.len();
    let mut i: usize = 0;
    while i <= end
        invariant
            v@ == s@,
            w@ == t@,
            i <= end + 1,
            end == v.len() - w.len(),
            forall|j: int| 0 <= j < i ==> !#[trigger] stands_at(s@, t@, j),
        decreases end + 1 - i,
    {
        if stands(v.as_slice(), w.as_slice(), i) {
            return true;
        }
        if i == end {
            return false;
        }
        i = i + 1;
    }
    false
}

/// Negative, zero or positive as `a` comes before `b` in code point order, is `b`, or comes after.
pub open spec fn text_order(a: Seq<char>, b: Seq<char>) -> int
    decreases a.len(),
{
    if a.len() == 0 {
        if b.len() == 0 {
            0
        } else {
            -1
        }
    } else if b.len() == 0 {
        1
    } else if a[0] == b[0] {
        text_order(a.skip(1), b.skip(1))
    } else if (a[0] as int) < (b[0] as int) {
        -1
    } else {
        1
    }
}

/// The order of texts is total: it is antisymmetric and transitive, and only equal texts tie.
pub proof fn text_order_is_total(a: Seq<char>, b: Seq<char>, c: Seq<char>)
    ensures
        text_order(a, b) == -text_order(b, a),
        text_order(a, b) == 0 <==> a == b,
        text_order(a, b) <= 0 && text_order(b, c) <= 0 ==> text_order(a, c) <= 0,
        text_order(a, b) < 0 && text_order(b, c) <= 0 ==> text_order(a, c) < 0,
        text_order(a, b) <= 0 && text_order(b, c) < 0 ==> text_order(a, c) < 0,
    decreases a.len() + b.len() + c.len(),
{
    if a.len() > 0 && b.len() > 0 {
        if c.len() > 0 {
            text_order_is_total(a.skip(1), b.skip(1), c.skip(1));
        } else {
            text_order_is_total(a.skip(1), b.skip(1), c);
        }
        if a[0] == b[0] && a.skip(1) == b.skip(1) {
            assert(a =~= seq![a[0]] + a.skip(1));
            assert(b =~= seq![b[0]] + b.skip(1));
        }
    } else {
        assert(a.len() == 0 && b.len() == 0 ==> a =~= b);
    }
}

/// The order of two texts.
pub fn order_texts(a: &str, b: &str) -> (r: i32)
    ensures
        r == text_order(a@, b@),
        -1 <= r <= 1,
{
    let v = chars(a);
    let w = chars(b);
    let mut i: usize = 0;
    proof {
        assert(v@.skip(0) == v@);
        assert(w@.skip(0) == w@);
    }
    while i < v.len() && i < w.len()
        invariant
            i <= v.len(),
            i <= w.len(),
            v@ == a@,
            w@ == b@,
            text_order(v@.skip(i as int), w@.skip(i as int)) == text_order(v@, w@),
        decreases v.len() - i,
    {
        proof {
            assert(v@.skip(i as int).skip(1) == v@.skip(i + 1));
            assert(w@.skip(i as int).skip(1) == w@.skip(i + 1));
        }
        if v[i] != w[i] {
            let x: char = v[i];
            let y: char = w[i];
            proof {
                assert(v@.skip(i as int)[0] == x);
                assert(w@.skip(i as int)[0] == y);
            }
            return if x < y { -1 } else { 1 };
        }
        i = i + 1;
    }
    if v.len() == w.len() {
        0
    } else if v.len() < w.len() {
        -1
    } else {
        1
    }
}

/// An ASCII letter in lower case; any other character as it is.
pub open spec fn ascii_lower(c: char) -> char {
    if 0x41 <= c as u32 <= 0x5a {
        (c as u32 + 32) as u8 as char
    } else {
        c
    }
}

/// Equal but for the case of ASCII letters.
pub open spec fn same_ascii(a: Seq<char>, b: Seq<char>) -> bool {
    a.len() == b.len() && forall|i: int|
        0 <= i < a.len() ==> ascii_lower(#[trigger] a[i]) == ascii_lower(b[i])
}

fn lower_ascii(c: char) -> (r: char)
    ensures
        r == ascii_lower(c),
{
    let n: u32 = c as u32;
    if 0x41 <= n && n <= 0x5a {
        (n + 32) as u8 as char
    } else {
        c
    }
}

/// `str::to_ascii_lowercase`.
pub fn ascii_lowercase(s: &str) -> (r: String)
    ensures
        r@ == s@.map_values(|c: char| ascii_lower(c)),
{
    let v = chars(s);
    let mut out = String::new();
    let mut i: usize = 0;
    while i < v.len()
        invariant
            v@ == s@,
            i <= v.len(),
            out@.len() == i,
            forall|k: int| 0 <= k < i ==> #[trigger] out@[k] == ascii_lower(s@[k]),
        decreases v.len() - i,
    {
        out.push(lower_ascii(v[i]));
        i = i + 1;
    }
    proof {
        assert(out@ =~= s@.map_values(|c: char| ascii_lower(c)));
    }
    out
}

/// `str::eq_ignore_ascii_case`.
pub fn is_same_ascii(a: &str, b: &str) -> (r: bool)
    ensures
        r == same_ascii(a@, b@),
{
    let v = chars(a);
    let w = chars(b);
    if v.len() != w.len() {
        return false;
    }
    let mut i: usize = 0;
    while i < v.len()
        invariant
            v@ == a@,
            w@ == b@,
            v.len() == w.len(),
            i <= v.len(),
            forall|j: int| 0 <= j < i ==> ascii_lower(#[trigger] a@[j]) == ascii_lower(b@[j]),
        decreases v.len() - i,
    {
        if lower_ascii(v[i]) != lower_ascii(w[i]) {
            proof {
                assert(ascii_lower(a@[i as int]) != ascii_lower(b@[i as int]));
            }
            return false;
        }
        i = i + 1;
    }
    true
}

/// Where a text first stands in a list.
pub fn find_text(v: &[String], t: &str) -> (r: Option<usize>)
    ensures
        match r {
            Some(i) => i < v@.len() && texts(v@)[i as int] == t@ && forall|j: int|
                0 <= j < i ==> texts(v@)[j] != t@,
            None => !texts(v@).contains(t@),
        },
{
    let mut i: usize = 0;
    while i < v.len()
        invariant
            i <= v.len(),
            forall|j: int| 0 <= j < i ==> texts(v@)[j] != t@,
        decreases v.len() - i,
    {
        if same(v[i].as_str(), t) {
            return Some(i);
        }
        i = i + 1;
    }
    None
}

/// Whether a text stands in a list.
pub fn has_member(v: &[String], t: &str) -> (r: bool)
    ensures
        r == texts(v@).contains(t@),
{
    match find_text(v, t) {
        Some(i) => {
            proof {
                assert(texts(v@)[i as int] == t@);
            }
            true
        },
        None => false,
    }
}

/// Whether a character occurs in a text.
pub fn has_char(s: &str, c: char) -> (r: bool)
    ensures
        r == s@.contains(c),
{
    let v = chars(s);
    let mut i: usize = 0;
    while i < v.len()
        invariant
            v@ == s@,
            i <= v.len(),
            forall|j: int| 0 <= j < i ==> v@[j] != c,
        decreases v.len() - i,
    {
        if v[i] == c {
            proof {
                assert(s@[i as int] == c);
            }
            return true;
        }
        i = i + 1;
    }
    false
}

/// Where `c` first stands in `s`; its length where it does not.
pub open spec fn first_at(s: Seq<char>, c: char) -> int
    decreases s.len(),
{
    if s.len() == 0 || s[0] == c {
        0
    } else {
        1 + first_at(s.skip(1), c)
    }
}

/// The first place of a character is the one that no other comes before.
pub(crate) proof fn first_at_is(s: Seq<char>, c: char, k: int)
    requires
        0 <= k <= s.len(),
        forall|j: int| 0 <= j < k ==> s[j] != c,
        k < s.len() ==> s[k] == c,
    ensures
        first_at(s, c) == k,
    decreases s.len(),
{
    if k > 0 {
        assert(forall|j: int| 0 <= j < k - 1 ==> s.skip(1)[j] == s[j + 1]);
        first_at_is(s.skip(1), c, k - 1);
    }
}

/// The two sides of the first `c`; `None` where there is none.
pub open spec fn once(s: Seq<char>, c: char) -> Option<(Seq<char>, Seq<char>)> {
    if s.contains(c) {
        Some((s.take(first_at(s, c)), s.skip(first_at(s, c) + 1)))
    } else {
        None
    }
}

/// `str::split_once` for a character.
pub fn split_once(s: &str, c: char) -> (r: Option<(String, String)>)
    ensures
        match r {
            Some((a, b)) => once(s@, c) == Some((a@, b@)),
            None => once(s@, c) is None,
        },
{
    let v = chars(s);
    let mut i: usize = 0;
    while i < v.len()
        invariant
            v@ == s@,
            i <= v.len(),
            forall|j: int| 0 <= j < i ==> v@[j] != c,
        decreases v.len() - i,
    {
        if v[i] == c {
            proof {
                first_at_is(s@, c, i as int);
                assert(s@.contains(c)) by {
                    assert(s@[i as int] == c);
                }
                assert(s@.take(i as int) =~= s@.subrange(0, i as int));
                assert(s@.skip(i + 1) =~= s@.subrange(i + 1, s@.len() as int));
            }
            return Some((piece(v.as_slice(), 0, i), piece(v.as_slice(), i + 1, v.len())));
        }
        i = i + 1;
    }
    None
}

/// `s` without the whitespace at its end.
pub open spec fn trim_end(s: Seq<char>) -> Seq<char>
    decreases s.len(),
{
    if s.len() > 0 && whitespace(s.last()) {
        trim_end(s.drop_last())
    } else {
        s
    }
}

/// `s` without the whitespace at its start.
pub open spec fn trim_start(s: Seq<char>) -> Seq<char>
    decreases s.len(),
{
    if s.len() > 0 && whitespace(s[0]) {
        trim_start(s.skip(1))
    } else {
        s
    }
}

/// `s` without the whitespace around it.
pub open spec fn trimmed(s: Seq<char>) -> Seq<char> {
    trim_end(trim_start(s))
}

/// `str::trim`.
pub fn trim(s: &str) -> (r: String)
    ensures
        r@ == trimmed(s@),
{
    let v = chars(s);
    let mut i: usize = 0;
    proof {
        assert(v@.skip(0) == v@);
    }
    while i < v.len() && v[i].is_whitespace()
        invariant
            v@ == s@,
            i <= v.len(),
            trim_start(v@.skip(i as int)) == trim_start(s@),
        decreases v.len() - i,
    {
        proof {
            assert(v@.skip(i as int)[0] == v@[i as int]);
            assert(v@.skip(i as int).skip(1) == v@.skip(i + 1));
        }
        i = i + 1;
    }
    proof {
        assert(trim_start(v@.skip(i as int)) == v@.skip(i as int)) by {
            if i < v@.len() {
                assert(v@.skip(i as int)[0] == v@[i as int]);
            }
        }
    }
    let mut j: usize = v.len();
    proof {
        assert(v@.subrange(i as int, v@.len() as int) == v@.skip(i as int));
    }
    while i < j && v[j - 1].is_whitespace()
        invariant
            v@ == s@,
            i <= j <= v.len(),
            trim_end(v@.subrange(i as int, j as int)) == trimmed(s@),
        decreases j,
    {
        proof {
            let t = v@.subrange(i as int, j as int);
            assert(t.last() == v@[j - 1]);
            assert(t.drop_last() == v@.subrange(i as int, j - 1));
        }
        j = j - 1;
    }
    proof {
        let t = v@.subrange(i as int, j as int);
        if i < j {
            assert(t.last() == v@[j - 1]);
        }
    }
    piece(v.as_slice(), i, j)
}

/// `str::trim_end`.
pub fn trim_tail(s: &str) -> (r: String)
    ensures
        r@ == trim_end(s@),
{
    let v = chars(s);
    let mut j: usize = v.len();
    proof {
        assert(v@.take(j as int) == v@);
    }
    while j > 0 && v[j - 1].is_whitespace()
        invariant
            v@ == s@,
            j <= v.len(),
            trim_end(v@.take(j as int)) == trim_end(s@),
        decreases j,
    {
        proof {
            assert(v@.take(j as int).last() == v@[j - 1]);
            assert(v@.take(j as int).drop_last() == v@.take(j - 1));
        }
        j = j - 1;
    }
    proof {
        if j > 0 {
            assert(v@.take(j as int).last() == v@[j - 1]);
        }
        assert(v@.take(j as int) =~= v@.subrange(0, j as int));
    }
    piece(v.as_slice(), 0, j)
}

/// `s` without the characters `c` at its end.
pub open spec fn trim_end_of(s: Seq<char>, c: char) -> Seq<char>
    decreases s.len(),
{
    if s.len() > 0 && s.last() == c {
        trim_end_of(s.drop_last(), c)
    } else {
        s
    }
}

/// `str::trim_end_matches` for a character.
pub fn trim_end_char(s: &str, c: char) -> (r: String)
    ensures
        r@ == trim_end_of(s@, c),
{
    let v = chars(s);
    let mut j: usize = v.len();
    proof {
        assert(v@.take(j as int) == v@);
    }
    while j > 0 && v[j - 1] == c
        invariant
            v@ == s@,
            j <= v.len(),
            trim_end_of(v@.take(j as int), c) == trim_end_of(s@, c),
        decreases j,
    {
        proof {
            assert(v@.take(j as int).last() == v@[j - 1]);
            assert(v@.take(j as int).drop_last() == v@.take(j - 1));
        }
        j = j - 1;
    }
    proof {
        if j > 0 {
            assert(v@.take(j as int).last() == v@[j - 1]);
        }
        assert(v@.take(j as int) =~= v@.subrange(0, j as int));
    }
    piece(v.as_slice(), 0, j)
}

/// `s` without the characters `c` at its start.
pub open spec fn trim_start_of(s: Seq<char>, c: char) -> Seq<char>
    decreases s.len(),
{
    if s.len() > 0 && s[0] == c {
        trim_start_of(s.skip(1), c)
    } else {
        s
    }
}

/// `str::trim_start_matches` for a character.
pub fn trim_start_char(s: &str, c: char) -> (r: String)
    ensures
        r@ == trim_start_of(s@, c),
{
    let v = chars(s);
    let mut i: usize = 0;
    proof {
        assert(v@.skip(0) == v@);
    }
    while i < v.len() && v[i] == c
        invariant
            v@ == s@,
            i <= v.len(),
            trim_start_of(v@.skip(i as int), c) == trim_start_of(s@, c),
        decreases v.len() - i,
    {
        proof {
            assert(v@.skip(i as int)[0] == v@[i as int]);
            assert(v@.skip(i as int).skip(1) == v@.skip(i + 1));
        }
        i = i + 1;
    }
    proof {
        if i < v@.len() {
            assert(v@.skip(i as int)[0] == v@[i as int]);
        }
        assert(v@.skip(i as int) =~= v@.subrange(i as int, v@.len() as int));
    }
    piece(v.as_slice(), i, v.len())
}

/// The words of a text: its parts between whitespace, those that hold anything.
pub open spec fn words(s: Seq<char>) -> Seq<Seq<char>> {
    nonempty(split(s, |c: char| whitespace(c)))
}

/// `str::split_whitespace`.
pub fn split_words(s: &str) -> (r: Vec<String>)
    ensures
        texts(r@) == words(s@),
{
    let mark = |c: char| -> (b: bool)
        ensures
            b == whitespace(c),
        {
            c.is_whitespace()
        };
    keep_nonempty(split_where(s, mark, Ghost(|c: char| whitespace(c))))
}

/// The text behind a prefix, where it has that prefix.
pub fn strip_prefix(s: &str, prefix: &str) -> (r: Option<String>)
    ensures
        match r {
            Some(t) => stands_at(s@, prefix@, 0) && t@ == s@.skip(prefix@.len() as int),
            None => !stands_at(s@, prefix@, 0),
        },
{
    let v = chars(s);
    let w = chars(prefix);
    if stands(v.as_slice(), w.as_slice(), 0) {
        proof {
            assert(s@.skip(prefix@.len() as int) =~= s@.subrange(
                prefix@.len() as int,
                s@.len() as int,
            ));
        }
        Some(piece(v.as_slice(), w.len(), v.len()))
    } else {
        None
    }
}

/// Each `c` of `s` written as `t`.
pub open spec fn replaced(s: Seq<char>, c: char, t: Seq<char>) -> Seq<char>
    decreases s.len(),
{
    if s.len() == 0 {
        Seq::empty()
    } else {
        replaced(s.drop_last(), c, t) + (if s.last() == c {
            t
        } else {
            seq![s.last()]
        })
    }
}

/// `str::replace` for a character.
pub fn replace_char(s: &str, c: char, t: &str) -> (r: String)
    ensures
        r@ == replaced(s@, c, t@),
{
    let v = chars(s);
    let mut out = String::new();
    let mut i: usize = 0;
    proof {
        assert(v@.take(0) == Seq::<char>::empty());
    }
    while i < v.len()
        invariant
            v@ == s@,
            i <= v.len(),
            out@ == replaced(v@.take(i as int), c, t@),
        decreases v.len() - i,
    {
        proof {
            assert(v@.take(i + 1).drop_last() == v@.take(i as int));
            assert(v@.take(i + 1).last() == v@[i as int]);
        }
        if v[i] == c {
            out.append(t);
        } else {
            let ghost before = out@;
            out.push(v[i]);
            proof {
                assert(out@ =~= before + seq![v@[i as int]]);
            }
        }
        i = i + 1;
    }
    proof {
        assert(v@.take(v@.len() as int) == v@);
    }
    out
}

/// Each occurrence of the pattern, from the left and without overlap, written as `t`.
pub open spec fn replaced_text(s: Seq<char>, pattern: Seq<char>, t: Seq<char>) -> Seq<char>
    decreases s.len(),
{
    if pattern.len() == 0 || s.len() < pattern.len() {
        s
    } else if stands_at(s, pattern, 0) {
        t + replaced_text(s.skip(pattern.len() as int), pattern, t)
    } else {
        seq![s[0]] + replaced_text(s.skip(1), pattern, t)
    }
}

/// `str::replace` for a pattern that is not empty.
pub fn replace_text(s: &str, pattern: &str, t: &str) -> (r: String)
    requires
        pattern@.len() > 0,
    ensures
        r@ == replaced_text(s@, pattern@, t@),
{
    let v = chars(s);
    let p = chars(pattern);
    let mut out = String::new();
    let mut i: usize = 0;
    proof {
        assert(v@.skip(0) == v@);
        assert(out@ + replaced_text(v@.skip(0), p@, t@) =~= replaced_text(s@, p@, t@));
    }
    while i < v.len() && v.len() - i >= p.len()
        invariant
            v@ == s@,
            p@ == pattern@,
            p@.len() > 0,
            i <= v.len(),
            out@ + replaced_text(v@.skip(i as int), p@, t@) == replaced_text(s@, p@, t@),
        decreases v.len() - i,
    {
        let ghost before = out@;
        let ghost rest = v@.skip(i as int);
        if stands(v.as_slice(), p.as_slice(), i) {
            proof {
                assert(rest.subrange(0, p@.len() as int) =~= v@.subrange(i as int, i + p@.len()));
                assert(stands_at(rest, p@, 0));
                assert(rest.skip(p@.len() as int) =~= v@.skip(i + p@.len()));
            }
            out.append(t);
            i = i + p.len();
            proof {
                assert(out@ + replaced_text(v@.skip(i as int), p@, t@) =~= before + replaced_text(
                    rest,
                    p@,
                    t@,
                ));
            }
        } else {
            proof {
                if stands_at(rest, p@, 0) {
                    assert(v@.subrange(i as int, i + p@.len()) =~= rest.subrange(
                        0,
                        p@.len() as int,
                    ));
                }
                assert(rest.skip(1) =~= v@.skip(i + 1));
                assert(rest[0] == v@[i as int]);
            }
            out.push(v[i]);
            i = i + 1;
            proof {
                assert(out@ + replaced_text(v@.skip(i as int), p@, t@) =~= before + replaced_text(
                    rest,
                    p@,
                    t@,
                ));
            }
        }
    }
    let ghost head = out@;
    let tail = piece(v.as_slice(), i, v.len());
    proof {
        assert(v@.subrange(i as int, v@.len() as int) =~= v@.skip(i as int));
    }
    out.append(tail.as_str());
    out
}

/// The character of a decimal digit.
pub open spec fn digit_char(d: int) -> char {
    (48 + d) as u8 as char
}

/// The decimal digits of a natural number, without leading zeros.
pub open spec fn decimal(n: nat) -> Seq<char>
    decreases n,
{
    if n < 10 {
        seq![digit_char(n as int)]
    } else {
        decimal(n / 10).push(digit_char((n % 10) as int))
    }
}

/// The decimal form of an integer: a minus sign where it is negative.
pub open spec fn signed_decimal(n: int) -> Seq<char> {
    if n < 0 {
        seq!['-'] + decimal((-n) as nat)
    } else {
        decimal(n as nat)
    }
}

/// A number is known by its decimal form.
pub proof fn decimal_is_injective(a: nat, b: nat)
    requires
        decimal(a) == decimal(b),
    ensures
        a == b,
    decreases a,
{
    decimal_is_not_empty(a);
    decimal_is_not_empty(b);
    assert(decimal(a).last() == digit_char((a % 10) as int));
    assert(decimal(b).last() == digit_char((b % 10) as int));
    assert(a % 10 == b % 10);
    if a < 10 {
        assert(decimal(a).len() == 1);
        if b >= 10 {
            decimal_is_not_empty(b / 10);
        }
    } else {
        decimal_is_not_empty(a / 10);
        if b < 10 {
            assert(decimal(b).len() == 1);
        } else {
            assert(decimal(a).drop_last() =~= decimal(a / 10));
            assert(decimal(b).drop_last() =~= decimal(b / 10));
            decimal_is_injective(a / 10, b / 10);
        }
    }
}

proof fn decimal_is_not_empty(n: nat)
    ensures
        decimal(n).len() > 0,
    decreases n,
{
    if n >= 10 {
        decimal_is_not_empty(n / 10);
    }
}

/// The decimal text of an unsigned number.
pub fn u64_text(n: u64) -> (r: String)
    ensures
        r@ == decimal(n as nat),
    decreases n,
{
    let d: u8 = (n % 10) as u8;
    let c = (48 + d) as char;
    if n < 10 {
        let mut out = String::new();
        out.push(c);
        proof {
            assert(out@ =~= seq![c]);
        }
        out
    } else {
        let mut out = u64_text(n / 10);
        out.push(c);
        out
    }
}

/// The decimal text of a signed number.
pub fn i64_text(n: i64) -> (r: String)
    ensures
        r@ == signed_decimal(n as int),
{
    if n >= 0 {
        u64_text(n as u64)
    } else {
        let mut out = String::new();
        out.push('-');
        let m: u64 = if n == i64::MIN {
            0x8000_0000_0000_0000
        } else {
            (-n) as u64
        };
        let digits = u64_text(m);
        proof {
            assert(out@ =~= seq!['-']);
        }
        out.append(digits.as_str());
        out
    }
}

/// Whether a character is a decimal digit.
pub open spec fn digit(c: char) -> bool {
    48 <= c as u32 <= 57
}

/// The number that a run of decimal digits writes.
pub open spec fn digits_value(s: Seq<char>) -> int
    decreases s.len(),
{
    if s.len() == 0 {
        0
    } else {
        digits_value(s.drop_last()) * 10 + (s.last() as u32 - 48)
    }
}

/// Whether a text is one or more decimal digits.
pub open spec fn digits(s: Seq<char>) -> bool {
    s.len() > 0 && forall|i: int| 0 <= i < s.len() ==> digit(#[trigger] s[i])
}

/// The text behind one leading plus sign.
pub open spec fn unsigned_part(s: Seq<char>) -> Seq<char> {
    if s.len() > 0 && s[0] == '+' {
        s.skip(1)
    } else {
        s
    }
}

/// What reading a `u64` gives: digits behind an optional plus sign, where the value fits.
pub open spec fn parsed_u64(s: Seq<char>) -> Option<u64> {
    let t = unsigned_part(s);
    if digits(t) && digits_value(t) <= u64::MAX {
        Some(digits_value(t) as u64)
    } else {
        None
    }
}

/// What reading an `i64` gives: digits behind an optional sign, where the value fits.
pub open spec fn parsed_i64(s: Seq<char>) -> Option<i64> {
    if s.len() > 0 && s[0] == '-' {
        if digits(s.skip(1)) && digits_value(s.skip(1)) <= -(i64::MIN as int) {
            Some((-digits_value(s.skip(1))) as i64)
        } else {
            None
        }
    } else {
        let t = unsigned_part(s);
        if digits(t) && digits_value(t) <= i64::MAX {
            Some(digits_value(t) as i64)
        } else {
            None
        }
    }
}

proof fn digits_value_monotone(s: Seq<char>, k: int)
    requires
        digits(s),
        0 <= k <= s.len(),
    ensures
        0 <= digits_value(s.take(k)) <= digits_value(s),
    decreases s.len(),
{
    if k == s.len() {
        assert(s.take(k) == s);
        if s.len() > 1 {
            assert(digits(s.drop_last())) by {
                assert(forall|i: int| 0 <= i < s.drop_last().len() ==> s.drop_last()[i] == s[i]);
            }
            digits_value_monotone(s.drop_last(), s.len() - 1);
            assert(s.drop_last().take(s.len() - 1) == s.drop_last());
        } else {
            assert(s.drop_last() == Seq::<char>::empty());
            assert(digits_value(s.drop_last()) == 0);
        }
        assert(digit(s[s.len() - 1]));
    } else {
        assert(digit(s[s.len() - 1]));
        if s.len() == 1 {
            assert(s.take(k) == Seq::<char>::empty());
            assert(s.drop_last() == Seq::<char>::empty());
            assert(digits_value(s.drop_last()) == 0);
        } else {
            assert(digits(s.drop_last())) by {
                assert(forall|i: int| 0 <= i < s.drop_last().len() ==> s.drop_last()[i] == s[i]);
            }
            digits_value_monotone(s.drop_last(), k);
            assert(s.drop_last().take(k) == s.take(k));
        }
    }
}

/// The value of the digits from position `from` on, where there are any and the value fits.
fn digits_from(v: &[char], from: usize) -> (r: Option<u64>)
    requires
        from <= v@.len(),
    ensures
        r == (if digits(v@.skip(from as int)) && digits_value(v@.skip(from as int)) <= u64::MAX {
            Some(digits_value(v@.skip(from as int)) as u64)
        } else {
            None
        }),
        r matches Some(n) ==> n == digits_value(v@.skip(from as int)),
{
    let ghost t = v@.skip(from as int);
    if from == v.len() {
        return None;
    }
    let mut value: u64 = 0;
    let mut i: usize = from;
    proof {
        assert(t.take(0) == Seq::<char>::empty());
    }
    while i < v.len()
        invariant
            from <= i <= v@.len(),
            from < v@.len(),
            t == v@.skip(from as int),
            forall|j: int| 0 <= j < i - from ==> digit(#[trigger] t[j]),
            value == digits_value(t.take(i - from)),
        decreases v.len() - i,
    {
        let c = v[i];
        proof {
            assert(t[i - from] == c);
            assert(t.take(i - from + 1).drop_last() == t.take(i - from));
            assert(t.take(i - from + 1).last() == c);
        }
        let n: u32 = c as u32;
        if n < 48 || n > 57 {
            proof {
                assert(!digit(t[i - from]));
            }
            return None;
        }
        let d: u64 = (n - 48) as u64;
        proof {
            if digits(t) {
                digits_value_monotone(t, i - from + 1);
            }
        }
        match value.checked_mul(10) {
            Some(m) => {
                match m.checked_add(d) {
                    Some(sum) => {
                        value = sum;
                    },
                    None => {
                        return None;
                    },
                }
            },
            None => {
                return None;
            },
        }
        i = i + 1;
    }
    proof {
        assert(t.take(t.len() as int) == t);
    }
    Some(value)
}

/// `str::parse::<u64>`.
pub fn parse_u64(s: &str) -> (r: Option<u64>)
    ensures
        r == parsed_u64(s@),
{
    let v = chars(s);
    if v.len() > 0 && v[0] == '+' {
        digits_from(v.as_slice(), 1)
    } else {
        proof {
            assert(v@.skip(0) == v@);
        }
        digits_from(v.as_slice(), 0)
    }
}

/// `str::parse::<i64>`.
pub fn parse_i64(s: &str) -> (r: Option<i64>)
    ensures
        r == parsed_i64(s@),
{
    let v = chars(s);
    proof {
        assert(v@.skip(0) == v@);
    }
    if v.len() > 0 && v[0] == '-' {
        match digits_from(v.as_slice(), 1) {
            Some(n) => {
                if n < 0x8000_0000_0000_0000 {
                    Some(-(n as i64))
                } else if n == 0x8000_0000_0000_0000 {
                    Some(i64::MIN)
                } else {
                    None
                }
            },
            None => None,
        }
    } else {
        let start: usize = if v.len() > 0 && v[0] == '+' { 1 } else { 0 };
        match digits_from(v.as_slice(), start) {
            Some(n) => {
                if n <= 0x7fff_ffff_ffff_ffff {
                    Some(n as i64)
                } else {
                    None
                }
            },
            None => None,
        }
    }
}

} // verus!
