//! RFC 8620 method envelopes with Stalwart's FileNode extension. The extension
//! is a draft: preserve unknown metadata and negotiate both permission shapes.

use crate::error::{fails, other, says, Result};
use crate::files::json::{field_views, views, Json, Value};
use crate::files::transport::{
    expand, filled, pairs, parsed_url, plain_methods, reaches, request_refusal, url_refusal,
    valid_url, Request, Transport,
};
use crate::files::{nodes, valid_name, validate_name, CollisionPolicy, FileNode, Node};
use crate::sorting::{
    decides, filter_keeps_items, in_order, kept_was_there, order_is_unique, sort_list, sorted_by,
    sorting_maps, sorting_orders_what_is_there,
};
use crate::text::{
    chars, has_char, has_text, is_same_ascii, lit, lowercase, opt, opt_str, order_texts, same,
    same_ascii, stands_at, text_order, texts,
};
use vstd::prelude::*;
use vstd::string::*;
use vstd::utf8::encode_utf8;

verus! {

pub const CAPABILITY: &'static str = "urn:ietf:params:jmap:filenode";

pub const CORE: &'static str = "urn:ietf:params:jmap:core";

pub const SHARING: &'static str = "urn:ietf:params:jmap:principals";

pub const QUOTA: &'static str = "urn:ietf:params:jmap:quota";

/// A storage space that the session offers.
#[derive(Clone, Debug)]
pub struct StorageAccount {
    pub id: String,
    pub name: String,
    pub read_only: bool,
}

/// The model of a [`StorageAccount`].
pub struct Space {
    pub id: Seq<char>,
    pub name: Seq<char>,
    pub read_only: bool,
}

impl View for StorageAccount {
    type V = Space;

    open spec fn view(&self) -> Space {
        Space { id: self.id@, name: self.name@, read_only: self.read_only }
    }
}

/// The models of a list of storage spaces.
pub open spec fn spaces(v: Seq<StorageAccount>) -> Seq<Space> {
    v.map_values(|a: StorageAccount| a@)
}

/// How a listing is narrowed and ordered.
#[derive(Clone, Debug)]
pub struct BrowseOptions {
    pub node_type: Option<String>,
    pub min_size: Option<u32>,
    pub max_size: Option<u32>,
    pub sort: String,
    pub descending: bool,
}

/// The model of [`BrowseOptions`].
pub struct Browse {
    pub node_type: Option<Seq<char>>,
    pub min_size: Option<u32>,
    pub max_size: Option<u32>,
    pub sort: Seq<char>,
    pub descending: bool,
}

impl View for BrowseOptions {
    type V = Browse;

    open spec fn view(&self) -> Browse {
        Browse {
            node_type: opt(self.node_type),
            min_size: self.min_size,
            max_size: self.max_size,
            sort: self.sort@,
            descending: self.descending,
        }
    }
}

impl Browse {
    /// Every node, in the server's order.
    pub open spec fn all() -> Browse {
        Browse {
            node_type: None,
            min_size: None,
            max_size: None,
            sort: Seq::empty(),
            descending: false,
        }
    }

    /// Whether a node passes: of the kind asked for and within the sizes asked for. A node without
    /// a size passes no size.
    pub open spec fn keeps(self, n: Node) -> bool {
        &&& self.node_type is Some ==> (self.node_type->0 == "directory"@) == n.directory()
        &&& self.min_size is Some ==> n.size is Some && n.size->0 >= self.min_size->0
        &&& self.max_size is Some ==> n.size is Some && n.size->0 <= self.max_size->0
    }

    /// The order of two nodes by the chosen property alone.
    pub open spec fn by_property(self, a: Node, b: Node) -> int {
        if self.sort == "size"@ {
            size_order(a.size, b.size)
        } else if self.sort == "nodeType"@ {
            if a.directory() == b.directory() {
                0
            } else if a.directory() {
                -1
            } else {
                1
            }
        } else {
            text_order(lowercase(a.name), lowercase(b.name))
        }
    }

    /// The order of two nodes: by the chosen property, then by id, turned round where asked.
    pub open spec fn order(self, a: Node, b: Node) -> int {
        let first = self.by_property(a, b);
        let forward = if first != 0 {
            first
        } else {
            text_order(a.id, b.id)
        };
        if self.descending {
            -forward
        } else {
            forward
        }
    }

    /// The nodes that pass, in order; nodes that tie keep the order in which they came.
    pub open spec fn arrange(self, s: Seq<Node>) -> Seq<Node> {
        sorted_by(s.filter(|n: Node| self.keeps(n)), |a: Node, b: Node| self.order(a, b) < 0)
    }
}

/// A missing size comes before every size.
pub open spec fn size_order(a: Option<u64>, b: Option<u64>) -> int {
    match (a, b) {
        (None, None) => 0,
        (None, Some(_)) => -1,
        (Some(_), None) => 1,
        (Some(x), Some(y)) => if x < y {
            -1
        } else if x == y {
            0
        } else {
            1
        },
    }
}

impl Default for BrowseOptions {
    fn default() -> (r: Self)
        ensures
            r@ == Browse::all(),
    {
        BrowseOptions {
            node_type: None,
            min_size: None,
            max_size: None,
            sort: String::new(),
            descending: false,
        }
    }
}

impl BrowseOptions {
    pub fn filtered(&self) -> (r: bool)
        ensures
            r == (self.node_type is Some || self.min_size is Some || self.max_size is Some),
    {
        self.node_type.is_some() || self.min_size.is_some() || self.max_size.is_some()
    }

    /// Whether a node passes the filters.
    pub fn keeps(&self, n: &FileNode) -> (r: bool)
        ensures
            r == self@.keeps(n@),
    {
        let kind = match &self.node_type {
            Some(t) => same(t.as_str(), "directory") == n.is_directory(),
            None => true,
        };
        let above = match self.min_size {
            Some(v) => match n.size {
                Some(s) => s >= v as u64,
                None => false,
            },
            None => true,
        };
        let below = match self.max_size {
            Some(v) => match n.size {
                Some(s) => s <= v as u64,
                None => false,
            },
            None => true,
        };
        kind && above && below
    }

    /// Whether `a` comes before `b`, ties with it or comes after.
    fn order(&self, a: &FileNode, b: &FileNode) -> (r: i32)
        ensures
            r == self@.order(a@, b@),
            -1 <= r <= 1,
    {
        let first: i32 = if same(self.sort.as_str(), "size") {
            match (a.size, b.size) {
                (None, None) => 0,
                (None, Some(_)) => -1,
                (Some(_), None) => 1,
                (Some(x), Some(y)) => if x < y {
                    -1
                } else if x == y {
                    0
                } else {
                    1
                },
            }
        } else if same(self.sort.as_str(), "nodeType") {
            let x = a.is_directory();
            let y = b.is_directory();
            if x == y {
                0
            } else if x {
                -1
            } else {
                1
            }
        } else {
            order_texts(
                a.name.as_str().to_lowercase().as_str(),
                b.name.as_str().to_lowercase().as_str(),
            )
        };
        let forward: i32 = if first != 0 {
            first
        } else {
            order_texts(a.id.as_str(), b.id.as_str())
        };
        if self.descending {
            -forward
        } else {
            forward
        }
    }

    /// Narrow and order a listing that is already here.
    pub fn apply_local(&self, list: &mut Vec<FileNode>)
        ensures
            nodes(final(list)@) == self@.arrange(nodes(old(list)@)),
    {
        let ghost all = nodes(list@);
        let ghost keep = |n: Node| self@.keeps(n);
        let mut rest: Vec<FileNode> = Vec::new();
        rest.append(list);
        let ghost whole = rest@;
        let mut kept: Vec<FileNode> = Vec::new();
        proof {
            reveal(Seq::filter);
            assert(nodes(whole) =~= all);
            assert(all.take(0) == Seq::<Node>::empty());
            assert(nodes(kept@) =~= all.take(0).filter(keep));
        }
        for n in it: rest
            invariant
                it.seq() == whole,
                nodes(whole) == all,
                keep == (|n: Node| self@.keeps(n)),
                nodes(kept@) == all.take(it.index()).filter(keep),
        {
            let ghost before = nodes(kept@);
            proof {
                assert(all.take(it.index() + 1) == all.take(it.index()).push(n@));
                crate::text::filter_push(all.take(it.index()), n@, keep);
            }
            if self.keeps(&n) {
                kept.push(n);
                proof {
                    assert(nodes(kept@) =~= before.push(n@));
                }
            }
        }
        let ghost held = kept@;
        let ghost seen = |a: Node, b: Node| self@.order(a, b) < 0;
        let ghost ahead = |a: FileNode, b: FileNode| self@.order(a@, b@) < 0;
        let comes_before = |a: &FileNode, b: &FileNode| -> (r: bool)
            ensures
                r == (self@.order(a@, b@) < 0),
            {
                self.order(a, b) < 0
            };
        *list = sort_list(kept, comes_before, Ghost(ahead));
        proof {
            assert(all.take(all.len() as int) == all);
            sorting_maps(held, ahead, |n: FileNode| n@, seen);
            assert(nodes(list@) == sorted_by(nodes(held), seen));
        }
    }
}

proof fn property_is_total(o: Browse, a: Node, b: Node, c: Node)
    ensures
        o.by_property(a, b) == -o.by_property(b, a),
        o.by_property(a, b) <= 0 && o.by_property(b, c) <= 0 ==> o.by_property(a, c) <= 0,
        o.by_property(a, b) < 0 && o.by_property(b, c) <= 0 ==> o.by_property(a, c) < 0,
        o.by_property(a, b) <= 0 && o.by_property(b, c) < 0 ==> o.by_property(a, c) < 0,
{
    crate::text::text_order_is_total(lowercase(a.name), lowercase(b.name), lowercase(c.name));
}

proof fn order_is_total(o: Browse, a: Node, b: Node, c: Node)
    ensures
        o.order(a, b) == -o.order(b, a),
        o.order(a, b) <= 0 && o.order(b, c) <= 0 ==> o.order(a, c) <= 0,
{
    crate::text::text_order_is_total(a.id, b.id, c.id);
    crate::text::text_order_is_total(b.id, c.id, a.id);
    crate::text::text_order_is_total(c.id, b.id, a.id);
    crate::text::text_order_is_total(a.id, c.id, b.id);
    property_is_total(o, a, b, c);
    property_is_total(o, b, c, a);
    property_is_total(o, c, b, a);
    property_is_total(o, a, c, b);
}

/// Browsing what is already here loses nothing and invents nothing: the result holds exactly the
/// nodes that pass the filters, each as often as before, and stands in the chosen order.
pub proof fn browsing_arranges_what_passes(o: Browse, s: Seq<Node>)
    ensures
        in_order(o.arrange(s), |a: Node, b: Node| o.order(a, b) < 0),
        o.arrange(s).to_multiset() == s.filter(|n: Node| o.keeps(n)).to_multiset(),
{
    let before = |a: Node, b: Node| o.order(a, b) < 0;
    assert forall|a: Node, b: Node| #[trigger] before(a, b) implies !before(b, a) by {
        order_is_total(o, a, b, a);
    }
    assert forall|a: Node, b: Node, c: Node|
        !#[trigger] before(b, a) && !#[trigger] before(c, b) implies !before(c, a) by {
        order_is_total(o, a, b, c);
        order_is_total(o, b, c, a);
        order_is_total(o, a, c, b);
    }
    sorting_orders_what_is_there(s.filter(|n: Node| o.keeps(n)), before);
}

/// What browsing shows, and in which order: the nodes of the chosen kind whose size lies within the
/// bounds, and all of those. They stand by size, those without one first, by kind, folders first,
/// or by name without regard to case, as was chosen; the other way round where that was chosen.
pub proof fn browsing_follows_the_choice(o: Browse, s: Seq<Node>)
    ensures
        ({
            let out = o.arrange(s);
            let fits = |n: Node|
                (o.node_type is Some ==> n.directory() == (o.node_type->0 == "directory"@)) && (
                o.min_size is Some ==> n.size is Some && o.min_size->0 <= n.size->0) && (
                o.max_size is Some ==> n.size is Some && n.size->0 <= o.max_size->0);
            &&& forall|n: Node| #[trigger] out.contains(n) <==> s.contains(n) && fits(n)
            &&& forall|i: int, j: int|
                #![trigger out[i], out[j]]
                0 <= i < j < out.len() ==> {
                    let (a, b) = if o.descending {
                        (out[j], out[i])
                    } else {
                        (out[i], out[j])
                    };
                    &&& o.sort == "size"@ ==> a.size is None || (b.size is Some && a.size->0
                        <= b.size->0)
                    &&& o.sort == "nodeType"@ ==> a.directory() || !b.directory()
                    &&& o.sort != "size"@ && o.sort != "nodeType"@ ==> text_order(
                        lowercase(a.name),
                        lowercase(b.name),
                    ) <= 0
                }
        }),
{
    broadcast use vstd::seq_lib::group_to_multiset_ensures;

    browsing_arranges_what_passes(o, s);
    let keeps = |n: Node| o.keeps(n);
    let before = |a: Node, b: Node| o.order(a, b) < 0;
    let kept = s.filter(keeps);
    let out = o.arrange(s);
    reveal_strlit("size");
    reveal_strlit("nodeType");
    assert("size"@.len() == 4 && "nodeType"@.len() == 8);
    assert forall|n: Node| #[trigger] out.contains(n) <==> s.contains(n) && keeps(n) by {
        assert(out.contains(n) <==> out.to_multiset().count(n) > 0);
        assert(kept.contains(n) <==> kept.to_multiset().count(n) > 0);
        if kept.contains(n) {
            let k = choose|k: int| 0 <= k < kept.len() && kept[k] == n;
            crate::sorting::kept_was_there(s, keeps, k);
        }
        if s.contains(n) && keeps(n) {
            let k = choose|k: int| 0 <= k < s.len() && s[k] == n;
            s.lemma_filter_contains(keeps, k);
        }
    }
    assert forall|i: int, j: int|
        #![trigger out[i], out[j]]
        0 <= i < j < out.len() implies !before(out[j], out[i]) by {}
    assert forall|i: int, j: int|
        #![trigger out[i], out[j]]
        0 <= i < j < out.len() implies (if o.descending {
        o.by_property(out[j], out[i]) <= 0
    } else {
        o.by_property(out[i], out[j]) <= 0
    }) by {
        assert(!before(out[j], out[i]));
        order_is_total(o, out[i], out[j], out[i]);
        property_is_total(o, out[i], out[j], out[i]);
    }
}

/// Whether no two nodes of a list have the same id.
pub open spec fn distinct_ids(s: Seq<Node>) -> bool {
    forall|i: int, j: int| 0 <= i < j < s.len() ==> (#[trigger] s[i]).id != (#[trigger] s[j]).id
}

/// The order leaves no two nodes tied where their ids differ.
proof fn order_decides(o: Browse, s: Seq<Node>, kept: Seq<Node>)
    requires
        distinct_ids(s),
        forall|n: Node| #[trigger] kept.contains(n) ==> s.contains(n),
    ensures
        decides(kept, |a: Node, b: Node| o.order(a, b) < 0),
{
    let before = |a: Node, b: Node| o.order(a, b) < 0;
    assert forall|x: Node, y: Node|
        kept.contains(x) && kept.contains(y) && !#[trigger] before(x, y) && !before(
            y,
            x,
        ) implies x == y by {
        order_is_total(o, x, y, x);
        property_is_total(o, x, y, x);
        crate::text::text_order_is_total(x.id, y.id, x.id);
        assert(s.contains(x) && s.contains(y));
        let i = choose|i: int| 0 <= i < s.len() && s[i] == x;
        let j = choose|j: int| 0 <= j < s.len() && s[j] == y;
        assert(s[i].id == s[j].id);
        if i < j {
            assert(s[i].id != s[j].id);
        } else if j < i {
            assert(s[j].id != s[i].id);
        }
    }
}

/// However the nodes came, browsing shows them in one order: two listings of the same nodes end as
/// the same sequence, and the descending one is exactly the reverse of the ascending one.
pub proof fn browsing_settles_the_order(o: Browse, a: Seq<Node>, b: Seq<Node>)
    requires
        distinct_ids(a),
        a.to_multiset() == b.to_multiset(),
    ensures
        o.arrange(a) == o.arrange(b),
        (Browse { descending: true, ..o }).arrange(a) == (Browse {
            descending: false,
            ..o
        }).arrange(a).reverse(),
{
    let keep = |n: Node| o.keeps(n);
    let before = |x: Node, y: Node| o.order(x, y) < 0;
    let first = o.arrange(a);
    let second = o.arrange(b);
    browsing_arranges_what_passes(o, a);
    browsing_arranges_what_passes(o, b);
    filter_keeps_items(a, keep);
    filter_keeps_items(b, keep);
    arranged_was_there(o, a);
    order_decides(o, a, first);
    order_is_unique(first, second, before);
    let up = Browse { descending: false, ..o };
    let down = Browse { descending: true, ..o };
    let forward = up.arrange(a);
    let backward = down.arrange(a);
    let after = |x: Node, y: Node| down.order(x, y) < 0;
    browsing_arranges_what_passes(up, a);
    browsing_arranges_what_passes(down, a);
    assert(a.filter(|n: Node| up.keeps(n)) == a.filter(|n: Node| down.keeps(n))) by {
        assert((|n: Node| up.keeps(n)) =~= (|n: Node| down.keeps(n)));
    }
    forward.lemma_reverse_to_multiset();
    let turned = forward.reverse();
    assert forall|i: int, j: int| 0 <= i < j < turned.len() implies !after(
        #[trigger] turned[j],
        #[trigger] turned[i],
    ) by {
        let n = forward.len();
        assert(turned[i] == forward[n - 1 - i]);
        assert(turned[j] == forward[n - 1 - j]);
        let ahead = |x: Node, y: Node| up.order(x, y) < 0;
        assert(!ahead(forward[n - 1 - i], forward[n - 1 - j]));
        order_is_total(up, turned[i], turned[j], turned[i]);
    }
    arranged_was_there(down, a);
    order_decides(down, a, backward);
    order_is_unique(backward, turned, after);
}

/// What browsing shows was there.
proof fn arranged_was_there(o: Browse, s: Seq<Node>)
    ensures
        forall|n: Node| #[trigger] o.arrange(s).contains(n) ==> s.contains(n),
{
    broadcast use vstd::seq_lib::group_to_multiset_ensures;

    let keep = |n: Node| o.keeps(n);
    browsing_arranges_what_passes(o, s);
    assert forall|n: Node| #[trigger] o.arrange(s).contains(n) implies s.contains(n) by {
        assert(o.arrange(s).to_multiset().count(n) > 0);
        assert(s.filter(keep).to_multiset().count(n) > 0);
        assert(s.filter(keep).contains(n));
        let i = choose|i: int| 0 <= i < s.filter(keep).len() && s.filter(keep)[i] == n;
        kept_was_there(s, keep, i);
    }
}

/// How one character of a search text stands in a name pattern: a wildcard stands for itself.
pub open spec fn pattern_char(c: char) -> Seq<char> {
    if c == '*' || c == '?' || c == '[' {
        seq!['[', c, ']']
    } else {
        seq![c]
    }
}

/// A search text with its wildcards made to stand for themselves.
pub open spec fn pattern_body(text: Seq<char>) -> Seq<char>
    decreases text.len(),
{
    if text.len() == 0 {
        Seq::empty()
    } else {
        pattern_body(text.drop_last()) + pattern_char(text.last())
    }
}

/// The pattern of every name that holds the text.
pub open spec fn name_pattern(text: Seq<char>) -> Seq<char> {
    (seq!['*'] + pattern_body(text)).push('*')
}

/// Whether a name matches a pattern: `*` stands for any text, `?` for any character, a character in
/// brackets for that character, and every other character for itself.
pub open spec fn matches_pattern(name: Seq<char>, pattern: Seq<char>) -> bool
    decreases pattern.len(), name.len(),
{
    if pattern.len() == 0 {
        name.len() == 0
    } else if pattern[0] == '*' {
        matches_pattern(name, pattern.skip(1)) || (name.len() > 0 && matches_pattern(
            name.skip(1),
            pattern,
        ))
    } else if pattern[0] == '?' {
        name.len() > 0 && matches_pattern(name.skip(1), pattern.skip(1))
    } else if pattern[0] == '[' {
        pattern.len() >= 3 && pattern[2] == ']' && name.len() > 0 && name[0] == pattern[1]
            && matches_pattern(name.skip(1), pattern.skip(3))
    } else {
        name.len() > 0 && name[0] == pattern[0] && matches_pattern(name.skip(1), pattern.skip(1))
    }
}

/// A pattern that begins with `*` matches what the rest matches at some place.
proof fn star_skips(name: Seq<char>, rest: Seq<char>)
    ensures
        matches_pattern(name, seq!['*'] + rest) <==> exists|k: int|
            0 <= k <= name.len() && #[trigger] matches_pattern(name.skip(k), rest),
    decreases name.len(),
{
    let pattern = seq!['*'] + rest;
    assert(pattern.skip(1) =~= rest);
    assert(name.skip(0) =~= name);
    assert(matches_pattern(name.skip(0), rest) == matches_pattern(name, rest));
    assert(pattern[0] == '*');
    if name.len() > 0 {
        star_skips(name.skip(1), rest);
        if exists|k: int| 0 <= k <= name.len() && #[trigger] matches_pattern(name.skip(k), rest) {
            let k = choose|k: int|
                0 <= k <= name.len() && #[trigger] matches_pattern(name.skip(k), rest);
            if k > 0 {
                assert(name.skip(1).skip(k - 1) =~= name.skip(k));
                assert(matches_pattern(name.skip(1).skip(k - 1), rest));
            }
        }
        if matches_pattern(name.skip(1), pattern) {
            let k = choose|k: int|
                0 <= k <= name.skip(1).len() && #[trigger] matches_pattern(
                    name.skip(1).skip(k),
                    rest,
                );
            assert(name.skip(1).skip(k) =~= name.skip(k + 1));
            assert(matches_pattern(name.skip(k + 1), rest));
        }
    } else if exists|k: int| 0 <= k <= name.len() && #[trigger] matches_pattern(
        name.skip(k),
        rest,
    ) {
        let k = choose|k: int|
            0 <= k <= name.len() && #[trigger] matches_pattern(name.skip(k), rest);
        assert(name.skip(k) =~= name);
    }
}

/// The pattern of a text begins with that of its first character.
proof fn pattern_begins(text: Seq<char>)
    requires
        text.len() > 0,
    ensures
        pattern_body(text) == pattern_char(text[0]) + pattern_body(text.skip(1)),
    decreases text.len(),
{
    let rest = text.skip(1);
    if text.len() == 1 {
        assert(text.drop_last() =~= Seq::<char>::empty());
        assert(rest =~= Seq::<char>::empty());
        assert(pattern_body(text) =~= pattern_char(text[0]) + pattern_body(rest));
    } else {
        pattern_begins(text.drop_last());
        assert(text.drop_last().skip(1) =~= rest.drop_last());
        assert(pattern_body(text) =~= pattern_char(text[0]) + pattern_body(rest));
    }
}

/// The pattern of a text matches that text.
proof fn pattern_reads(name: Seq<char>, text: Seq<char>, rest: Seq<char>)
    ensures
        matches_pattern(name, pattern_body(text) + rest) <==> stands_at(name, text, 0)
            && matches_pattern(name.skip(text.len() as int), rest),
    decreases text.len(),
{
    if text.len() == 0 {
        assert(pattern_body(text) + rest =~= rest);
        assert(name.skip(0) =~= name);
        assert(name.subrange(0, 0) =~= text);
    } else {
        pattern_begins(text);
        let more = text.skip(1);
        let pattern = pattern_body(text) + rest;
        let tail = pattern_body(more) + rest;
        assert(pattern =~= pattern_char(text[0]) + tail);
        assert(pattern.skip(pattern_char(text[0]).len() as int) =~= tail);
        if name.len() > 0 {
            pattern_reads(name.skip(1), more, rest);
            if name.len() >= text.len() {
                assert(name.skip(1).skip(more.len() as int) =~= name.skip(text.len() as int));
                assert(name.skip(1).subrange(0, more.len() as int) =~= name.subrange(
                    1,
                    text.len() as int,
                ));
            }
            if stands_at(name, text, 0) {
                assert(name[0] == name.subrange(0, text.len() as int)[0]);
                assert(name.subrange(1, text.len() as int) =~= name.subrange(
                    0,
                    text.len() as int,
                ).skip(1));
            }
            if name[0] == text[0] && stands_at(name.skip(1), more, 0) {
                assert forall|k: int| 0 <= k < text.len() implies name[k] == text[k] by {
                    if k > 0 {
                        assert(name.skip(1).subrange(0, more.len() as int)[k - 1] == more[k - 1]);
                    }
                }
                assert(name.subrange(0, text.len() as int) =~= text);
            }
        }
    }
}

/// The pattern that a search text makes matches the names that hold the text, and no other: the
/// wildcards in the text stand for themselves.
pub proof fn patterns_find_the_text(name: Seq<char>, text: Seq<char>)
    ensures
        matches_pattern(name, name_pattern(text)) <==> has_text(name, text),
{
    let body = pattern_body(text);
    let end = seq!['*'];
    let rest = body + end;
    assert(name_pattern(text) =~= seq!['*'] + rest);
    star_skips(name, rest);
    assert forall|k: int| 0 <= k <= name.len() implies (#[trigger] matches_pattern(
        name.skip(k),
        rest,
    ) <==> stands_at(name, text, k)) by {
        let from = name.skip(k);
        pattern_reads(from, text, end);
        if k + text.len() <= name.len() {
            assert(from.subrange(0, text.len() as int) =~= name.subrange(k, k + text.len()));
            let left = from.skip(text.len() as int);
            assert(end =~= seq!['*'] + Seq::<char>::empty());
            star_skips(left, Seq::empty());
            assert(matches_pattern(left.skip(left.len() as int), Seq::empty()));
        }
    }
    if has_text(name, text) {
        let k = choose|k: int| #[trigger] stands_at(name, text, k);
        assert(matches_pattern(name.skip(k), rest));
    }
}

pub fn filename_pattern(text: &str) -> (r: String)
    ensures
        r@ == name_pattern(text@),
{
    let v = chars(text);
    let mut pattern = String::new();
    pattern.push('*');
    let mut i: usize = 0;
    proof {
        assert(v@.take(0) == Seq::<char>::empty());
        assert(pattern@ =~= seq!['*'] + pattern_body(v@.take(0)));
    }
    while i < v.len()
        invariant
            v@ == text@,
            i <= v.len(),
            pattern@ == seq!['*'] + pattern_body(v@.take(i as int)),
        decreases v.len() - i,
    {
        let c = v[i];
        let ghost before = pattern@;
        proof {
            assert(v@.take(i + 1).drop_last() == v@.take(i as int));
            assert(v@.take(i + 1).last() == c);
        }
        if c == '*' || c == '?' || c == '[' {
            pattern.push('[');
            pattern.push(c);
            pattern.push(']');
        } else {
            pattern.push(c);
        }
        proof {
            assert(pattern@ =~= seq!['*'] + (pattern_body(v@.take(i as int)) + pattern_char(c)));
        }
        i = i + 1;
    }
    proof {
        assert(v@.take(v@.len() as int) == v@);
    }
    pattern.push('*');
    pattern
}

/// A page of a listing.
pub struct FilePage {
    pub nodes: Vec<FileNode>,
    pub state: String,
    pub query_state: String,
    pub next_position: Option<usize>,
}

/// A connection to JMAP file storage: its session and the storage space in use.
#[derive(Clone)]
pub struct FileClient {
    pub transport: Transport,
    pub session: Json,
    pub accounts: Vec<StorageAccount>,
    pub account_id: String,
    pub state: Option<String>,
    pub collision: CollisionPolicy,
    pub compare_case_insensitively: bool,
}

/// Whether an account of the session offers a capability.
pub open spec fn offers(account: Value, capability: Seq<char>) -> bool {
    account.at("accountCapabilities"@).has(capability)
}

/// The storage spaces among the accounts of a session, in its order.
pub open spec fn offered(fields: Seq<(Seq<char>, Value)>) -> Seq<Space>
    decreases fields.len(),
{
    if fields.len() == 0 {
        Seq::empty()
    } else {
        let before = offered(fields.drop_last());
        let (id, account) = fields.last();
        if offers(account, CAPABILITY@) {
            before.push(
                Space {
                    id,
                    name: match account.at("name"@).text() {
                        Some(name) => name,
                        None => id,
                    },
                    read_only: account.at("isReadOnly"@).bool() != Some(false),
                },
            )
        } else {
            before
        }
    }
}

/// The spaces of a session are its accounts that offer file storage, in order: each by its id, under
/// its name where it has one, and read-only unless the server says that it is not.
pub proof fn spaces_are_the_accounts_that_offer_storage(fields: Seq<(Seq<char>, Value)>)
    ensures
        ({
            let offering = |f: (Seq<char>, Value)|
                f.1.at("accountCapabilities"@).has("urn:ietf:params:jmap:filenode"@);
            let kept = fields.filter(offering);
            let list = offered(fields);
            &&& list.len() == kept.len()
            &&& forall|i: int|
                #![trigger list[i]]
                0 <= i < list.len() ==> {
                    let (id, account) = kept[i];
                    &&& list[i].id == id
                    &&& account.at("name"@) is Text ==> account.at("name"@) == Value::Text(
                        list[i].name,
                    )
                    &&& !(account.at("name"@) is Text) ==> list[i].name == id
                    &&& list[i].read_only == (account.at("isReadOnly"@) != Value::Bool(false))
                }
        }),
    decreases fields.len(),
{
    reveal(Seq::filter);
    if fields.len() > 0 {
        let head = fields.drop_last();
        spaces_are_the_accounts_that_offer_storage(head);
        let offering = |f: (Seq<char>, Value)|
            f.1.at("accountCapabilities"@).has("urn:ietf:params:jmap:filenode"@);
        let kept = fields.filter(offering);
        let before = head.filter(offering);
        let list = offered(fields);
        assert(offers(fields.last().1, CAPABILITY@) == offering(fields.last()));
        assert forall|i: int| 0 <= i < before.len() implies kept[i] == before[i] && list[i]
            == offered(head)[i] by {}
    }
}

/// Whether a storage space of that id is among them.
pub open spec fn has_space(list: Seq<Space>, id: Seq<char>) -> bool {
    exists|i: int| 0 <= i < list.len() && (#[trigger] list[i]).id == id
}

/// The storage space to begin with: the preferred one, else the session's primary one, each where
/// it is offered, else the first.
pub open spec fn first_space(list: Seq<Space>, preferred: Option<Seq<char>>, session: Value) -> Option<
    Seq<char>,
> {
    let primary = session.at("primaryAccounts"@).at(CAPABILITY@).text();
    if preferred is Some && has_space(list, preferred->0) {
        preferred
    } else if primary is Some && has_space(list, primary->0) {
        primary
    } else if list.len() > 0 {
        Some(list[0].id)
    } else {
        None
    }
}

/// The space that is opened first is one that is there: the one that was asked for, else the primary
/// one of the user, else the first.
pub proof fn the_asked_space_is_opened(
    list: Seq<Space>,
    preferred: Option<Seq<char>>,
    session: Value,
)
    ensures
        ({
            let first = first_space(list, preferred, session);
            let primary = session.at("primaryAccounts"@).at("urn:ietf:params:jmap:filenode"@);
            let asked = preferred is Some && has_space(list, preferred->0);
            &&& first is Some <==> list.len() > 0
            &&& first is Some ==> has_space(list, first->0)
            &&& asked ==> first == preferred
            &&& !asked && primary is Text && has_space(list, primary->Text_0) ==> first == Some(
                primary->Text_0,
            )
            &&& !asked && !(primary is Text && has_space(list, primary->Text_0)) && list.len() > 0
                ==> first == Some(list[0].id)
        }),
{
    if list.len() > 0 {
        assert(has_space(list, list[0].id));
    }
}

/// What a template of the session is tried with.
pub open spec fn probe(account: Seq<char>) -> Seq<(Seq<char>, Seq<char>)> {
    seq![
        ("accountId"@, account),
        ("blobId"@, "probe"@),
        ("name"@, "probe"@),
        ("type"@, "application/octet-stream"@),
    ]
}

/// Why a filled template cannot be used, if it cannot.
pub open spec fn fill_failure(
    template: Seq<char>,
    values: Seq<(Seq<char>, Seq<char>)>,
) -> Option<Seq<char>> {
    let out = filled(template, values);
    if out.contains('{') || out.contains('}') {
        Some("Unsupported storage URL template."@)
    } else if !valid_url(out) {
        Some(url_refusal(out))
    } else {
        None
    }
}

/// Why an endpoint of the session cannot be used, if it cannot: it must be there, and what it
/// expands to must be reachable with the credentials of the connection.
pub open spec fn endpoint_failure(
    t: Transport,
    session: Value,
    key: Seq<char>,
    account: Seq<char>,
) -> Option<Seq<char>> {
    match session.at(key).text() {
        None => Some("Incomplete JMAP session."@),
        Some(template) => match fill_failure(template, probe(account)) {
            Some(m) => Some(m),
            None => {
                let url = filled(template, probe(account));
                if reaches(t, url) {
                    None
                } else {
                    Some(request_refusal(t, "GET"@, url))
                }
            },
        },
    }
}

/// Why a session cannot be used for file storage, if it cannot.
pub open spec fn connect_failure(
    t: Transport,
    session: Value,
    preferred: Option<Seq<char>>,
) -> Option<Seq<char>> {
    if !session.at("capabilities"@).has(CAPABILITY@) {
        Some(
            "This server does not advertise JMAP file storage. You can configure its WebDAV URL instead."@,
        )
    } else if session.at("accounts"@).fields() is None {
        Some("Invalid JMAP accounts."@)
    } else {
        match first_space(offered(session.at("accounts"@).fields()->0), preferred, session) {
            None => Some("No accessible file storage account."@),
            Some(id) => match endpoint_failure(t, session, "apiUrl"@, id) {
                Some(m) => Some(m),
                None => match endpoint_failure(t, session, "uploadUrl"@, id) {
                    Some(m) => Some(m),
                    None => endpoint_failure(t, session, "downloadUrl"@, id),
                },
            },
        }
    }
}

/// Whether an account offers a capability.
fn account_offers(account: &Json, capability: &str) -> (r: bool)
    ensures
        r == offers(account@, capability@),
{
    match account.get("accountCapabilities") {
        Some(c) => c.get(capability).is_some(),
        None => false,
    }
}

/// Whether a storage space of that id is in the list.
pub fn find_space(list: &Vec<StorageAccount>, id: &str) -> (r: Option<usize>)
    ensures
        match r {
            Some(i) => i < list@.len() && spaces(list@)[i as int].id == id@ && forall|j: int|
                0 <= j < i ==> (#[trigger] spaces(list@)[j]).id != id@,
            None => !has_space(spaces(list@), id@),
        },
        r is Some <==> has_space(spaces(list@), id@),
{
    let mut i: usize = 0;
    while i < list.len()
        invariant
            i <= list.len(),
            forall|j: int| 0 <= j < i ==> (#[trigger] spaces(list@)[j]).id != id@,
        decreases list.len() - i,
    {
        if same(list[i].id.as_str(), id) {
            proof {
                assert(spaces(list@)[i as int].id == id@);
            }
            return Some(i);
        }
        i = i + 1;
    }
    None
}

/// The storage spaces of a session.
fn offered_spaces(fields: &Vec<(String, Json)>) -> (r: Vec<StorageAccount>)
    ensures
        spaces(r@) == offered(field_views(fields@)),
{
    let ghost all = field_views(fields@);
    let mut out: Vec<StorageAccount> = Vec::new();
    let mut i: usize = 0;
    proof {
        assert(all.take(0) == Seq::<(Seq<char>, Value)>::empty());
        assert(spaces(out@) =~= Seq::<Space>::empty());
    }
    while i < fields.len()
        invariant
            i <= fields.len(),
            all == field_views(fields@),
            spaces(out@) == offered(all.take(i as int)),
        decreases fields.len() - i,
    {
        let id = &fields[i].0;
        let account = &fields[i].1;
        proof {
            assert(all.take(i + 1).drop_last() == all.take(i as int));
            assert(all.take(i + 1).last() == (id@, account@));
        }
        if account_offers(account, CAPABILITY) {
            let name = match account.text_at("name") {
                Some(name) => lit(name),
                None => id.clone(),
            };
            let read_only = match account.bool_at("isReadOnly") {
                Some(b) => b,
                None => true,
            };
            let ghost before = out@;
            out.push(StorageAccount { id: id.clone(), name, read_only });
            proof {
                assert(spaces(out@) =~= offered(all.take(i + 1)));
            }
        }
        i = i + 1;
    }
    proof {
        assert(all.take(all.len() as int) == all);
    }
    out
}

/// Fill a template with the values that it is tried with, and ask for a request to it.
fn try_endpoint(t: &Transport, session: &Json, key: &str, account: &str) -> (r: Result<()>)
    ensures
        match endpoint_failure(*t, session@, key@, account@) {
            Some(m) => fails(r, m),
            None => r is Ok,
        },
{
    let template = match session.text_at(key) {
        Some(template) => template,
        None => {
            return Err(other("Incomplete JMAP session."));
        },
    };
    let values = [
        ("accountId", account),
        ("blobId", "probe"),
        ("name", "probe"),
        ("type", "application/octet-stream"),
    ];
    proof {
        assert(pairs(values@) =~= probe(account@));
        plain_methods();
    }
    match expand(template, &values) {
        Ok(url) => match t.request("GET", url.as_str()) {
            Ok(_) => Ok(()),
            Err(e) => Err(e),
        },
        Err(e) => Err(e),
    }
}

impl FileClient {
    /// Take up a session that was discovered.
    pub fn connect(transport: Transport, session: Json, preferred: Option<&str>) -> (r: Result<Self>)
        ensures
            match connect_failure(transport, session@, opt_str(preferred)) {
                Some(m) => fails(r, m),
                None => r is Ok && ({
                    let c = r->Ok_0;
                    let list = offered(session@.at("accounts"@).fields()->0);
                    &&& c.transport == transport
                    &&& c.session == session
                    &&& spaces(c.accounts@) == list
                    &&& Some(c.account_id@) == first_space(list, opt_str(preferred), session@)
                    &&& c.state is None
                    &&& c.collision == CollisionPolicy::Reject
                    &&& !c.compare_case_insensitively
                    &&& c.wf()
                }),
            },
    {
        let advertised = match session.get("capabilities") {
            Some(c) => c.get(CAPABILITY).is_some(),
            None => false,
        };
        if !advertised {
            return Err(
                other(
                    "This server does not advertise JMAP file storage. You can configure its WebDAV URL instead.",
                ),
            );
        }
        let fields = match session.get("accounts") {
            Some(a) => match a.as_object() {
                Some(fields) => fields,
                None => {
                    return Err(other("Invalid JMAP accounts."));
                },
            },
            None => {
                return Err(other("Invalid JMAP accounts."));
            },
        };
        let accounts = offered_spaces(fields);
        let ghost list = offered(session@.at("accounts"@).fields()->0);
        let primary = match session.get("primaryAccounts") {
            Some(p) => p.text_at(CAPABILITY),
            None => None,
        };
        let wanted = match preferred {
            Some(id) => find_space(&accounts, id).is_some(),
            None => false,
        };
        let usual = match primary {
            Some(id) => find_space(&accounts, id).is_some(),
            None => false,
        };
        let selected = if wanted {
            lit(preferred.unwrap())
        } else if usual {
            lit(primary.unwrap())
        } else if accounts.len() > 0 {
            accounts[0].id.clone()
        } else {
            return Err(other("No accessible file storage account."));
        };
        proof {
            assert(spaces(accounts@) == list);
            if accounts@.len() > 0 {
                assert(list[0].id == accounts@[0].id@);
            }
            assert(has_space(list, selected@));
        }
        match try_endpoint(&transport, &session, "apiUrl", selected.as_str()) {
            Ok(_) => {},
            Err(e) => {
                return Err(e);
            },
        }
        match try_endpoint(&transport, &session, "uploadUrl", selected.as_str()) {
            Ok(_) => {},
            Err(e) => {
                return Err(e);
            },
        }
        match try_endpoint(&transport, &session, "downloadUrl", selected.as_str()) {
            Ok(_) => {},
            Err(e) => {
                return Err(e);
            },
        }
        Ok(
            FileClient {
                transport,
                session,
                accounts,
                account_id: selected,
                state: None,
                collision: CollisionPolicy::Reject,
                compare_case_insensitively: false,
            },
        )
    }

    /// The storage space in use is one of those that the session offers.
    pub open spec fn wf(self) -> bool {
        has_space(spaces(self.accounts@), self.account_id@)
    }

    /// What the server says of file storage in the space in use.
    pub open spec fn caps(self) -> Value {
        self.session@.at("accounts"@).at(self.account_id@).at("accountCapabilities"@).at(
            CAPABILITY@,
        )
    }

    pub fn capabilities(&self) -> (r: Option<&Json>)
        ensures
            match r {
                Some(j) => j@ == self.caps(),
                None => self.caps() == Value::Null,
            },
    {
        match self.session.get("accounts") {
            Some(a) => match a.get(self.account_id.as_str()) {
                Some(a) => match a.get("accountCapabilities") {
                    Some(c) => c.get(CAPABILITY),
                    None => None,
                },
                None => None,
            },
            None => None,
        }
    }

    /// A space that the session does not offer, or that it calls read-only.
    pub open spec fn is_read_only(self) -> bool {
        let list = spaces(self.accounts@);
        !exists|i: int|
            0 <= i < list.len() && (#[trigger] list[i]).id == self.account_id@ && !list[i].read_only
                && forall|j: int| 0 <= j < i ==> (#[trigger] list[j]).id != self.account_id@
    }

    pub fn read_only(&self) -> (r: bool)
        ensures
            r == self.is_read_only(),
    {
        match find_space(&self.accounts, self.account_id.as_str()) {
            Some(i) => {
                proof {
                    let list = spaces(self.accounts@);
                    assert(list[i as int].read_only == self.accounts@[i as int].read_only);
                    if self.accounts@[i as int].read_only {
                        assert forall|k: int|
                            0 <= k < list.len() && (#[trigger] list[k]).id == self.account_id@
                                && !list[k].read_only implies exists|j: int|
                            0 <= j < k && (#[trigger] list[j]).id == self.account_id@ by {
                            assert(list[i as int].id == self.account_id@);
                        }
                    }
                }
                self.accounts[i].read_only
            },
            None => true,
        }
    }

    pub open spec fn may_create_root(self) -> bool {
        self.caps().at("mayCreateTopLevelFileNode"@).bool() == Some(true) && !self.is_read_only()
    }

    pub fn can_create_root(&self) -> (r: bool)
        ensures
            r == self.may_create_root(),
    {
        let allowed = match self.capabilities() {
            Some(c) => match c.bool_at("mayCreateTopLevelFileNode") {
                Some(b) => b,
                None => false,
            },
            None => false,
        };
        allowed && !self.read_only()
    }

    /// Whether the server speaks the later draft of the extension.
    pub open spec fn is_modern(self) -> bool {
        self.caps().has("forbiddenNameChars"@) || (self.caps().at(
            "fileNodeQuerySortOptions"@,
        ).items() is Some && self.caps().at("fileNodeQuerySortOptions"@).items()->0.contains(
            Value::Text("nodeType"@),
        ))
    }

    pub fn modern(&self) -> (r: bool)
        ensures
            r == self.is_modern(),
    {
        match self.capabilities() {
            Some(c) => c.get("forbiddenNameChars").is_some() || self.sorts_by("nodeType"),
            None => false,
        }
    }

    /// Whether the server can order a listing by that property.
    pub open spec fn can_sort_by(self, property: Seq<char>) -> bool {
        self.caps().at("fileNodeQuerySortOptions"@).items() is Some && self.caps().at(
            "fileNodeQuerySortOptions"@,
        ).items()->0.contains(Value::Text(property))
    }

    pub(crate) fn sorts_by(&self, property: &str) -> (r: bool)
        ensures
            r == self.can_sort_by(property@),
    {
        let list = match self.capabilities() {
            Some(c) => match c.list_at("fileNodeQuerySortOptions") {
                Some(list) => list,
                None => {
                    return false;
                },
            },
            None => {
                return false;
            },
        };
        has_text_item(list, property)
    }

    pub fn select_account(&mut self, id: &str) -> (r: Result<()>)
        ensures
            if has_space(spaces(old(self).accounts@), id@) {
                r is Ok && final(self).account_id@ == id@ && final(self).state is None && *final(self) == (FileClient {
                    account_id: final(self).account_id,
                    state: None,
                    ..*old(self)
                }) && final(self).wf()
            } else {
                fails(r, "File account is no longer available."@) && *final(self) == *old(self)
            },
    {
        if find_space(&self.accounts, id).is_none() {
            return Err(other("File account is no longer available."));
        }
        self.account_id = lit(id);
        self.state = None;
        Ok(())
    }

    /// A name that is valid and that the server says it takes.
    pub open spec fn takes_name(self, name: Seq<char>) -> bool {
        &&& valid_name(name)
        &&& server_takes_name(self.caps(), name)
    }

    /// What a user is told of a name that is refused.
    pub open spec fn name_refusal(self, name: Seq<char>) -> Seq<char> {
        if valid_name(name) {
            "The server does not allow this file name."@
        } else {
            crate::files::invalid_name_message()
        }
    }

    pub fn name(&self, name: &str) -> (r: Result<()>)
        ensures
            r is Ok <==> self.takes_name(name@),
            r matches Err(e) ==> says(e, self.name_refusal(name@)),
    {
        match validate_name(name) {
            Ok(_) => {},
            Err(e) => {
                return Err(e);
            },
        }
        let taken = match self.capabilities() {
            Some(c) => name_taken(c, name),
            None => {
                proof {
                    assert(self.caps().at("maxSizeFileNodeName"@) == Value::Null);
                }
                true
            },
        };
        if taken {
            Ok(())
        } else {
            Err(other("The server does not allow this file name."))
        }
    }
}

/// Whether a server with these capabilities takes a name: short enough, without the characters
/// and apart from the names that it forbids.
pub open spec fn server_takes_name(caps: Value, name: Seq<char>) -> bool {
    &&& encode_utf8(name).len() <= match caps.at("maxSizeFileNodeName"@).unsigned() {
        Some(n) => n as int,
        None => 255,
    }
    &&& caps.at("forbiddenNameChars"@).text() is Some ==> forall|i: int|
        0 <= i < name.len() ==> !caps.at("forbiddenNameChars"@).text()->0.contains(
            #[trigger] name[i],
        )
    &&& caps.at("forbiddenNodeNames"@).items() is Some ==> !exists|i: int|
        0 <= i < caps.at("forbiddenNodeNames"@).items()->0.len() && #[trigger] forbids(
            caps.at("forbiddenNodeNames"@).items()->0[i],
            name,
        )
}

/// Whether an entry of the list of forbidden names is this name, but for the case of letters.
pub open spec fn forbids(entry: Value, name: Seq<char>) -> bool {
    entry.text() is Some && same_ascii(entry.text()->0, name)
}

/// Whether a text is among the items.
fn has_text_item(list: &Vec<Json>, s: &str) -> (r: bool)
    ensures
        r == views(list@).contains(Value::Text(s@)),
{
    let mut i: usize = 0;
    while i < list.len()
        invariant
            i <= list.len(),
            forall|j: int| 0 <= j < i ==> views(list@)[j] != Value::Text(s@),
        decreases list.len() - i,
    {
        if list[i].is_text(s) {
            proof {
                assert(views(list@)[i as int] == Value::Text(s@));
            }
            return true;
        }
        i = i + 1;
    }
    false
}

fn name_taken(caps: &Json, name: &str) -> (r: bool)
    ensures
        r == server_takes_name(caps@, name@),
{
    let limit: u64 = match caps.u64_at("maxSizeFileNodeName") {
        Some(n) => n,
        None => 255,
    };
    if name.as_bytes().len() as u64 > limit {
        return false;
    }
    match caps.text_at("forbiddenNameChars") {
        Some(set) => {
            let v = chars(name);
            let mut i: usize = 0;
            while i < v.len()
                invariant
                    v@ == name@,
                    i <= v.len(),
                    caps@.at("forbiddenNameChars"@).text() == Some(set@),
                    forall|j: int| 0 <= j < i ==> !set@.contains(#[trigger] name@[j]),
                decreases v.len() - i,
            {
                if has_char(set, v[i]) {
                    proof {
                        assert(set@.contains(name@[i as int]));
                    }
                    return false;
                }
                i = i + 1;
            }
        },
        None => {},
    }
    match caps.list_at("forbiddenNodeNames") {
        Some(list) => {
            let mut i: usize = 0;
            while i < list.len()
                invariant
                    i <= list.len(),
                    caps@.at("forbiddenNodeNames"@).items() == Some(views(list@)),
                    forall|j: int| 0 <= j < i ==> !#[trigger] forbids(views(list@)[j], name@),
                decreases list.len() - i,
            {
                let hit = match list[i].as_text() {
                    Some(entry) => is_same_ascii(entry, name),
                    None => false,
                };
                proof {
                    assert(hit == forbids(views(list@)[i as int], name@));
                }
                if hit {
                    proof {
                        assert(forbids(
                            caps@.at("forbiddenNodeNames"@).items()->0[i as int],
                            name@,
                        ));
                    }
                    return false;
                }
                i = i + 1;
            }
        },
        None => {},
    }
    true
}

/// The account that a method is called for: the user's own account for sharing, the storage space
/// in use where it offers the capability, else the session's primary account for it, else the
/// first account that offers it.
pub open spec fn method_account(c: FileClient, capability: Seq<char>) -> Option<Seq<char>> {
    let session = c.session@;
    if capability == SHARING@ {
        session.at("primaryAccounts"@).at(SHARING@).text()
    } else if offers(session.at("accounts"@).at(c.account_id@), capability) {
        Some(c.account_id@)
    } else if capability == CAPABILITY@ {
        None
    } else if session.at("primaryAccounts"@).at(capability).text() is Some {
        session.at("primaryAccounts"@).at(capability).text()
    } else {
        match session.at("accounts"@).fields() {
            Some(fields) => first_offering(fields, capability),
            None => None,
        }
    }
}

/// The id of the first account that offers a capability.
pub open spec fn first_offering(fields: Seq<(Seq<char>, Value)>, capability: Seq<char>) -> Option<
    Seq<char>,
>
    decreases fields.len(),
{
    if fields.len() == 0 {
        None
    } else if offers(fields[0].1, capability) {
        Some(fields[0].0)
    } else {
        first_offering(fields.skip(1), capability)
    }
}

/// Why a method cannot be called, if it cannot.
pub open spec fn call_failure(c: FileClient, capability: Seq<char>) -> Option<Seq<char>> {
    if !c.session@.at("capabilities"@).has(capability) {
        Some("The server does not advertise this capability."@)
    } else if method_account(c, capability) is None {
        Some(
            if capability == SHARING@ {
                "No personal sharing account is available."@
            } else if capability == CAPABILITY@ {
                "File storage account is no longer available."@
            } else {
                "No account advertises this capability."@
            },
        )
    } else if c.session@.at("apiUrl"@).text() is None {
        Some("Missing JMAP API URL."@)
    } else {
        let api = c.session@.at("apiUrl"@).text()->0;
        if reaches(c.transport, api) {
            None
        } else {
            Some(request_refusal(c.transport, "POST"@, api))
        }
    }
}

/// The body of a method call: one call, tagged so that its answer can be found.
pub open spec fn envelope(method: Seq<char>, capability: Seq<char>, args: Value) -> Value {
    Value::empty().with(
        "using"@,
        Value::none().and(Value::Text(CORE@)).and(Value::Text(capability)),
    ).with(
        "methodCalls"@,
        Value::none().and(
            Value::none().and(Value::Text(method)).and(args).and(Value::Text("files"@)),
        ),
    )
}

/// A method call that is ready to be sent.
pub struct Call {
    pub account: String,
    pub request: Request,
    pub body: Json,
}

/// Whether `r` is what calling a method gives: the failure where it cannot be called, else a
/// request to the session's endpoint for the account that the method is called for.
pub open spec fn calls(
    c: FileClient,
    method: Seq<char>,
    capability: Seq<char>,
    args: Value,
    r: Result<Call>,
) -> bool {
    match call_failure(c, capability) {
        Some(m) => fails(r, m),
        None => r is Ok && ({
            let account = method_account(c, capability)->0;
            let api = c.session@.at("apiUrl"@).text()->0;
            &&& r->Ok_0.account@ == account
            &&& r->Ok_0.request.method@ == "POST"@
            &&& r->Ok_0.request.url@ == parsed_url(api)->0.text
            &&& r->Ok_0.request.user == c.transport.user
            &&& r->Ok_0.request.secret == c.transport.secret
            &&& r->Ok_0.body@ == envelope(
                method,
                capability,
                args.put("accountId"@, Value::Text(account)),
            )
        }),
    }
}

fn first_account_with(fields: &Vec<(String, Json)>, capability: &str) -> (r: Option<String>)
    ensures
        opt(r) == first_offering(field_views(fields@), capability@),
{
    let ghost all = field_views(fields@);
    let mut i: usize = 0;
    proof {
        assert(all.skip(0) == all);
    }
    while i < fields.len()
        invariant
            i <= fields.len(),
            all == field_views(fields@),
            first_offering(all.skip(i as int), capability@) == first_offering(all, capability@),
        decreases fields.len() - i,
    {
        proof {
            assert(all.skip(i as int)[0] == all[i as int]);
            assert(all.skip(i as int).skip(1) == all.skip(i + 1));
        }
        if account_offers(&fields[i].1, capability) {
            return Some(fields[i].0.clone());
        }
        i = i + 1;
    }
    None
}

impl FileClient {
    fn account_for(&self, capability: &str) -> (r: Option<String>)
        ensures
            opt(r) == method_account(*self, capability@),
    {
        let primary = match self.session.get("primaryAccounts") {
            Some(p) => p.text_at(capability),
            None => None,
        };
        if same(capability, SHARING) {
            return match primary {
                Some(id) => Some(lit(id)),
                None => None,
            };
        }
        let accounts = self.session.get("accounts");
        let own = match accounts {
            Some(a) => match a.get(self.account_id.as_str()) {
                Some(account) => account_offers(account, capability),
                None => false,
            },
            None => false,
        };
        if own {
            return Some(self.account_id.clone());
        }
        if same(capability, CAPABILITY) {
            return None;
        }
        match primary {
            Some(id) => Some(lit(id)),
            None => match accounts {
                Some(a) => match a.as_object() {
                    Some(fields) => first_account_with(fields, capability),
                    None => None,
                },
                None => None,
            },
        }
    }

    /// Standard get/query/changes/queryChanges/set/copy envelopes share strict
    /// response correlation and per-object error handling, including HTTP 200 errors.
    pub fn call(&self, method: &str, capability: &str, args: Json) -> (r: Result<Call>)
        requires
            args@ is Object,
        ensures
            calls(*self, method@, capability@, args@, r),
    {
        let advertised = match self.session.get("capabilities") {
            Some(c) => c.get(capability).is_some(),
            None => false,
        };
        if !advertised {
            return Err(other("The server does not advertise this capability."));
        }
        let account = match self.account_for(capability) {
            Some(account) => account,
            None => {
                return Err(
                    if same(capability, SHARING) {
                        other("No personal sharing account is available.")
                    } else if same(capability, CAPABILITY) {
                        other("File storage account is no longer available.")
                    } else {
                        other("No account advertises this capability.")
                    },
                );
            },
        };
        let args = args.put("accountId", Json::Text(account.clone()));
        let api = match self.session.text_at("apiUrl") {
            Some(api) => api,
            None => {
                return Err(other("Missing JMAP API URL."));
            },
        };
        proof {
            plain_methods();
        }
        let request = match self.transport.request("POST", api) {
            Ok(request) => request,
            Err(e) => {
                return Err(e);
            },
        };
        let using = Json::list().and(Json::text(CORE)).and(Json::text(capability));
        let one = Json::list().and(Json::text(method)).and(args).and(Json::text("files"));
        let body = Json::object().with("using", using).with("methodCalls", Json::list().and(one));
        Ok(Call { account, request, body })
    }
}

impl FileClient {
    pub fn get(&self, ids: &Vec<String>) -> (r: Result<Call>)
        ensures
            calls(
                *self,
                "FileNode/get"@,
                CAPABILITY@,
                Value::empty().with("ids"@, Value::text_list(texts(ids@))),
                r,
            ),
    {
        self.call("FileNode/get", CAPABILITY, Json::object().with("ids", Json::text_list(ids)))
    }

    /// Query with arguments that [`FileClient::list_query`] made.
    pub fn query(&self, args: Json) -> (r: Result<Call>)
        requires
            args@ is Object,
        ensures
            calls(*self, "FileNode/query"@, CAPABILITY@, args@, r),
    {
        self.call("FileNode/query", CAPABILITY, args)
    }

    /// The changes since a state.
    pub fn changes(&self, since: &str) -> (r: Result<Call>)
        ensures
            calls(
                *self,
                "FileNode/changes"@,
                CAPABILITY@,
                Value::empty().with("sinceState"@, Value::Text(since@)).with(
                    "maxChanges"@,
                    Value::Unsigned(1000),
                ),
                r,
            ),
    {
        let args = Json::object().with("sinceState", Json::text(since)).with(
            "maxChanges",
            Json::Unsigned(1000),
        );
        self.call("FileNode/changes", CAPABILITY, args)
    }

    /// The changes of a query since a state of it.
    pub fn query_changes(&self, since: &str, filter: Json, sort: Json) -> (r: Result<Call>)
        ensures
            calls(
                *self,
                "FileNode/queryChanges"@,
                CAPABILITY@,
                Value::empty().with("sinceQueryState"@, Value::Text(since@)).with(
                    "filter"@,
                    filter@,
                ).with("sort"@, sort@).with("maxChanges"@, Value::Unsigned(1000)),
                r,
            ),
    {
        let args = Json::object().with("sinceQueryState", Json::text(since)).with(
            "filter",
            filter,
        ).with("sort", sort).with("maxChanges", Json::Unsigned(1000));
        self.call("FileNode/queryChanges", CAPABILITY, args)
    }

    pub fn quota(&self) -> (r: Result<Call>)
        ensures
            calls(*self, "Quota/get"@, QUOTA@, Value::empty().with("ids"@, Value::Null), r),
    {
        self.call("Quota/get", QUOTA, Json::object().with("ids", Json::Null))
    }

    /// Look up principals by text.
    pub fn principals(&self, text: &str) -> (r: Result<Call>)
        ensures
            calls(
                *self,
                "Principal/query"@,
                SHARING@,
                Value::empty().with(
                    "filter"@,
                    Value::empty().with("text"@, Value::Text(text@)),
                ).with("limit"@, Value::Unsigned(100)),
                r,
            ),
    {
        let args = Json::object().with(
            "filter",
            Json::object().with("text", Json::text(text)),
        ).with("limit", Json::Unsigned(100));
        self.call("Principal/query", SHARING, args)
    }

    /// Dismiss sharing notifications, where the state of the list is still the one given.
    pub fn dismiss_share_notifications(&self, ids: &Vec<String>, state: &str) -> (r: Result<Call>)
        ensures
            if ids@.len() > 100 {
                fails(r, "Too many sharing notifications."@)
            } else {
                calls(
                    *self,
                    "ShareNotification/set"@,
                    SHARING@,
                    Value::empty().with("ifInState"@, Value::Text(state@)).with(
                        "destroy"@,
                        Value::text_list(texts(ids@)),
                    ),
                    r,
                )
            },
    {
        if ids.len() > 100 {
            return Err(other("Too many sharing notifications."));
        }
        let args = Json::object().with("ifInState", Json::text(state)).with(
            "destroy",
            Json::text_list(ids),
        );
        self.call("ShareNotification/set", SHARING, args)
    }

    /// List the sharing notifications about files, the newest first.
    pub fn share_notifications(&self) -> (r: Result<Call>)
        ensures
            calls(
                *self,
                "ShareNotification/query"@,
                SHARING@,
                Value::empty().with(
                    "filter"@,
                    Value::empty().with("objectType"@, Value::Text("FileNode"@)),
                ).with(
                    "sort"@,
                    Value::none().and(
                        Value::empty().with("property"@, Value::Text("created"@)).with(
                            "isAscending"@,
                            Value::Bool(false),
                        ),
                    ),
                ).with("limit"@, Value::Unsigned(100)),
                r,
            ),
    {
        let sort = Json::list().and(
            Json::object().with("property", Json::text("created")).with(
                "isAscending",
                Json::Bool(false),
            ),
        );
        let args = Json::object().with(
            "filter",
            Json::object().with("objectType", Json::text("FileNode")),
        ).with("sort", sort).with("limit", Json::Unsigned(100));
        self.call("ShareNotification/query", SHARING, args)
    }

    /// Read the sharing notifications that a query named.
    pub fn read_share_notifications(&self, query: &Json) -> (r: Result<Call>)
        ensures
            calls(
                *self,
                "ShareNotification/get"@,
                SHARING@,
                Value::empty().with("ids"@, query@.at("ids"@)),
                r,
            ),
    {
        let ids = match query.get("ids") {
            Some(ids) => ids.copy(),
            None => Json::Null,
        };
        self.call("ShareNotification/get", SHARING, Json::object().with("ids", ids))
    }
}

/// A call asks the server for one method, under the core protocol and the capability of the method,
/// of the account that it goes to, with the arguments that it was given; and it is tagged, so that
/// the answer is told by its tag from other answers.
pub proof fn calls_are_told_by_their_tag(
    method: Seq<char>,
    capability: Seq<char>,
    args: Value,
    account: Seq<char>,
    key: Seq<char>,
    others: Seq<Value>,
    answer: Value,
)
    requires
        args is Object,
    ensures
        ({
            let sent = envelope(method, capability, args.put("accountId"@, Value::Text(account)));
            let call = sent.at("methodCalls"@).item(0);
            &&& sent.at("using"@).items() == Some(
                seq![Value::Text("urn:ietf:params:jmap:core"@), Value::Text(capability)],
            )
            &&& sent.at("methodCalls"@).items() is Some && sent.at("methodCalls"@).items()->0.len()
                == 1
            &&& call.item(0) == Value::Text(method)
            &&& call.item(1).at("accountId"@) == Value::Text(account)
            &&& key != "accountId"@ ==> call.item(1).at(key) == args.at(key)
            &&& answer.item(2) == call.item(2) && (forall|i: int|
                0 <= i < others.len() ==> (#[trigger] others[i]).item(2) != call.item(2))
                ==> our_answer(others.push(answer)) == Some(answer)
            &&& our_answer(others) is Some ==> our_answer(others)->0.item(2) == call.item(2)
        }),
{
    reveal_strlit("using");
    reveal_strlit("methodCalls");
    assert("using"@.len() == 5 && "methodCalls"@.len() == 11);
    let put = args.put("accountId"@, Value::Text(account));
    let sent = envelope(method, capability, put);
    crate::files::json::place_is(sent->Object_0, "using"@, 0);
    crate::files::json::place_is(sent->Object_0, "methodCalls"@, 1);
    assert(sent.at("using"@).items()->0 =~= seq![
        Value::Text("urn:ietf:params:jmap:core"@),
        Value::Text(capability),
    ]);
    crate::files::json::put_is_read_back(args, "accountId"@, Value::Text(account), key);
    our_answer_has_the_tag(others);
    if answer.item(2) == Value::Text("files"@) && (forall|i: int|
        0 <= i < others.len() ==> (#[trigger] others[i]).item(2) != Value::Text("files"@)) {
        first_answer_is_ours(others, answer);
    }
}

proof fn our_answer_has_the_tag(calls: Seq<Value>)
    ensures
        our_answer(calls) is Some ==> our_answer(calls)->0.item(2) == Value::Text("files"@),
    decreases calls.len(),
{
    if calls.len() > 0 {
        our_answer_has_the_tag(calls.skip(1));
    }
}

proof fn first_answer_is_ours(others: Seq<Value>, answer: Value)
    requires
        answer.item(2) == Value::Text("files"@),
        forall|i: int|
            0 <= i < others.len() ==> (#[trigger] others[i]).item(2) != Value::Text("files"@),
    ensures
        our_answer(others.push(answer)) == Some(answer),
    decreases others.len(),
{
    let all = others.push(answer);
    if others.len() > 0 {
        let rest = others.skip(1);
        assert forall|i: int| 0 <= i < rest.len() implies (#[trigger] rest[i]).item(2)
            != Value::Text("files"@) by {
            assert(rest[i] == others[i + 1]);
        }
        first_answer_is_ours(rest, answer);
        assert(all.skip(1) =~= rest.push(answer));
        assert(all[0] == others[0]);
    } else {
        assert(all[0] == answer);
    }
}

/// The answer to our call among the answers of a response.
pub open spec fn our_answer(calls: Seq<Value>) -> Option<Value>
    decreases calls.len(),
{
    if calls.len() == 0 {
        None
    } else if calls[0].item(2) == Value::Text("files"@) {
        Some(calls[0])
    } else {
        our_answer(calls.skip(1))
    }
}

/// The kinds of the errors of an object of errors, those that are texts.
pub open spec fn error_kinds(fields: Seq<(Seq<char>, Value)>) -> Seq<Seq<char>>
    decreases fields.len(),
{
    if fields.len() == 0 {
        Seq::empty()
    } else {
        let before = error_kinds(fields.drop_last());
        match fields.last().1.at("type"@).text() {
            Some(kind) => before.push(kind),
            None => before,
        }
    }
}

/// What a user is told where some of the objects of a call failed.
pub open spec fn partial_failure(errors: Value) -> Option<Seq<char>> {
    match errors.fields() {
        Some(fields) => if fields.len() > 0 {
            Some(
                "Some file operations failed ("@ + crate::text::join(error_kinds(fields), ", "@)
                    + "). Refresh to inspect completed changes before retrying."@,
            )
        } else {
            None
        },
        None => None,
    }
}

/// Why a response is no success of the method for the account, if it is none.
pub open spec fn response_failure(
    response: Value,
    method: Seq<char>,
    account: Seq<char>,
) -> Option<Seq<char>> {
    match response.at("methodResponses"@).items() {
        None => Some("Invalid JMAP response."@),
        Some(calls) => match our_answer(calls) {
            None => Some("Missing JMAP method response."@),
            Some(call) => if call.item(0) == Value::Text("error"@) {
                Some(
                    "File operation failed: "@ + match call.item(1).at("type"@).text() {
                        Some(kind) => kind,
                        None => "unknown error"@,
                    },
                )
            } else if call.item(0) != Value::Text(method) || call.item(1).at("accountId"@)
                != Value::Text(account) {
                Some("JMAP response did not match the request."@)
            } else if partial_failure(call.item(1).at("notCreated"@)) is Some {
                partial_failure(call.item(1).at("notCreated"@))
            } else if partial_failure(call.item(1).at("notUpdated"@)) is Some {
                partial_failure(call.item(1).at("notUpdated"@))
            } else {
                partial_failure(call.item(1).at("notDestroyed"@))
            },
        },
    }
}

fn check_errors(result: &Json, key: &str) -> (r: Result<()>)
    ensures
        match partial_failure(result@.at(key@)) {
            Some(m) => fails(r, m),
            None => r is Ok,
        },
{
    let fields = match result.get(key) {
        Some(errors) => match errors.as_object() {
            Some(fields) => fields,
            None => {
                return Ok(());
            },
        },
        None => {
            return Ok(());
        },
    };
    if fields.len() == 0 {
        return Ok(());
    }
    let ghost all = field_views(fields@);
    let mut kinds: Vec<String> = Vec::new();
    let mut i: usize = 0;
    proof {
        assert(all.take(0) == Seq::<(Seq<char>, Value)>::empty());
        assert(texts(kinds@) =~= Seq::<Seq<char>>::empty());
    }
    while i < fields.len()
        invariant
            i <= fields.len(),
            all == field_views(fields@),
            texts(kinds@) == error_kinds(all.take(i as int)),
        decreases fields.len() - i,
    {
        proof {
            assert(all.take(i + 1).drop_last() == all.take(i as int));
            assert(all.take(i + 1).last() == (fields@[i as int].0@, fields@[i as int].1@));
        }
        match fields[i].1.text_at("type") {
            Some(kind) => {
                kinds.push(lit(kind));
                proof {
                    assert(texts(kinds@) =~= error_kinds(all.take(i + 1)));
                }
            },
            None => {},
        }
        i = i + 1;
    }
    proof {
        assert(all.take(all.len() as int) == all);
    }
    let names = crate::text::join_texts(&kinds, ", ");
    Err(
        other(
            lit("Some file operations failed (").concat(names.as_str()).concat(
                "). Refresh to inspect completed changes before retrying.",
            ).as_str(),
        ),
    )
}

/// The result of our call in a response. A response that holds an error, that answers another
/// call or another account, or that failed for some of its objects is no success.
pub fn method_result(response: &Json, method: &str, account: &str) -> (r: Result<Json>)
    ensures
        match response_failure(response@, method@, account@) {
            Some(m) => fails(r, m),
            None => r is Ok && r->Ok_0@ == our_answer(
                response@.at("methodResponses"@).items()->0,
            )->0.item(1),
        },
{
    let calls = match response.list_at("methodResponses") {
        Some(calls) => calls,
        None => {
            return Err(other("Invalid JMAP response."));
        },
    };
    let ghost all = views(calls@);
    let mut i: usize = 0;
    proof {
        assert(all.skip(0) == all);
    }
    while i < calls.len() && !item_is(&calls[i], 2, "files")
        invariant
            i <= calls.len(),
            all == views(calls@),
            our_answer(all.skip(i as int)) == our_answer(all),
        decreases calls.len() - i,
    {
        proof {
            assert(all.skip(i as int)[0] == all[i as int]);
            assert(all.skip(i as int).skip(1) == all.skip(i + 1));
        }
        i = i + 1;
    }
    if i == calls.len() {
        return Err(other("Missing JMAP method response."));
    }
    let call = &calls[i];
    proof {
        assert(all.skip(i as int)[0] == call@);
    }
    let null = Json::Null;
    let result = match call.item(1) {
        Some(result) => result,
        None => &null,
    };
    if item_is(call, 0, "error") {
        let kind = match result.text_at("type") {
            Some(kind) => kind,
            None => "unknown error",
        };
        return Err(other(lit("File operation failed: ").concat(kind).as_str()));
    }
    let ours = match result.get("accountId") {
        Some(id) => id.is_text(account),
        None => false,
    };
    if !item_is(call, 0, method) || !ours {
        return Err(other("JMAP response did not match the request."));
    }
    match check_errors(result, "notCreated") {
        Ok(_) => {},
        Err(e) => {
            return Err(e);
        },
    }
    match check_errors(result, "notUpdated") {
        Ok(_) => {},
        Err(e) => {
            return Err(e);
        },
    }
    match check_errors(result, "notDestroyed") {
        Ok(_) => {},
        Err(e) => {
            return Err(e);
        },
    }
    Ok(result.copy())
}

/// Whether the item of a list at a position is that text.
fn item_is(list: &Json, i: usize, s: &str) -> (r: bool)
    ensures
        r == (list@.item(i as int) == Value::Text(s@)),
{
    match list.item(i) {
        Some(j) => j.is_text(s),
        None => false,
    }
}

} // verus!
