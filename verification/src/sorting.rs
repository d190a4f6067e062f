//! A stable order for lists.

use vstd::prelude::*;

verus! {

/// An ordered list with one more item, behind those that it does not come before.
pub open spec fn insert_by<T>(s: Seq<T>, x: T, before: spec_fn(T, T) -> bool) -> Seq<T>
    decreases s.len(),
{
    if s.len() == 0 || !before(x, s.last()) {
        s.push(x)
    } else {
        insert_by(s.drop_last(), x, before).push(s.last())
    }
}

/// The items in order; items of which neither comes before the other keep their places.
pub open spec fn sorted_by<T>(s: Seq<T>, before: spec_fn(T, T) -> bool) -> Seq<T>
    decreases s.len(),
{
    if s.len() == 0 {
        Seq::empty()
    } else {
        insert_by(sorted_by(s.drop_last(), before), s.last(), before)
    }
}

fn place<T, F: Fn(&T, &T) -> bool>(
    list: &mut Vec<T>,
    x: T,
    comes_before: &F,
    Ghost(before): Ghost<spec_fn(T, T) -> bool>,
)
    requires
        forall|a: T, b: T| comes_before.requires((&a, &b)),
        forall|a: T, b: T, r: bool| comes_before.ensures((&a, &b), r) ==> r == before(a, b),
    ensures
        final(list)@ == insert_by(old(list)@, x, before),
{
    let ghost start = list@;
    let mut i: usize = list.len();
    proof {
        assert(start.take(i as int) == start);
        assert(insert_by(start.take(i as int), x, before) + start.skip(i as int) =~= insert_by(
            start,
            x,
            before,
        ));
    }
    while i > 0 && comes_before(&x, &list[i - 1])
        invariant
            i <= list@.len(),
            start == list@,
            forall|a: T, b: T| comes_before.requires((&a, &b)),
            forall|a: T, b: T, r: bool| comes_before.ensures((&a, &b), r) ==> r == before(a, b),
            insert_by(start.take(i as int), x, before) + start.skip(i as int) == insert_by(
                start,
                x,
                before,
            ),
        decreases i,
    {
        proof {
            let t = start.take(i as int);
            assert(t.last() == list@[i - 1]);
            assert(t.drop_last() == start.take(i - 1));
            assert(insert_by(start.take(i - 1), x, before).push(t.last()) + start.skip(i as int)
                =~= insert_by(start.take(i - 1), x, before) + start.skip(i - 1));
        }
        i = i - 1;
    }
    proof {
        let t = start.take(i as int);
        if i > 0 {
            assert(t.last() == list@[i - 1]);
        }
        assert(insert_by(t, x, before) == t.push(x));
    }
    list.insert(i, x);
    proof {
        assert(list@ =~= start.take(i as int).push(x) + start.skip(i as int));
    }
}

/// Put a list in order.
pub fn sort_list<T, F: Fn(&T, &T) -> bool>(
    list: Vec<T>,
    comes_before: F,
    Ghost(before): Ghost<spec_fn(T, T) -> bool>,
) -> (r: Vec<T>)
    requires
        forall|a: T, b: T| comes_before.requires((&a, &b)),
        forall|a: T, b: T, r: bool| comes_before.ensures((&a, &b), r) ==> r == before(a, b),
    ensures
        r@ == sorted_by(list@, before),
{
    let ghost all = list@;
    let mut out: Vec<T> = Vec::new();
    proof {
        assert(all.take(0) == Seq::<T>::empty());
    }
    for x in it: list
        invariant
            it.seq() == all,
            forall|a: T, b: T| comes_before.requires((&a, &b)),
            forall|a: T, b: T, r: bool| comes_before.ensures((&a, &b), r) ==> r == before(a, b),
            out@ == sorted_by(all.take(it.index()), before),
    {
        proof {
            assert(all.take(it.index() + 1).drop_last() == all.take(it.index()));
            assert(all.take(it.index() + 1).last() == x);
        }
        place(&mut out, x, &comes_before, Ghost(before));
    }
    proof {
        assert(all.take(all.len() as int) == all);
    }
    out
}

/// What a filter keeps was there, and passes.
pub(crate) proof fn kept_was_there<T>(s: Seq<T>, p: spec_fn(T) -> bool, i: int)
    requires
        0 <= i < s.filter(p).len(),
    ensures
        p(s.filter(p)[i]),
        s.contains(s.filter(p)[i]),
    decreases s.len(),
{
    reveal(Seq::filter);
    let head = s.drop_last();
    if i < head.filter(p).len() {
        kept_was_there(head, p, i);
        let k = choose|k: int| 0 <= k < head.len() && head[k] == head.filter(p)[i];
        assert(s[k] == s.filter(p)[i]);
    } else {
        assert(s[s.len() - 1] == s.filter(p)[i]);
    }
}

/// Whether no item comes before an earlier one.
pub open spec fn in_order<T>(s: Seq<T>, before: spec_fn(T, T) -> bool) -> bool {
    forall|i: int, j: int| 0 <= i < j < s.len() ==> !before(#[trigger] s[j], #[trigger] s[i])
}

/// Whether a relation orders: nothing comes before what it comes after, and what does not come
/// before an item does not come before any that the item does not come before.
pub open spec fn orders<T>(before: spec_fn(T, T) -> bool) -> bool {
    &&& forall|a: T, b: T| #[trigger] before(a, b) ==> !before(b, a)
    &&& forall|a: T, b: T, c: T|
        !#[trigger] before(b, a) && !#[trigger] before(c, b) ==> !before(c, a)
}

proof fn insert_keeps<T>(s: Seq<T>, x: T, before: spec_fn(T, T) -> bool)
    requires
        orders(before),
        in_order(s, before),
    ensures
        in_order(insert_by(s, x, before), before),
        insert_by(s, x, before).to_multiset() == s.to_multiset().insert(x),
        forall|i: int|
            0 <= i < insert_by(s, x, before).len() ==> s.contains(
                #[trigger] insert_by(s, x, before)[i],
            ) || insert_by(s, x, before)[i] == x,
    decreases s.len(),
{
    broadcast use vstd::seq_lib::group_to_multiset_ensures;

    let r = insert_by(s, x, before);
    if s.len() == 0 || !before(x, s.last()) {
        assert forall|i: int, j: int| 0 <= i < j < r.len() implies !before(
            #[trigger] r[j],
            #[trigger] r[i],
        ) by {
            if j == s.len() {
                if i < s.len() - 1 {
                    assert(!before(s[s.len() - 1], s[i]));
                    assert(!before(x, s[s.len() - 1]));
                }
            } else {
                assert(!before(s[j], s[i]));
            }
        }
        assert forall|i: int| 0 <= i < r.len() implies s.contains(#[trigger] r[i]) || r[i] == x by {
            if i < s.len() {
                assert(s[i] == r[i]);
            }
        }
    } else {
        let head = s.drop_last();
        assert(in_order(head, before)) by {
            assert forall|i: int, j: int| 0 <= i < j < head.len() implies !before(
                #[trigger] head[j],
                #[trigger] head[i],
            ) by {
                assert(!before(s[j], s[i]));
            }
        }
        insert_keeps(head, x, before);
        let h = insert_by(head, x, before);
        assert(r == h.push(s.last()));
        assert(s == head.push(s.last()));
        assert forall|i: int, j: int| 0 <= i < j < r.len() implies !before(
            #[trigger] r[j],
            #[trigger] r[i],
        ) by {
            if j == h.len() {
                assert(r[i] == h[i]);
                if head.contains(h[i]) {
                    let k = choose|k: int| 0 <= k < head.len() && head[k] == h[i];
                    assert(!before(s[s.len() - 1], s[k]));
                }
            } else {
                assert(!before(h[j], h[i]));
            }
        }
        assert forall|i: int| 0 <= i < r.len() implies s.contains(#[trigger] r[i]) || r[i] == x by {
            if i < h.len() {
                assert(r[i] == h[i]);
                if head.contains(h[i]) {
                    let k = choose|k: int| 0 <= k < head.len() && head[k] == h[i];
                    assert(s[k] == r[i]);
                }
            } else {
                assert(s[s.len() - 1] == r[i]);
            }
        }
        assert(head.push(s.last()).to_multiset() == head.to_multiset().insert(s.last()));
        assert(h.push(s.last()).to_multiset() == h.to_multiset().insert(s.last()));
        assert(head.to_multiset().insert(x).insert(s.last()) =~= head.to_multiset().insert(
            s.last(),
        ).insert(x));
    }
}

/// Putting a list in order loses nothing and invents nothing, and leaves no item behind one that
/// it comes before.
pub proof fn sorting_orders_what_is_there<T>(s: Seq<T>, before: spec_fn(T, T) -> bool)
    requires
        orders(before),
    ensures
        in_order(sorted_by(s, before), before),
        sorted_by(s, before).to_multiset() == s.to_multiset(),
    decreases s.len(),
{
    broadcast use vstd::seq_lib::group_to_multiset_ensures;

    if s.len() > 0 {
        sorting_orders_what_is_there(s.drop_last(), before);
        insert_keeps(sorted_by(s.drop_last(), before), s.last(), before);
        assert(s == s.drop_last().push(s.last()));
    } else {
        assert(sorted_by(s, before) =~= s);
    }
}

/// What is put in order holds the same items.
pub(crate) proof fn sorting_keeps_items<T>(s: Seq<T>, before: spec_fn(T, T) -> bool)
    requires
        orders(before),
    ensures
        sorted_by(s, before).len() == s.len(),
        forall|x: T| #[trigger] sorted_by(s, before).contains(x) <==> s.contains(x),
{
    broadcast use vstd::seq_lib::group_to_multiset_ensures;

    let sorted = sorted_by(s, before);
    sorting_orders_what_is_there(s, before);
    assert forall|x: T| #[trigger] sorted.contains(x) <==> s.contains(x) by {
        assert(sorted.contains(x) <==> sorted.to_multiset().count(x) > 0);
        assert(s.contains(x) <==> s.to_multiset().count(x) > 0);
    }
    assert(sorted.to_multiset().len() == sorted.len());
    assert(s.to_multiset().len() == s.len());
}

proof fn insert_maps<T, V>(
    s: Seq<T>,
    x: T,
    before: spec_fn(T, T) -> bool,
    view: spec_fn(T) -> V,
    before_view: spec_fn(V, V) -> bool,
)
    requires
        forall|a: T, b: T| #[trigger] before(a, b) == before_view(view(a), view(b)),
    ensures
        insert_by(s, x, before).map_values(view) == insert_by(
            s.map_values(view),
            view(x),
            before_view,
        ),
    decreases s.len(),
{
    let m = s.map_values(view);
    if s.len() == 0 || !before(x, s.last()) {
        assert(s.push(x).map_values(view) =~= m.push(view(x)));
    } else {
        insert_maps(s.drop_last(), x, before, view, before_view);
        assert(s.drop_last().map_values(view) =~= m.drop_last());
        assert(insert_by(s, x, before).map_values(view) =~= insert_by(
            s.drop_last(),
            x,
            before,
        ).map_values(view).push(view(s.last())));
    }
}

/// Ordering items by what can be seen of them orders what is seen.
pub proof fn sorting_maps<T, V>(
    s: Seq<T>,
    before: spec_fn(T, T) -> bool,
    view: spec_fn(T) -> V,
    before_view: spec_fn(V, V) -> bool,
)
    requires
        forall|a: T, b: T| #[trigger] before(a, b) == before_view(view(a), view(b)),
    ensures
        sorted_by(s, before).map_values(view) == sorted_by(s.map_values(view), before_view),
    decreases s.len(),
{
    if s.len() > 0 {
        sorting_maps(s.drop_last(), before, view, before_view);
        insert_maps(sorted_by(s.drop_last(), before), s.last(), before, view, before_view);
        assert(s.drop_last().map_values(view) =~= s.map_values(view).drop_last());
    } else {
        assert(sorted_by(s, before).map_values(view) =~= sorted_by(
            s.map_values(view),
            before_view,
        ));
    }
}

/// Whether an order leaves no two different items of a list tied.
pub open spec fn decides<T>(s: Seq<T>, before: spec_fn(T, T) -> bool) -> bool {
    forall|x: T, y: T|
        s.contains(x) && s.contains(y) && !#[trigger] before(x, y) && !before(y, x) ==> x == y
}

/// There is but one order: two lists of the same items that both stand in it are equal.
pub(crate) proof fn order_is_unique<T>(a: Seq<T>, b: Seq<T>, before: spec_fn(T, T) -> bool)
    requires
        in_order(a, before),
        in_order(b, before),
        a.to_multiset() == b.to_multiset(),
        decides(a, before),
    ensures
        a == b,
    decreases a.len(),
{
    broadcast use vstd::seq_lib::group_to_multiset_ensures;

    assert(a.to_multiset().len() == a.len() && b.to_multiset().len() == b.len());
    if a.len() == 0 {
        assert(a =~= b);
    } else {
        let x = a.last();
        let y = b.last();
        assert(a.contains(x));
        assert(b.contains(y));
        assert(a.to_multiset().count(y) > 0);
        assert(b.to_multiset().count(x) > 0);
        let i = choose|i: int| 0 <= i < a.len() && a[i] == y;
        let j = choose|j: int| 0 <= j < b.len() && b[j] == x;
        if i < a.len() - 1 && j < b.len() - 1 {
            assert(!before(a[a.len() - 1], a[i]));
            assert(!before(b[b.len() - 1], b[j]));
            assert(!before(x, y) && !before(y, x));
        }
        assert(x == y);
        let c = a.drop_last();
        let d = b.drop_last();
        assert(a =~= c.push(x));
        assert(b =~= d.push(x));
        assert(c.to_multiset() =~= a.to_multiset().remove(x));
        assert(d.to_multiset() =~= b.to_multiset().remove(x));
        assert forall|i: int, j: int| 0 <= i < j < c.len() implies !before(
            #[trigger] c[j],
            #[trigger] c[i],
        ) by {
            assert(!before(a[j], a[i]));
        }
        assert forall|i: int, j: int| 0 <= i < j < d.len() implies !before(
            #[trigger] d[j],
            #[trigger] d[i],
        ) by {
            assert(!before(b[j], b[i]));
        }
        assert forall|x: T, y: T|
            c.contains(x) && c.contains(y) && !#[trigger] before(x, y) && !before(
                y,
                x,
            ) implies x == y by {
            let i = choose|i: int| 0 <= i < c.len() && c[i] == x;
            let j = choose|j: int| 0 <= j < c.len() && c[j] == y;
            assert(a[i] == x && a[j] == y);
        }
        order_is_unique(c, d, before);
    }
}

/// What a filter keeps of a list are the items that pass, each as often as before.
pub(crate) proof fn filter_keeps_items<T>(s: Seq<T>, p: spec_fn(T) -> bool)
    ensures
        s.filter(p).to_multiset() == s.to_multiset().filter(p),
    decreases s.len(),
{
    broadcast use vstd::seq_lib::group_to_multiset_ensures;

    reveal(Seq::filter);
    if s.len() == 0 {
        assert(s.to_multiset() =~= vstd::multiset::Multiset::<T>::empty());
        assert(s.filter(p).to_multiset() =~= s.to_multiset().filter(p));
    } else {
        let head = s.drop_last();
        filter_keeps_items(head, p);
        assert(s =~= head.push(s.last()));
        assert(s.filter(p).to_multiset() =~= s.to_multiset().filter(p));
    }
}

/// Where a condition fails up to some place and holds from it on, it filters the rest out.
pub(crate) proof fn filter_keeps_tail<T>(s: Seq<T>, p: spec_fn(T) -> bool, k: int)
    requires
        0 <= k <= s.len(),
        forall|i: int| 0 <= i < k ==> !p(#[trigger] s[i]),
        forall|i: int| k <= i < s.len() ==> p(#[trigger] s[i]),
    ensures
        s.filter(p) == s.skip(k),
    decreases s.len(),
{
    reveal(Seq::filter);
    if s.len() > 0 {
        let head = s.drop_last();
        if k < s.len() {
            assert forall|i: int| k <= i < head.len() implies p(#[trigger] head[i]) by {
                assert(head[i] == s[i]);
            }
            assert forall|i: int| 0 <= i < k implies !p(#[trigger] head[i]) by {
                assert(head[i] == s[i]);
            }
            filter_keeps_tail(head, p, k);
            assert(p(s[s.len() - 1]));
            assert(s.skip(k) =~= head.skip(k).push(s.last()));
        } else {
            assert forall|i: int| 0 <= i < k - 1 implies !p(#[trigger] head[i]) by {
                assert(head[i] == s[i]);
            }
            filter_keeps_tail(head, p, k - 1);
            assert(!p(s[s.len() - 1]));
            assert(head.skip(k - 1) =~= s.skip(k));
        }
    }
}

} // verus!
