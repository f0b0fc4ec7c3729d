//! Stable sorting of lists whose elements know their rank.

use vstd::prelude::*;
use vstd::multiset::*;

use crate::text::{less, lex_lt, lex_lt_irreflexive, lex_lt_total, lex_lt_transitive};
use crate::value::Value;

verus! {

/// A type with a strict weak order over its content.
pub trait Ranked: Value {
    spec fn precedes(a: Self::V, b: Self::V) -> bool;

    fn goes_before(&self, other: &Self) -> (r: bool)
        ensures
            r == Self::precedes(self.deep_view(), other.deep_view()),
    ;

    /// The order is asymmetric, and "not after" is transitive.
    proof fn order_laws(a: Self::V, b: Self::V, c: Self::V)
        ensures
            Self::precedes(a, b) ==> !Self::precedes(b, a),
            !Self::precedes(b, a) && !Self::precedes(c, b) ==> !Self::precedes(c, a),
    ;
}

/// `s` with `x` behind the last element that `x` does not precede.
pub open spec fn inserted<T: Ranked>(s: Seq<T::V>, x: T::V) -> Seq<T::V>
    decreases s.len(),
{
    if s.len() > 0 && T::precedes(x, s.last()) {
        inserted::<T>(s.drop_last(), x).push(s.last())
    } else {
        s.push(x)
    }
}

/// `s` in order; elements that rank alike stay in the order they came in.
pub open spec fn sorted<T: Ranked>(s: Seq<T::V>) -> Seq<T::V>
    decreases s.len(),
{
    if s.len() == 0 {
        s
    } else {
        inserted::<T>(sorted::<T>(s.drop_last()), s.last())
    }
}

pub open spec fn is_sorted<T: Ranked>(s: Seq<T::V>) -> bool {
    forall|i: int, j: int| 0 <= i < j < s.len() ==> !T::precedes(#[trigger] s[j], #[trigger] s[i])
}

fn insert<T: Ranked>(list: &mut Vec<T>, x: T)
    ensures
        final(list).deep_view() == inserted::<T>(old(list).deep_view(), x.deep_view()),
{
    let mut at: usize = list.len();
    let ghost all = list.deep_view();
    assert(all.take(at as int) =~= all);
    assert(all.skip(at as int) =~= Seq::empty());
    assert(inserted::<T>(all, x.deep_view()) =~= inserted::<T>(all.take(at as int), x.deep_view())
        + all.skip(at as int));
    while at > 0 && x.goes_before(&list[at - 1])
        invariant
            at <= list@.len(),
            all == list.deep_view(),
            inserted::<T>(all, x.deep_view()) == inserted::<T>(all.take(at as int), x.deep_view())
                + all.skip(at as int),
        decreases at,
    {
        let ghost head = all.take(at as int);
        assert(head.last() == all[at - 1]);
        assert(head.drop_last() =~= all.take(at - 1));
        assert(inserted::<T>(head.drop_last(), x.deep_view()).push(head.last()) + all.skip(
            at as int,
        ) =~= inserted::<T>(all.take(at - 1), x.deep_view()) + all.skip(at - 1));
        at = at - 1;
    }
    proof {
        if at > 0 {
            assert(all.take(at as int).last() == all[at - 1]);
        }
        assert(all.insert(at as int, x.deep_view()) =~= all.take(at as int).push(x.deep_view())
            + all.skip(at as int));
    }
    list.insert(at, x);
    assert(list.deep_view() =~= all.insert(at as int, x.deep_view()));
}

/// Stable sort.
pub fn sort<T: Ranked>(list: &mut Vec<T>)
    ensures
        final(list).deep_view() == sorted::<T>(old(list).deep_view()),
{
    let mut out: Vec<T> = Vec::new();
    let ghost all = list.deep_view();
    let mut i: usize = 0;
    assert(all.take(0) =~= Seq::empty());
    assert(out.deep_view() =~= Seq::empty());
    while i < list.len()
        invariant
            i <= list@.len(),
            all == list.deep_view(),
            out.deep_view() == sorted::<T>(all.take(i as int)),
        decreases list@.len() - i,
    {
        insert(&mut out, list[i].copy());
        assert(all.take(i as int + 1).drop_last() =~= all.take(i as int));
        i = i + 1;
    }
    assert(all.take(i as int) =~= all);
    *list = out;
}

proof fn inserted_props<T: Ranked>(s: Seq<T::V>, x: T::V)
    requires
        is_sorted::<T>(s),
    ensures
        is_sorted::<T>(inserted::<T>(s, x)),
        inserted::<T>(s, x).to_multiset() == s.to_multiset().insert(x),
    decreases s.len(),
{
    broadcast use vstd::seq_lib::group_to_multiset_ensures;

    if s.len() > 0 && T::precedes(x, s.last()) {
        let head = s.drop_last();
        let mid = inserted::<T>(head, x);
        assert(is_sorted::<T>(head)) by {
            assert forall|i: int, j: int| 0 <= i < j < head.len() implies !T::precedes(
                #[trigger] head[j],
                #[trigger] head[i],
            ) by {
                assert(head[i] == s[i] && head[j] == s[j]);
            }
        }
        inserted_props::<T>(head, x);
        assert(s =~= head.push(s.last()));
        assert(mid.push(s.last()).to_multiset() =~= s.to_multiset().insert(x));
        let whole = mid.push(s.last());
        assert forall|i: int, j: int| 0 <= i < j < whole.len() implies !T::precedes(
            #[trigger] whole[j],
            #[trigger] whole[i],
        ) by {
            if j == whole.len() - 1 {
                let y = mid[i];
                assert(mid.contains(y));
                assert(mid.to_multiset().count(y) > 0);
                if y == x {
                    T::order_laws(x, s.last(), x);
                } else {
                    assert(head.to_multiset().count(y) > 0);
                    assert(head.contains(y));
                    let k = choose|k: int| 0 <= k < head.len() && head[k] == y;
                    assert(s[k] == y);
                    assert(!T::precedes(s[s.len() - 1], s[k]));
                }
            } else {
                assert(whole[i] == mid[i] && whole[j] == mid[j]);
            }
        }
    } else {
        let whole = s.push(x);
        assert forall|i: int, j: int| 0 <= i < j < whole.len() implies !T::precedes(
            #[trigger] whole[j],
            #[trigger] whole[i],
        ) by {
            if j == whole.len() - 1 {
                if i < s.len() - 1 {
                    assert(!T::precedes(s[s.len() - 1], s[i]));
                    T::order_laws(s[i], s[s.len() - 1], x);
                }
            } else {
                assert(whole[i] == s[i] && whole[j] == s[j]);
            }
        }
    }
}

/// Sorting gives a sorted arrangement of the same elements.
pub proof fn sorted_props<T: Ranked>(s: Seq<T::V>)
    ensures
        is_sorted::<T>(sorted::<T>(s)),
        sorted::<T>(s).to_multiset() == s.to_multiset(),
        sorted::<T>(s).len() == s.len(),
    decreases s.len(),
{
    broadcast use vstd::seq_lib::group_to_multiset_ensures;

    if s.len() > 0 {
        sorted_props::<T>(s.drop_last());
        inserted_props::<T>(sorted::<T>(s.drop_last()), s.last());
        assert(s =~= s.drop_last().push(s.last()));
        assert(sorted::<T>(s).to_multiset() =~= s.to_multiset());
        sorted::<T>(s).to_multiset_ensures();
        s.to_multiset_ensures();
    }
}

/// Sorting neither adds nor loses an element.
pub proof fn sorting_keeps_members<T: Ranked>(s: Seq<T::V>, x: T::V)
    ensures
        sorted::<T>(s).contains(x) <==> s.contains(x),
{
    let t = sorted::<T>(s);
    sorted_props::<T>(s);
    s.to_multiset_ensures();
    t.to_multiset_ensures();
    assert(s.contains(x) <==> s.to_multiset().count(x) > 0);
    assert(t.contains(x) <==> t.to_multiset().count(x) > 0);
}

/// Sorting what is sorted changes nothing.
pub proof fn sorted_fixpoint<T: Ranked>(s: Seq<T::V>)
    requires
        is_sorted::<T>(s),
    ensures
        sorted::<T>(s) == s,
    decreases s.len(),
{
    if s.len() > 0 {
        let head = s.drop_last();
        assert(is_sorted::<T>(head)) by {
            assert forall|i: int, j: int| 0 <= i < j < head.len() implies !T::precedes(
                #[trigger] head[j],
                #[trigger] head[i],
            ) by {
                assert(head[i] == s[i] && head[j] == s[j]);
            }
        }
        sorted_fixpoint::<T>(head);
        if head.len() > 0 {
            assert(!T::precedes(s[s.len() - 1], s[s.len() - 2]));
        }
        assert(head.push(s.last()) =~= s);
    }
}

/// The elements of `s` that rank like `pivot`, in their order.
pub open spec fn peers<T: Ranked>(s: Seq<T::V>, pivot: T::V) -> Seq<T::V>
    decreases s.len(),
{
    if s.len() == 0 {
        s
    } else if !T::precedes(s.last(), pivot) && !T::precedes(pivot, s.last()) {
        peers::<T>(s.drop_last(), pivot).push(s.last())
    } else {
        peers::<T>(s.drop_last(), pivot)
    }
}

proof fn peers_push<T: Ranked>(s: Seq<T::V>, x: T::V, pivot: T::V)
    ensures
        peers::<T>(s.push(x), pivot) == if !T::precedes(x, pivot) && !T::precedes(pivot, x) {
            peers::<T>(s, pivot).push(x)
        } else {
            peers::<T>(s, pivot)
        },
{
    assert(s.push(x).drop_last() =~= s);
}

proof fn inserted_keeps_peers<T: Ranked>(s: Seq<T::V>, x: T::V, pivot: T::V)
    ensures
        peers::<T>(inserted::<T>(s, x), pivot) == peers::<T>(s.push(x), pivot),
    decreases s.len(),
{
    if s.len() > 0 && T::precedes(x, s.last()) {
        let head = s.drop_last();
        inserted_keeps_peers::<T>(head, x, pivot);
        peers_push::<T>(inserted::<T>(head, x), s.last(), pivot);
        peers_push::<T>(head, x, pivot);
        peers_push::<T>(s, x, pivot);
        T::order_laws(s.last(), pivot, x);
    }
}

/// Sorting is stable: elements that rank alike keep their order.
pub proof fn sorted_is_stable<T: Ranked>(s: Seq<T::V>, pivot: T::V)
    ensures
        peers::<T>(sorted::<T>(s), pivot) == peers::<T>(s, pivot),
    decreases s.len(),
{
    if s.len() > 0 {
        let head = s.drop_last();
        sorted_is_stable::<T>(head, pivot);
        inserted_keeps_peers::<T>(sorted::<T>(head), s.last(), pivot);
        peers_push::<T>(sorted::<T>(head), s.last(), pivot);
        peers_push::<T>(head, s.last(), pivot);
        assert(s =~= head.push(s.last()));
    }
}

/// Lists that hold the same elements of every rank, in the same order, are sorted
/// alike.
pub proof fn same_peers_sort_alike<T: Ranked>(a: Seq<T::V>, b: Seq<T::V>)
    requires
        forall|pivot: T::V| #[trigger] peers::<T>(a, pivot) == peers::<T>(b, pivot),
    ensures
        sorted::<T>(a) == sorted::<T>(b),
{
    let x = sorted::<T>(a);
    let y = sorted::<T>(b);
    sorted_props::<T>(a);
    sorted_props::<T>(b);
    assert forall|pivot: T::V| #[trigger] peers::<T>(x, pivot) == peers::<T>(y, pivot) by {
        sorted_is_stable::<T>(a, pivot);
        sorted_is_stable::<T>(b, pivot);
        assert(peers::<T>(a, pivot) == peers::<T>(b, pivot));
    }
    peers_fix_the_order::<T>(x, y);
}

proof fn peers_are_members<T: Ranked>(s: Seq<T::V>, pivot: T::V, i: int)
    requires
        0 <= i < peers::<T>(s, pivot).len(),
    ensures
        s.contains(peers::<T>(s, pivot)[i]),
        !T::precedes(peers::<T>(s, pivot)[i], pivot),
        !T::precedes(pivot, peers::<T>(s, pivot)[i]),
    decreases s.len(),
{
    let head = s.drop_last();
    let own = peers::<T>(head, pivot);
    if i < own.len() {
        peers_are_members::<T>(head, pivot, i);
        let k = choose|k: int| 0 <= k < head.len() && head[k] == own[i];
        assert(s[k] == own[i]);
    } else {
        assert(s[s.len() - 1] == s.last());
    }
}

proof fn peers_fix_the_order<T: Ranked>(a: Seq<T::V>, b: Seq<T::V>)
    requires
        is_sorted::<T>(a),
        is_sorted::<T>(b),
        forall|pivot: T::V| #[trigger] peers::<T>(a, pivot) == peers::<T>(b, pivot),
    ensures
        a == b,
    decreases a.len(),
{
    if a.len() == 0 {
        if b.len() > 0 {
            let y = b.last();
            T::order_laws(y, y, y);
            assert(peers::<T>(a, y) == peers::<T>(b, y));
        }
        assert(a =~= b);
    } else {
        let x = a.last();
        T::order_laws(x, x, x);
        let at = peers::<T>(a, x);
        assert(at == peers::<T>(b, x));
        peers_are_members::<T>(b, x, at.len() - 1);
        let j = choose|j: int| 0 <= j < b.len() && b[j] == x;
        let y = b.last();
        T::order_laws(y, y, y);
        let there = peers::<T>(b, y);
        assert(there == peers::<T>(a, y));
        peers_are_members::<T>(a, y, there.len() - 1);
        let k = choose|k: int| 0 <= k < a.len() && a[k] == there.last();
        assert(!T::precedes(y, x)) by {
            if j < b.len() - 1 {
                assert(!T::precedes(b[b.len() - 1], b[j]));
            }
        }
        assert(!T::precedes(x, a[k])) by {
            if k < a.len() - 1 {
                assert(!T::precedes(a[a.len() - 1], a[k]));
            } else {
                T::order_laws(x, x, x);
            }
        }
        T::order_laws(y, a[k], x);
        assert(x == y);
        let p = a.drop_last();
        let q = b.drop_last();
        assert(a =~= p.push(x));
        assert(b =~= q.push(x));
        assert forall|pivot: T::V| #[trigger] peers::<T>(p, pivot) == peers::<T>(q, pivot) by {
            assert(peers::<T>(a, pivot) == peers::<T>(b, pivot));
            peers_push::<T>(p, x, pivot);
            peers_push::<T>(q, x, pivot);
            if !T::precedes(x, pivot) && !T::precedes(pivot, x) {
                assert(peers::<T>(p, pivot) =~= peers::<T>(a, pivot).drop_last());
                assert(peers::<T>(q, pivot) =~= peers::<T>(b, pivot).drop_last());
            }
        }
        assert forall|i: int, m: int| 0 <= i < m < p.len() implies !T::precedes(
            #[trigger] p[m],
            #[trigger] p[i],
        ) by {
            assert(p[i] == a[i] && p[m] == a[m]);
        }
        assert forall|i: int, m: int| 0 <= i < m < q.len() implies !T::precedes(
            #[trigger] q[m],
            #[trigger] q[i],
        ) by {
            assert(q[i] == b[i] && q[m] == b[m]);
        }
        peers_fix_the_order::<T>(p, q);
    }
}

/// Where no two elements of a list rank alike, sorting depends on which
/// elements there are and not on their order.
pub proof fn sorting_forgets_the_order<T: Ranked>(a: Seq<T::V>, b: Seq<T::V>)
    requires
        a.no_duplicates(),
        b.no_duplicates(),
        forall|v: T::V| #[trigger] a.contains(v) <==> b.contains(v),
        forall|u: T::V, v: T::V|
            a.contains(u) && a.contains(v) && u != v ==> #[trigger] T::precedes(u, v)
                || T::precedes(v, u),
    ensures
        sorted::<T>(a) == sorted::<T>(b),
{
    sorted_props::<T>(a);
    sorted_props::<T>(b);
    arrangements_agree::<T>(a);
    arrangements_agree::<T>(b);
    one_order::<T>(sorted::<T>(a), sorted::<T>(b));
}

proof fn arrangements_agree<T: Ranked>(s: Seq<T::V>)
    requires
        s.no_duplicates(),
    ensures
        sorted::<T>(s).no_duplicates(),
        forall|v: T::V| #[trigger] sorted::<T>(s).contains(v) <==> s.contains(v),
{
    let r = sorted::<T>(s);
    sorted_props::<T>(s);
    s.to_multiset_ensures();
    r.to_multiset_ensures();
    assert forall|v: T::V| #[trigger] r.contains(v) <==> s.contains(v) by {
        assert(r.to_multiset().count(v) == s.to_multiset().count(v));
    }
    s.lemma_multiset_has_no_duplicates();
    assert forall|v: T::V| #[trigger] r.to_multiset().contains(v) implies r.to_multiset().count(v)
        == 1 by {
        assert(s.to_multiset().contains(v));
    }
    r.lemma_multiset_has_no_duplicates_conv();
}

proof fn one_order<T: Ranked>(a: Seq<T::V>, b: Seq<T::V>)
    requires
        is_sorted::<T>(a),
        is_sorted::<T>(b),
        a.no_duplicates(),
        b.no_duplicates(),
        forall|v: T::V| #[trigger] a.contains(v) <==> b.contains(v),
        forall|u: T::V, v: T::V|
            a.contains(u) && a.contains(v) && u != v ==> #[trigger] T::precedes(u, v)
                || T::precedes(v, u),
    ensures
        a == b,
    decreases a.len(),
{
    if a.len() == 0 {
        if b.len() > 0 {
            assert(b.contains(b[0]));
            assert(a.contains(b[0]));
        }
        assert(a =~= b);
    } else {
        assert(a.contains(a.last()));
        let j = choose|j: int| 0 <= j < b.len() && b[j] == a.last();
        assert(b.contains(b.last()));
        assert(a.contains(b.last()));
        let k = choose|k: int| 0 <= k < a.len() && a[k] == b.last();
        if a.last() != b.last() {
            assert(!T::precedes(b[b.len() - 1], b[j]));
            assert(!T::precedes(a[a.len() - 1], a[k]));
            assert(T::precedes(a.last(), b.last()) || T::precedes(b.last(), a.last()));
        }
        let x = a.drop_last();
        let y = b.drop_last();
        assert forall|v: T::V| #[trigger] x.contains(v) <==> y.contains(v) by {
            if x.contains(v) {
                let i = choose|i: int| 0 <= i < x.len() && x[i] == v;
                assert(a[i] == v);
                assert(a.contains(v));
                let m = choose|m: int| 0 <= m < b.len() && b[m] == v;
                assert(y[m] == v);
            }
            if y.contains(v) {
                let i = choose|i: int| 0 <= i < y.len() && y[i] == v;
                assert(b[i] == v);
                assert(b.contains(v));
                assert(a.contains(v));
                let m = choose|m: int| 0 <= m < a.len() && a[m] == v;
                assert(x[m] == v);
            }
        }
        assert forall|u: T::V, v: T::V| x.contains(u) && x.contains(v) && u != v implies #[trigger]
        T::precedes(u, v) || T::precedes(v, u) by {
            let i = choose|i: int| 0 <= i < x.len() && x[i] == u;
            let m = choose|m: int| 0 <= m < x.len() && x[m] == v;
            assert(a[i] == u && a[m] == v);
            assert(a.contains(u) && a.contains(v));
        }
        assert forall|i: int, m: int| 0 <= i < m < x.len() implies !T::precedes(
            #[trigger] x[m],
            #[trigger] x[i],
        ) by {
            assert(x[i] == a[i] && x[m] == a[m]);
        }
        assert forall|i: int, m: int| 0 <= i < m < y.len() implies !T::precedes(
            #[trigger] y[m],
            #[trigger] y[i],
        ) by {
            assert(y[i] == b[i] && y[m] == b[m]);
        }
        one_order::<T>(x, y);
        assert(a =~= x.push(a.last()));
        assert(b =~= y.push(b.last()));
    }
}

/// Changing the elements of a list without changing how they rank commutes with
/// sorting.
pub proof fn sorting_passes_through<T: Ranked>(s: Seq<T::V>, f: spec_fn(T::V) -> T::V)
    requires
        forall|a: T::V, b: T::V|
            #[trigger] T::precedes(f(a), f(b)) == T::precedes(a, b),
    ensures
        sorted::<T>(s).map_values(f) == sorted::<T>(s.map_values(f)),
    decreases s.len(),
{
    if s.len() > 0 {
        sorting_passes_through::<T>(s.drop_last(), f);
        assert(s.map_values(f).drop_last() =~= s.drop_last().map_values(f));
        inserting_passes_through::<T>(sorted::<T>(s.drop_last()), s.last(), f);
    } else {
        assert(s.map_values(f) =~= s);
        assert(sorted::<T>(s).map_values(f) =~= s);
    }
}

proof fn inserting_passes_through<T: Ranked>(s: Seq<T::V>, x: T::V, f: spec_fn(T::V) -> T::V)
    requires
        forall|a: T::V, b: T::V|
            #[trigger] T::precedes(f(a), f(b)) == T::precedes(a, b),
    ensures
        inserted::<T>(s, x).map_values(f) == inserted::<T>(s.map_values(f), f(x)),
    decreases s.len(),
{
    if s.len() > 0 && T::precedes(x, s.last()) {
        inserting_passes_through::<T>(s.drop_last(), x, f);
        assert(s.map_values(f).drop_last() =~= s.drop_last().map_values(f));
        assert(T::precedes(f(x), f(s.last())));
        assert(inserted::<T>(s, x).map_values(f) =~= inserted::<T>(s.drop_last(), x).map_values(
            f,
        ).push(f(s.last())));
    } else {
        if s.len() > 0 {
            assert(!T::precedes(f(x), f(s.last())));
        }
        assert(s.push(x).map_values(f) =~= s.map_values(f).push(f(x)));
    }
}

impl Ranked for String {
    open spec fn precedes(a: Seq<char>, b: Seq<char>) -> bool {
        lex_lt(a, b)
    }

    fn goes_before(&self, other: &Self) -> (r: bool) {
        less(self.as_str(), other.as_str())
    }

    proof fn order_laws(a: Seq<char>, b: Seq<char>, c: Seq<char>) {
        lex_laws(a, b, c);
    }
}

/// The lexicographic order as a strict weak order.
pub proof fn lex_laws(a: Seq<char>, b: Seq<char>, c: Seq<char>)
    ensures
        lex_lt(a, b) ==> !lex_lt(b, a),
        !lex_lt(b, a) && !lex_lt(c, b) ==> !lex_lt(c, a),
{
    lex_lt_irreflexive(a);
    if lex_lt(a, b) && lex_lt(b, a) {
        lex_lt_transitive(a, b, a);
    }
    if !lex_lt(b, a) && !lex_lt(c, b) && lex_lt(c, a) {
        lex_lt_total(a, b);
        lex_lt_total(b, c);
        if a != b && b != c {
            lex_lt_transitive(a, b, c);
            lex_lt_transitive(a, c, a);
        } else if a == b {
        } else {
            lex_lt_transitive(a, b, a);
        }
    }
}

/// `None` first, then by value.
pub open spec fn opt_number_lt(a: Option<u32>, b: Option<u32>) -> bool {
    match (a, b) {
        (None, Some(_)) => true,
        (Some(x), Some(y)) => x < y,
        _ => false,
    }
}

pub fn opt_number_less(a: Option<u32>, b: Option<u32>) -> (r: bool)
    ensures
        r == opt_number_lt(a, b),
{
    match (a, b) {
        (None, Some(_)) => true,
        (Some(x), Some(y)) => x < y,
        _ => false,
    }
}

/// `None` first, then lexicographically.
pub open spec fn opt_text_lt(a: Option<Seq<char>>, b: Option<Seq<char>>) -> bool {
    match (a, b) {
        (None, Some(_)) => true,
        (Some(x), Some(y)) => lex_lt(x, y),
        _ => false,
    }
}

pub fn opt_text_less(a: &Option<String>, b: &Option<String>) -> (r: bool)
    ensures
        r == opt_text_lt(a.deep_view(), b.deep_view()),
{
    match (a, b) {
        (None, Some(_)) => true,
        (Some(x), Some(y)) => less(x.as_str(), y.as_str()),
        _ => false,
    }
}

pub proof fn opt_text_laws(a: Option<Seq<char>>, b: Option<Seq<char>>, c: Option<Seq<char>>)
    ensures
        opt_text_lt(a, b) ==> !opt_text_lt(b, a),
        !opt_text_lt(b, a) && !opt_text_lt(c, b) ==> !opt_text_lt(c, a),
        a == b || opt_text_lt(a, b) || opt_text_lt(b, a),
{
    match (a, b) {
        (Some(x), Some(y)) => {
            lex_lt_total(x, y);
            match c {
                Some(z) => lex_laws(x, y, z),
                None => lex_laws(x, y, y),
            }
        },
        _ => {},
    }
}

} // verus!
