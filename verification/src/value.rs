//! Values that are known by their content: copying, equality and the list
//! operations built on them, all stated over `deep_view`.

use vstd::prelude::*;

use crate::text::same;

verus! {

/// A type whose values can be copied and compared by content.
pub trait Value: DeepView + Sized {
    fn copy(&self) -> (r: Self)
        ensures
            r.deep_view() == self.deep_view(),
    ;

    fn equals(&self, other: &Self) -> (r: bool)
        ensures
            r == (self.deep_view() == other.deep_view()),
    ;
}

impl Value for String {
    fn copy(&self) -> (r: Self) {
        self.clone()
    }

    fn equals(&self, other: &Self) -> (r: bool) {
        same(self.as_str(), other.as_str())
    }
}

impl Value for u32 {
    fn copy(&self) -> (r: Self) {
        *self
    }

    fn equals(&self, other: &Self) -> (r: bool) {
        *self == *other
    }
}

impl Value for u64 {
    fn copy(&self) -> (r: Self) {
        *self
    }

    fn equals(&self, other: &Self) -> (r: bool) {
        *self == *other
    }
}

impl Value for i64 {
    fn copy(&self) -> (r: Self) {
        *self
    }

    fn equals(&self, other: &Self) -> (r: bool) {
        *self == *other
    }
}

impl Value for bool {
    fn copy(&self) -> (r: Self) {
        *self
    }

    fn equals(&self, other: &Self) -> (r: bool) {
        *self == *other
    }
}

impl<T: Value> Value for Option<T> {
    fn copy(&self) -> (r: Self) {
        match self {
            Some(x) => Some(x.copy()),
            None => None,
        }
    }

    fn equals(&self, other: &Self) -> (r: bool) {
        match (self, other) {
            (Some(a), Some(b)) => a.equals(b),
            (None, None) => true,
            _ => false,
        }
    }
}

impl<A: Value, B: Value> Value for (A, B) {
    fn copy(&self) -> (r: Self) {
        (self.0.copy(), self.1.copy())
    }

    fn equals(&self, other: &Self) -> (r: bool) {
        self.0.equals(&other.0) && self.1.equals(&other.1)
    }
}

impl<T: Value> Value for Vec<T> {
    fn copy(&self) -> (r: Self) {
        let mut out: Vec<T> = Vec::new();
        let mut i: usize = 0;
        while i < self.len()
            invariant
                i <= self@.len(),
                out.deep_view() == self.deep_view().take(i as int),
            decreases self@.len() - i,
        {
            append_one(&mut out, self[i].copy());
            i = i + 1;
            assert(out.deep_view() =~= self.deep_view().take(i as int));
        }
        assert(out.deep_view() =~= self.deep_view());
        out
    }

    fn equals(&self, other: &Self) -> (r: bool) {
        if self.len() != other.len() {
            assert(self.deep_view().len() != other.deep_view().len());
            return false;
        }
        let mut i: usize = 0;
        while i < self.len()
            invariant
                i <= self@.len(),
                self@.len() == other@.len(),
                forall|j: int| 0 <= j < i ==> self.deep_view()[j] == other.deep_view()[j],
            decreases self@.len() - i,
        {
            if !self[i].equals(&other[i]) {
                assert(self.deep_view()[i as int] != other.deep_view()[i as int]);
                return false;
            }
            i = i + 1;
        }
        assert(self.deep_view() =~= other.deep_view());
        true
    }
}

/// `Vec::push`, stated over content.
pub fn append_one<T: DeepView>(list: &mut Vec<T>, item: T)
    ensures
        final(list).deep_view() == old(list).deep_view().push(item.deep_view()),
        final(list)@ == old(list)@.push(item),
{
    list.push(item);
    assert(list.deep_view() =~= old(list).deep_view().push(item.deep_view()));
}

/// A list without elements.
pub fn empty_list<T: DeepView>() -> (r: Vec<T>)
    ensures
        r.deep_view() == Seq::<T::V>::empty(),
        r@.len() == 0,
{
    let r: Vec<T> = Vec::new();
    assert(r.deep_view() =~= Seq::<T::V>::empty());
    r
}

/// All of `other` behind all of `list`.
pub fn append_all<T: DeepView>(list: &mut Vec<T>, other: Vec<T>)
    ensures
        final(list).deep_view() == old(list).deep_view() + other.deep_view(),
{
    let mut rest = other;
    list.append(&mut rest);
    assert(list.deep_view() =~= old(list).deep_view() + other.deep_view());
}

/// Replaces one element.
pub fn replace_at<T: DeepView>(list: &mut Vec<T>, at: usize, item: T)
    requires
        at < old(list)@.len(),
    ensures
        final(list).deep_view() == old(list).deep_view().update(at as int, item.deep_view()),
        final(list)@ == old(list)@.update(at as int, item),
{
    list.set(at, item);
    assert(list.deep_view() =~= old(list).deep_view().update(at as int, item.deep_view()));
}

/// The position of the first element equal to `item`, or the length.
pub open spec fn index_in<V>(s: Seq<V>, item: V) -> int
    decreases s.len(),
{
    if s.len() == 0 || s[0] == item {
        0
    } else {
        1 + index_in(s.skip(1), item)
    }
}

pub proof fn index_in_props<V>(s: Seq<V>, item: V)
    ensures
        0 <= index_in(s, item) <= s.len(),
        s.contains(item) <==> index_in(s, item) < s.len(),
        index_in(s, item) < s.len() ==> s[index_in(s, item)] == item,
    decreases s.len(),
{
    if s.len() > 0 && s[0] != item {
        index_in_props(s.skip(1), item);
        if s.contains(item) {
            let i = choose|i: int| 0 <= i < s.len() && s[i] == item;
            assert(s.skip(1)[i - 1] == item);
            assert(s.skip(1).contains(item));
        }
        if index_in(s.skip(1), item) < s.skip(1).len() {
            assert(s[1 + index_in(s.skip(1), item)] == item);
        }
    }
}

/// Whether an element of `list` equals `item`.
pub fn has_value<T: Value>(list: &Vec<T>, item: &T) -> (r: bool)
    ensures
        r == list.deep_view().contains(item.deep_view()),
{
    let mut i: usize = 0;
    while i < list.len()
        invariant
            i <= list@.len(),
            forall|j: int| 0 <= j < i ==> list.deep_view()[j] != item.deep_view(),
        decreases list@.len() - i,
    {
        if list[i].equals(item) {
            assert(list.deep_view()[i as int] == item.deep_view());
            return true;
        }
        i = i + 1;
    }
    false
}

/// `s` with `item` at its end, unless it holds it already.
pub open spec fn with_new<V>(s: Seq<V>, item: V) -> Seq<V> {
    if s.contains(item) {
        s
    } else {
        s.push(item)
    }
}

/// The items of `more` that are new, one by one behind `s`.
pub open spec fn with_all_new<V>(s: Seq<V>, more: Seq<V>) -> Seq<V>
    decreases more.len(),
{
    if more.len() == 0 {
        s
    } else {
        with_new(with_all_new(s, more.drop_last()), more.last())
    }
}

pub fn add_new<T: Value>(list: &mut Vec<T>, item: T)
    ensures
        final(list).deep_view() == with_new(old(list).deep_view(), item.deep_view()),
{
    if !has_value(list, &item) {
        append_one(list, item);
    }
}

pub fn add_all_new<T: Value>(list: &mut Vec<T>, more: Vec<T>)
    ensures
        final(list).deep_view() == with_all_new(old(list).deep_view(), more.deep_view()),
{
    let mut i: usize = 0;
    let ghost start = list.deep_view();
    let ghost all = more.deep_view();
    assert(all.take(0) =~= Seq::empty());
    while i < more.len()
        invariant
            i <= more@.len(),
            all == more.deep_view(),
            list.deep_view() == with_all_new(start, all.take(i as int)),
        decreases more@.len() - i,
    {
        add_new(list, more[i].copy());
        assert(all.take(i as int + 1).drop_last() =~= all.take(i as int));
        i = i + 1;
    }
    assert(all.take(i as int) =~= all);
}

/// Nothing of `s` is lost, nothing but `s` and `more` gets in, everything of
/// `more` is there, and no repetition appears.
pub proof fn with_all_new_props<V>(s: Seq<V>, more: Seq<V>)
    ensures
        s.len() <= with_all_new(s, more).len() <= s.len() + more.len(),
        with_all_new(s, more).take(s.len() as int) == s,
        forall|x: V| #[trigger]
            with_all_new(s, more).contains(x) <==> s.contains(x) || more.contains(x),
        s.no_duplicates() ==> with_all_new(s, more).no_duplicates(),
    decreases more.len(),
{
    if more.len() == 0 {
        assert(s.take(s.len() as int) =~= s);
    } else {
        let head = with_all_new(s, more.drop_last());
        let item = more.last();
        with_all_new_props(s, more.drop_last());
        let whole = with_new(head, item);
        assert(whole.take(s.len() as int) =~= head.take(s.len() as int));
        assert forall|x: V| #[trigger]
            whole.contains(x) <==> s.contains(x) || more.contains(x) by {
            assert(more =~= more.drop_last().push(item));
            if more.contains(x) {
                let i = choose|i: int| 0 <= i < more.len() && more[i] == x;
                if i < more.len() - 1 {
                    assert(more.drop_last()[i] == x);
                    assert(more.drop_last().contains(x));
                }
            }
            if more.drop_last().contains(x) {
                let i = choose|i: int| 0 <= i < more.drop_last().len() && more.drop_last()[i] == x;
                assert(more[i] == x);
            }
            assert(more[more.len() - 1] == item);
            if !head.contains(item) {
                assert(whole == head.push(item));
                if whole.contains(x) {
                    let i = choose|i: int| 0 <= i < whole.len() && whole[i] == x;
                    if i < head.len() {
                        assert(head[i] == x);
                    }
                }
                if head.contains(x) {
                    let i = choose|i: int| 0 <= i < head.len() && head[i] == x;
                    assert(whole[i] == x);
                }
                assert(whole[head.len() as int] == item);
            }
        }
    }
}

// ---------------------------------------------------------------------------
// Lists as a whole
// ---------------------------------------------------------------------------

/// Applies `f`, which computes `g`, to every element.
pub(crate) fn map_list<T: DeepView, U: DeepView, F: Fn(&T) -> U>(
    list: &Vec<T>,
    f: F,
    Ghost(g): Ghost<spec_fn(T::V) -> U::V>,
) -> (r: Vec<U>)
    requires
        forall|x: &T| call_requires(f, (x,)),
        forall|x: &T, y: U| #[trigger]
            call_ensures(f, (x,), y) ==> y.deep_view() == g(x.deep_view()),
    ensures
        r.deep_view() == list.deep_view().map_values(g),
{
    let ghost goal = list.deep_view().map_values(g);
    let mut out: Vec<U> = empty_list();
    let mut i: usize = 0;
    while i < list.len()
        invariant
            i <= list@.len(),
            goal == list.deep_view().map_values(g),
            out.deep_view() == goal.take(i as int),
            forall|x: &T| call_requires(f, (x,)),
            forall|x: &T, y: U| #[trigger]
                call_ensures(f, (x,), y) ==> y.deep_view() == g(x.deep_view()),
        decreases list@.len() - i,
    {
        let y = f(&list[i]);
        append_one(&mut out, y);
        i = i + 1;
        assert(out.deep_view() =~= goal.take(i as int));
    }
    assert(out.deep_view() =~= goal);
    out
}

/// The values that `g` gives, elements without one left out.
pub open spec fn filter_mapped<A, B>(s: Seq<A>, g: spec_fn(A) -> Option<B>) -> Seq<B>
    decreases s.len(),
{
    if s.len() == 0 {
        Seq::empty()
    } else {
        match g(s.last()) {
            Some(b) => filter_mapped(s.drop_last(), g).push(b),
            None => filter_mapped(s.drop_last(), g),
        }
    }
}

/// Applies `f`, which computes `g`, to every element and keeps what it gives.
pub(crate) fn filter_map_list<T: DeepView, U: DeepView, F: Fn(&T) -> Option<U>>(
    list: &Vec<T>,
    f: F,
    Ghost(g): Ghost<spec_fn(T::V) -> Option<U::V>>,
) -> (r: Vec<U>)
    requires
        forall|x: &T| call_requires(f, (x,)),
        forall|x: &T, y: Option<U>| #[trigger]
            call_ensures(f, (x,), y) ==> y.deep_view() == g(x.deep_view()),
    ensures
        r.deep_view() == filter_mapped(list.deep_view(), g),
{
    let ghost all = list.deep_view();
    let mut out: Vec<U> = empty_list();
    let mut i: usize = 0;
    assert(all.take(0) =~= Seq::empty());
    while i < list.len()
        invariant
            i <= list@.len(),
            all == list.deep_view(),
            out.deep_view() == filter_mapped(all.take(i as int), g),
            forall|x: &T| call_requires(f, (x,)),
            forall|x: &T, y: Option<U>| #[trigger]
                call_ensures(f, (x,), y) ==> y.deep_view() == g(x.deep_view()),
        decreases list@.len() - i,
    {
        assert(all.take(i as int + 1).drop_last() =~= all.take(i as int));
        let y = f(&list[i]);
        assert(y.deep_view() == g(all[i as int]));
        if let Some(item) = y {
            append_one(&mut out, item);
        }
        i = i + 1;
    }
    assert(all.take(i as int) =~= all);
    out
}

/// What `f` makes of every element, one behind the other.
pub open spec fn flat<A, B>(s: Seq<A>, f: spec_fn(A) -> Seq<B>) -> Seq<B>
    decreases s.len(),
{
    if s.len() == 0 {
        Seq::empty()
    } else {
        flat(s.drop_last(), f) + f(s.last())
    }
}

/// Every item of every part is in the whole.
pub proof fn parts_are_in_the_whole<A, B>(s: Seq<A>, f: spec_fn(A) -> Seq<B>, i: int, j: int)
    requires
        0 <= i < s.len(),
        0 <= j < f(s[i]).len(),
    ensures
        flat(s, f).contains(f(s[i])[j]),
    decreases s.len(),
{
    let head = flat(s.drop_last(), f);
    let whole = flat(s, f);
    if i == s.len() - 1 {
        assert(whole[head.len() + j] == f(s[i])[j]);
    } else {
        assert(s.drop_last()[i] == s[i]);
        parts_are_in_the_whole(s.drop_last(), f, i, j);
        let k = choose|k: int| 0 <= k < head.len() && head[k] == f(s[i])[j];
        assert(whole[k] == head[k]);
    }
}

/// Whether the `j`th item of the `i`th part is this one.
pub open spec fn is_part<A, B>(
    s: Seq<A>,
    f: spec_fn(A) -> Seq<B>,
    i: int,
    j: int,
    item: B,
) -> bool {
    0 <= i < s.len() && 0 <= j < f(s[i]).len() && f(s[i])[j] == item
}

/// Every item of the whole is in one of the parts.
pub proof fn the_whole_is_of_parts<A, B>(s: Seq<A>, f: spec_fn(A) -> Seq<B>, k: int)
    requires
        0 <= k < flat(s, f).len(),
    ensures
        exists|i: int, j: int| #[trigger] is_part(s, f, i, j, flat(s, f)[k]),
    decreases s.len(),
{
    let head = flat(s.drop_last(), f);
    let whole = flat(s, f);
    if k < head.len() {
        the_whole_is_of_parts(s.drop_last(), f, k);
        let (i, j) = choose|i: int, j: int| #[trigger] is_part(s.drop_last(), f, i, j, head[k]);
        assert(s.drop_last()[i] == s[i]);
        assert(whole[k] == head[k]);
        assert(is_part(s, f, i, j, whole[k]));
    } else {
        assert(is_part(s, f, s.len() - 1, k - head.len(), whole[k]));
    }
}

/// What is kept of an element is in the list of what is kept.
pub proof fn kept_items_are_listed<A, B>(s: Seq<A>, g: spec_fn(A) -> Option<B>, i: int)
    requires
        0 <= i < s.len(),
        g(s[i]) is Some,
    ensures
        filter_mapped(s, g).contains(g(s[i])->0),
    decreases s.len(),
{
    let head = filter_mapped(s.drop_last(), g);
    let whole = filter_mapped(s, g);
    if i == s.len() - 1 {
        assert(whole[head.len() as int] == g(s[i])->0);
    } else {
        assert(s.drop_last()[i] == s[i]);
        kept_items_are_listed(s.drop_last(), g, i);
        let k = choose|k: int| 0 <= k < head.len() && head[k] == g(s[i])->0;
        assert(whole[k] == head[k]);
    }
}

/// What is in that list was kept of an element.
pub proof fn listed_items_were_kept<A, B>(s: Seq<A>, g: spec_fn(A) -> Option<B>, k: int)
    requires
        0 <= k < filter_mapped(s, g).len(),
    ensures
        exists|i: int| 0 <= i < s.len() && g(#[trigger] s[i]) == Some(filter_mapped(s, g)[k]),
    decreases s.len(),
{
    let head = filter_mapped(s.drop_last(), g);
    let whole = filter_mapped(s, g);
    if k < head.len() {
        listed_items_were_kept(s.drop_last(), g, k);
        let i = choose|i: int|
            0 <= i < s.drop_last().len() && g(#[trigger] s.drop_last()[i]) == Some(head[k]);
        assert(s[i] == s.drop_last()[i]);
        assert(whole[k] == head[k]);
    } else {
        assert(g(s[s.len() - 1]) == Some(whole[k]));
    }
}

/// What an option holds, as a list.
pub open spec fn opt_list<A>(item: Option<A>) -> Seq<A> {
    match item {
        Some(a) => seq![a],
        None => Seq::empty(),
    }
}

/// Whether `p` holds of some element.
pub open spec fn any_in<A>(s: Seq<A>, p: spec_fn(A) -> bool) -> bool {
    exists|i: int| 0 <= i < s.len() && p(#[trigger] s[i])
}

pub(crate) fn any_value<T: DeepView, F: Fn(&T) -> bool>(
    list: &Vec<T>,
    f: F,
    Ghost(p): Ghost<spec_fn(T::V) -> bool>,
) -> (r: bool)
    requires
        forall|x: &T| call_requires(f, (x,)),
        forall|x: &T, y: bool| #[trigger] call_ensures(f, (x,), y) ==> y == p(x.deep_view()),
    ensures
        r == any_in(list.deep_view(), p),
{
    let ghost all = list.deep_view();
    let mut i: usize = 0;
    while i < list.len()
        invariant
            i <= list@.len(),
            all == list.deep_view(),
            forall|j: int| 0 <= j < i ==> !p(#[trigger] all[j]),
            forall|x: &T| call_requires(f, (x,)),
            forall|x: &T, y: bool| #[trigger] call_ensures(f, (x,), y) ==> y == p(x.deep_view()),
        decreases list@.len() - i,
    {
        let y = f(&list[i]);
        assert(y == p(all[i as int]));
        if y {
            return true;
        }
        i = i + 1;
    }
    false
}

/// The number of elements of which `p` holds.
pub open spec fn count_in<A>(s: Seq<A>, p: spec_fn(A) -> bool) -> nat
    decreases s.len(),
{
    if s.len() == 0 {
        0
    } else {
        count_in(s.drop_last(), p) + if p(s.last()) {
            1nat
        } else {
            0nat
        }
    }
}

pub(crate) fn count_values<T: DeepView, F: Fn(&T) -> bool>(
    list: &Vec<T>,
    f: F,
    Ghost(p): Ghost<spec_fn(T::V) -> bool>,
) -> (r: usize)
    requires
        forall|x: &T| call_requires(f, (x,)),
        forall|x: &T, y: bool| #[trigger] call_ensures(f, (x,), y) ==> y == p(x.deep_view()),
    ensures
        r == count_in(list.deep_view(), p),
{
    let ghost all = list.deep_view();
    let mut n: usize = 0;
    let mut i: usize = 0;
    assert(all.take(0) =~= Seq::empty());
    while i < list.len()
        invariant
            n <= i <= list@.len(),
            all == list.deep_view(),
            n == count_in(all.take(i as int), p),
            forall|x: &T| call_requires(f, (x,)),
            forall|x: &T, y: bool| #[trigger] call_ensures(f, (x,), y) ==> y == p(x.deep_view()),
        decreases list@.len() - i,
    {
        assert(all.take(i as int + 1).drop_last() =~= all.take(i as int));
        let y = f(&list[i]);
        assert(y == p(all[i as int]));
        if y {
            n = n + 1;
        }
        i = i + 1;
    }
    assert(all.take(i as int) =~= all);
    n
}

/// The position of the first pair with this key, or the length.
pub open spec fn key_at<V>(pairs: Seq<(Seq<char>, V)>, key: Seq<char>) -> int
    decreases pairs.len(),
{
    if pairs.len() == 0 || pairs[0].0 == key {
        0
    } else {
        1 + key_at(pairs.skip(1), key)
    }
}

/// The value of the first pair with this key.
pub open spec fn lookup<V>(pairs: Seq<(Seq<char>, V)>, key: Seq<char>) -> Option<V> {
    if key_at(pairs, key) < pairs.len() {
        Some(pairs[key_at(pairs, key)].1)
    } else {
        None
    }
}

pub proof fn key_at_props<V>(pairs: Seq<(Seq<char>, V)>, key: Seq<char>)
    ensures
        0 <= key_at(pairs, key) <= pairs.len(),
        key_at(pairs, key) < pairs.len() ==> pairs[key_at(pairs, key)].0 == key,
        forall|j: int| 0 <= j < key_at(pairs, key) ==> (#[trigger] pairs[j]).0 != key,
    decreases pairs.len(),
{
    if pairs.len() > 0 && pairs[0].0 != key {
        key_at_props(pairs.skip(1), key);
        assert forall|j: int| 0 <= j < key_at(pairs, key) implies (#[trigger] pairs[j]).0
            != key by {
            if j > 0 {
                assert(pairs.skip(1)[j - 1] == pairs[j]);
            }
        }
    }
}

pub proof fn lookup_push<V>(pairs: Seq<(Seq<char>, V)>, pair: (Seq<char>, V), key: Seq<char>)
    ensures
        lookup(pairs.push(pair), key) == match lookup(pairs, key) {
            Some(v) => Some(v),
            None => if pair.0 == key {
                Some(pair.1)
            } else {
                None
            },
        },
    decreases pairs.len(),
{
    key_at_props(pairs, key);
    key_at_props(pairs.push(pair), key);
    if pairs.len() > 0 && pairs[0].0 != key {
        assert(pairs.push(pair).skip(1) =~= pairs.skip(1).push(pair));
        lookup_push(pairs.skip(1), pair, key);
        key_at_props(pairs.skip(1), key);
        key_at_props(pairs.skip(1).push(pair), key);
    } else if pairs.len() == 0 {
        assert(pairs.push(pair).skip(1) =~= Seq::<(Seq<char>, V)>::empty());
        reveal_with_fuel(key_at, 2);
    }
}

pub fn find_key<T: DeepView>(pairs: &Vec<(String, T)>, key: &str) -> (r: usize)
    ensures
        r <= pairs@.len(),
        r == key_at(pairs.deep_view(), key@),
{
    let ghost all = pairs.deep_view();
    let mut at: usize = 0;
    assert(all.skip(0) =~= all);
    while at < pairs.len() && !same(pairs[at].0.as_str(), key)
        invariant
            at <= pairs@.len(),
            all == pairs.deep_view(),
            key_at(all, key@) == at + key_at(all.skip(at as int), key@),
        decreases pairs@.len() - at,
    {
        assert(all.skip(at as int)[0] == all[at as int]);
        assert(all.skip(at as int).skip(1) =~= all.skip(at as int + 1));
        at = at + 1;
    }
    proof {
        if at < pairs@.len() {
            assert(all.skip(at as int)[0] == all[at as int]);
        }
    }
    at
}

/// The text, or another in its place.
pub open spec fn or_text(value: Option<Seq<char>>, fallback: Seq<char>) -> Seq<char> {
    match value {
        Some(v) => v,
        None => fallback,
    }
}

pub fn text_or<'a>(value: &'a Option<String>, fallback: &'a str) -> (r: &'a str)
    ensures
        r@ == or_text(value.deep_view(), fallback@),
{
    match value {
        Some(v) => v.as_str(),
        None => fallback,
    }
}

/// The first of two values that is there.
pub open spec fn or_else<A>(first: Option<A>, second: Option<A>) -> Option<A> {
    match first {
        Some(_) => first,
        None => second,
    }
}

pub fn either<T: DeepView>(first: Option<T>, second: Option<T>) -> (r: Option<T>)
    ensures
        r.deep_view() == or_else(first.deep_view(), second.deep_view()),
{
    match first {
        Some(_) => first,
        None => second,
    }
}

/// The text, unless it is empty.
pub open spec fn non_empty(value: Option<Seq<char>>) -> Option<Seq<char>> {
    match value {
        Some(v) => if v.len() == 0 {
            None
        } else {
            Some(v)
        },
        None => None,
    }
}

pub fn if_any(value: Option<String>) -> (r: Option<String>)
    ensures
        r.deep_view() == non_empty(value.deep_view()),
{
    match value {
        Some(v) => if v.as_str().is_empty() {
            None
        } else {
            Some(v)
        },
        None => None,
    }
}

} // verus!
