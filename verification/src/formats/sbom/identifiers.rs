//! Names for the elements of a document that has its own rules for them.
//!
//! SPDX constrains what an element may be called, while the references of a
//! source are usually package URLs. So writing renames every element and keeps
//! the mapping, against which the dependency graph is rewritten.

use vstd::prelude::*;

use crate::model::sbom::{Component, ComponentView};
use crate::text::{
    alnum, chars, concat, concat3, decimal, decimal_reads_back, drop_leading, drop_trailing,
    is_alnum, number_wide, owned, without_leading, without_trailing,
};
use crate::value::{
    append_one, empty_list, find_key, has_value, key_at, key_at_props, lookup, lookup_push, or_text,
};

verus! {

// ---------------------------------------------------------------------------
// Legal names
// ---------------------------------------------------------------------------

/// Letters, digits, dots and dashes.
pub open spec fn is_legal(c: char) -> bool {
    is_alnum(c) || c == '.' || c == '-'
}

pub open spec fn all_legal(s: Seq<char>) -> bool {
    forall|i: int| 0 <= i < s.len() ==> is_legal(#[trigger] s[i])
}

pub open spec fn legal_char(c: char) -> char {
    if is_legal(c) {
        c
    } else {
        '-'
    }
}

/// The name with every illegal character made a dash and no dash at either end;
/// `fallback` where nothing is left.
pub open spec fn legal_name(raw: Seq<char>, fallback: Seq<char>) -> Seq<char> {
    let bare = drop_trailing(
        drop_leading(raw.map_values(|c: char| legal_char(c)), '-'),
        '-',
    );
    if bare.len() == 0 {
        fallback
    } else {
        bare
    }
}

fn to_legal(c: char) -> (r: char)
    ensures
        r == legal_char(c),
{
    if alnum(c) || c == '.' || c == '-' {
        c
    } else {
        '-'
    }
}

pub fn make_legal(raw: &str, fallback: &str) -> (r: String)
    ensures
        r@ == legal_name(raw@, fallback@),
{
    let cs = chars(raw);
    let ghost goal = raw@.map_values(|c: char| legal_char(c));
    let mut out = String::new();
    let mut i: usize = 0;
    while i < cs.len()
        invariant
            i <= cs@.len(),
            cs@ == raw@,
            goal == raw@.map_values(|c: char| legal_char(c)),
            out@ == goal.take(i as int),
        decreases cs@.len() - i,
    {
        out.push(to_legal(cs[i]));
        i = i + 1;
        assert(out@ =~= goal.take(i as int));
    }
    assert(out@ =~= goal);
    let bare = without_trailing(without_leading(out.as_str(), '-').as_str(), '-');
    if bare.as_str().is_empty() {
        owned(fallback)
    } else {
        bare
    }
}

proof fn trimming_keeps_legal(s: Seq<char>)
    requires
        all_legal(s),
    ensures
        all_legal(drop_leading(s, '-')),
        all_legal(drop_trailing(s, '-')),
    decreases s.len(),
{
    if s.len() > 0 {
        if s[0] == '-' {
            assert(all_legal(s.skip(1)));
            trimming_keeps_legal(s.skip(1));
        }
        if s.last() == '-' {
            assert(all_legal(s.drop_last()));
            trimming_keeps_legal(s.drop_last());
        }
    }
}

/// Whatever the source calls an element, its name here is legal and not empty.
pub proof fn names_are_legal(raw: Seq<char>, fallback: Seq<char>)
    requires
        all_legal(fallback),
        fallback.len() > 0,
    ensures
        all_legal(legal_name(raw, fallback)),
        legal_name(raw, fallback).len() > 0,
{
    let mapped = raw.map_values(|c: char| legal_char(c));
    assert(all_legal(mapped));
    trimming_keeps_legal(mapped);
    trimming_keeps_legal(drop_leading(mapped, '-'));
}

// ---------------------------------------------------------------------------
// Free names
// ---------------------------------------------------------------------------

/// The `n`-th name to try.
pub open spec fn candidate(base: Seq<char>, n: nat) -> Seq<char> {
    if n <= 1 {
        base
    } else {
        base + "-"@ + decimal(n)
    }
}

/// The `n`-th name is free and those before it are taken.
pub open spec fn first_free(used: Seq<Seq<char>>, base: Seq<char>, n: nat) -> bool {
    &&& n >= 1
    &&& !used.contains(candidate(base, n))
    &&& forall|m: nat| 1 <= m < n ==> used.contains(#[trigger] candidate(base, m))
}

/// The first name that is free.
pub open spec fn free_name(used: Seq<Seq<char>>, base: Seq<char>) -> Seq<char> {
    candidate(base, choose|n: nat| first_free(used, base, n))
}

proof fn candidates_differ(base: Seq<char>, a: nat, b: nat)
    requires
        1 <= a < b,
    ensures
        candidate(base, a) != candidate(base, b),
{
    reveal_strlit("-");
    decimal_reads_back(a);
    decimal_reads_back(b);
    if a == 1 {
        assert(candidate(base, b).len() > base.len());
    } else if candidate(base, a) == candidate(base, b) {
        let tail = base.len() as int + 1;
        assert(candidate(base, a).skip(tail) =~= decimal(a));
        assert(candidate(base, b).skip(tail) =~= decimal(b));
    }
}

/// No more names can be taken than there are names in use.
proof fn taken_names_are_few(used: Seq<Seq<char>>, base: Seq<char>, k: nat)
    requires
        forall|m: nat| 1 <= m <= k ==> used.contains(#[trigger] candidate(base, m)),
    ensures
        k <= used.len(),
{
    let names = Seq::new(k, |i: int| candidate(base, (i + 1) as nat));
    assert forall|i: int, j: int| 0 <= i < j < names.len() implies names[i] != names[j] by {
        candidates_differ(base, (i + 1) as nat, (j + 1) as nat);
    }
    assert(names.no_duplicates());
    names.unique_seq_to_set();
    used.lemma_cardinality_of_set();
    assert(names.to_set().subset_of(used.to_set())) by {
        assert forall|x: Seq<char>| names.to_set().contains(x) implies used.to_set().contains(
            x,
        ) by {
            let i = choose|i: int| 0 <= i < names.len() && names[i] == x;
            assert(used.contains(candidate(base, (i + 1) as nat)));
        }
    }
    vstd::seq_lib::seq_to_set_is_finite(used);
    vstd::set_lib::lemma_len_subset(names.to_set(), used.to_set());
}

proof fn free_name_is_unique(used: Seq<Seq<char>>, base: Seq<char>, n: nat)
    requires
        first_free(used, base, n),
    ensures
        free_name(used, base) == candidate(base, n),
        !used.contains(free_name(used, base)),
{
    let m = choose|m: nat| first_free(used, base, m);
    assert(first_free(used, base, m));
    if m < n {
        assert(used.contains(candidate(base, m)));
    } else if n < m {
        assert(used.contains(candidate(base, n)));
    }
}

fn try_name(base: &str, n: u128) -> (r: String)
    ensures
        r@ == candidate(base@, n as nat),
{
    if n <= 1 {
        owned(base)
    } else {
        concat3(base, "-", number_wide(n).as_str())
    }
}

fn find_free(used: &Vec<String>, base: &str) -> (r: String)
    ensures
        r@ == free_name(used.deep_view(), base@),
        !used.deep_view().contains(r@),
{
    let ghost taken = used.deep_view();
    let count: usize = used.len();
    let mut n: u128 = 1;
    let mut name = try_name(base, n);
    while has_value(used, &name)
        invariant
            taken == used.deep_view(),
            taken.len() == count,
            1 <= n <= count + 1,
            name@ == candidate(base@, n as nat),
            forall|m: nat| 1 <= m < n ==> taken.contains(#[trigger] candidate(base@, m)),
        decreases taken.len() + 1 - n,
    {
        proof {
            taken_names_are_few(taken, base@, n as nat);
        }
        n = n + 1;
        name = try_name(base, n);
    }
    proof {
        free_name_is_unique(taken, base@, n as nat);
    }
    name
}

// ---------------------------------------------------------------------------
// The mapping
// ---------------------------------------------------------------------------

/// Assigns every component a name of its own and remembers the mapping.
pub struct Identifiers {
    by_source: Vec<(String, String)>,
    used: Vec<String>,
}

/// The content of [`Identifiers`].
pub struct IdentifiersView {
    /// Source reference and assigned name.
    pub by_source: Seq<(Seq<char>, Seq<char>)>,
    pub used: Seq<Seq<char>>,
}

/// What the source's relationships call a component.
pub open spec fn source_of(component: ComponentView) -> Seq<char> {
    or_text(component.bom_ref, component.identity())
}

impl IdentifiersView {
    /// Nothing assigned yet, with some names already taken.
    pub open spec fn reserving(used: Seq<Seq<char>>) -> IdentifiersView {
        IdentifiersView { by_source: Seq::empty(), used }
    }

    /// No name is used twice, and every assigned name is among the used ones.
    pub open spec fn wf(self) -> bool {
        &&& self.used.no_duplicates()
        &&& self.by_source.len() <= self.used.len()
        &&& forall|i: int|
            0 <= i < self.by_source.len() ==> (#[trigger] self.by_source[i]).1
                == self.used[self.used.len() - self.by_source.len() + i]
    }

    /// The name of what the source calls `source`.
    pub open spec fn name_of(self, source: Seq<char>) -> Option<Seq<char>> {
        lookup(self.by_source, source)
    }

    /// The name of a component; empty where none was assigned.
    pub open spec fn label_of(self, component: ComponentView) -> Seq<char> {
        or_text(self.name_of(source_of(component)), ""@)
    }

    /// The mapping once `source` has a name: the one it has, or the first free
    /// one made of `base`.
    pub open spec fn assigned(self, source: Seq<char>, base: Seq<char>) -> IdentifiersView {
        if self.name_of(source) is Some {
            self
        } else {
            let name = free_name(self.used, base);
            IdentifiersView {
                by_source: self.by_source.push((source, name)),
                used: self.used.push(name),
            }
        }
    }

    /// The mapping once every component has a name.
    pub open spec fn assigned_all(
        self,
        components: Seq<ComponentView>,
        prefix: Seq<char>,
        fallback: Seq<char>,
    ) -> IdentifiersView
        decreases components.len(),
    {
        if components.len() == 0 {
            self
        } else {
            let c = components.last();
            self.assigned_all(components.drop_last(), prefix, fallback).assigned(
                source_of(c),
                prefix + legal_name(c.name, fallback),
            )
        }
    }
}

impl View for Identifiers {
    type V = IdentifiersView;

    closed spec fn view(&self) -> IdentifiersView {
        IdentifiersView { by_source: self.by_source.deep_view(), used: self.used.deep_view() }
    }
}

impl Identifiers {
    pub fn new(used: Vec<String>) -> (r: Self)
        requires
            used.deep_view().no_duplicates(),
        ensures
            r@ == IdentifiersView::reserving(used.deep_view()),
            r@.wf(),
    {
        Identifiers { by_source: empty_list(), used }
    }

    /// Makes sure that `component` has a name.
    pub fn assign(&mut self, component: &Component, prefix: &str, fallback: &str)
        requires
            old(self)@.wf(),
        ensures
            final(self)@ == old(self)@.assigned(
                source_of(component.deep_view()),
                prefix@ + legal_name(component.deep_view().name, fallback@),
            ),
            final(self)@.wf(),
    {
        let source = match &component.bom_ref {
            Some(r) => r.clone(),
            None => component.identity(),
        };
        if find_key(&self.by_source, source.as_str()) < self.by_source.len() {
            return;
        }
        let ghost before = self@;
        let base = concat(prefix, make_legal(component.name.as_str(), fallback).as_str());
        let name = find_free(&self.used, base.as_str());
        append_one(&mut self.used, name.clone());
        append_one(&mut self.by_source, (source, name));
        proof {
            let after = self@;
            assert(after.by_source =~= before.by_source.push((source@, name@)));
            assert(after.used =~= before.used.push(name@));
            assert forall|i: int| 0 <= i < after.by_source.len() implies (
            #[trigger] after.by_source[i]).1 == after.used[after.used.len()
                - after.by_source.len() + i] by {
                if i < before.by_source.len() {
                    assert(after.by_source[i] == before.by_source[i]);
                }
            }
        }
    }

    pub fn assign_all(&mut self, components: &Vec<Component>, prefix: &str, fallback: &str)
        requires
            old(self)@.wf(),
        ensures
            final(self)@ == old(self)@.assigned_all(components.deep_view(), prefix@, fallback@),
            final(self)@.wf(),
    {
        let ghost start = self@;
        let ghost all = components.deep_view();
        let mut i: usize = 0;
        assert(all.take(0) =~= Seq::empty());
        while i < components.len()
            invariant
                i <= components@.len(),
                all == components.deep_view(),
                self@ == start.assigned_all(all.take(i as int), prefix@, fallback@),
                self@.wf(),
            decreases components@.len() - i,
        {
            assert(all.take(i as int + 1).drop_last() =~= all.take(i as int));
            self.assign(&components[i], prefix, fallback);
            i = i + 1;
        }
        assert(all.take(i as int) =~= all);
    }

    /// The name of what the source calls `source`.
    pub fn resolve(&self, source: &str) -> (r: Option<&String>)
        ensures
            match r {
                Some(name) => self@.name_of(source@) == Some(name@),
                None => self@.name_of(source@) is None,
            },
    {
        let at = find_key(&self.by_source, source);
        if at < self.by_source.len() {
            assert(self@.by_source[at as int].1 == self.by_source[at as int].1@);
            Some(&self.by_source[at].1)
        } else {
            None
        }
    }

    /// The name of a component; empty where none was assigned.
    pub fn label(&self, component: &Component) -> (r: String)
        ensures
            r@ == self@.label_of(component.deep_view()),
    {
        let source = match &component.bom_ref {
            Some(r) => r.clone(),
            None => component.identity(),
        };
        match self.resolve(source.as_str()) {
            Some(name) => name.clone(),
            None => owned(""),
        }
    }
}

/// Every component gets a name, and the names of what came before stay.
pub proof fn every_component_is_named(
    ids: IdentifiersView,
    components: Seq<ComponentView>,
    prefix: Seq<char>,
    fallback: Seq<char>,
    i: int,
)
    requires
        0 <= i < components.len(),
    ensures
        ids.assigned_all(components, prefix, fallback).name_of(source_of(components[i])) is Some,
    decreases components.len(),
{
    let before = ids.assigned_all(components.drop_last(), prefix, fallback);
    let c = components.last();
    let name = free_name(before.used, prefix + legal_name(c.name, fallback));
    lookup_push(before.by_source, (source_of(c), name), source_of(components[i]));
    if i < components.len() - 1 {
        every_component_is_named(ids, components.drop_last(), prefix, fallback, i);
        assert(components.drop_last()[i] == components[i]);
    }
}

/// Components that the source tells apart have different names.
pub proof fn different_sources_have_different_names(
    ids: IdentifiersView,
    a: Seq<char>,
    b: Seq<char>,
)
    requires
        ids.wf(),
        ids.name_of(a) is Some,
        ids.name_of(b) is Some,
        a != b,
    ensures
        ids.name_of(a) != ids.name_of(b),
{
    key_at_props(ids.by_source, a);
    key_at_props(ids.by_source, b);
    let i = key_at(ids.by_source, a);
    let j = key_at(ids.by_source, b);
    assert(ids.by_source[i].0 == a && ids.by_source[j].0 == b);
    let shift = ids.used.len() - ids.by_source.len();
    assert(ids.used[shift + i] == ids.by_source[i].1);
    assert(ids.used[shift + j] == ids.by_source[j].1);
}

proof fn free_names_exist(used: Seq<Seq<char>>, base: Seq<char>, n: nat)
    requires
        1 <= n,
        forall|m: nat| 1 <= m < n ==> used.contains(#[trigger] candidate(base, m)),
    ensures
        !used.contains(free_name(used, base)),
    decreases used.len() + 2 - n,
{
    if used.contains(candidate(base, n)) {
        taken_names_are_few(used, base, n);
        free_names_exist(used, base, n + 1);
    } else {
        free_name_is_unique(used, base, n);
    }
}

/// Assigning names keeps all of them apart.
pub proof fn assignment_keeps_names_apart(
    ids: IdentifiersView,
    components: Seq<ComponentView>,
    prefix: Seq<char>,
    fallback: Seq<char>,
)
    requires
        ids.wf(),
    ensures
        ids.assigned_all(components, prefix, fallback).wf(),
    decreases components.len(),
{
    if components.len() > 0 {
        assignment_keeps_names_apart(ids, components.drop_last(), prefix, fallback);
        let before = ids.assigned_all(components.drop_last(), prefix, fallback);
        let c = components.last();
        let base = prefix + legal_name(c.name, fallback);
        let after = before.assigned(source_of(c), base);
        if before.name_of(source_of(c)) is None {
            free_names_exist(before.used, base, 1);
            assert forall|i: int| 0 <= i < after.by_source.len() implies (
            #[trigger] after.by_source[i]).1 == after.used[after.used.len()
                - after.by_source.len() + i] by {
                if i < before.by_source.len() {
                    assert(after.by_source[i] == before.by_source[i]);
                }
            }
        }
    }
}

proof fn assignment_only_adds(
    ids: IdentifiersView,
    components: Seq<ComponentView>,
    prefix: Seq<char>,
    fallback: Seq<char>,
)
    ensures
        ({
            let after = ids.assigned_all(components, prefix, fallback);
            &&& after.used.len() - ids.used.len() == after.by_source.len() - ids.by_source.len()
            &&& after.by_source.len() >= ids.by_source.len()
            &&& after.used.take(ids.used.len() as int) == ids.used
        }),
    decreases components.len(),
{
    let after = ids.assigned_all(components, prefix, fallback);
    if components.len() > 0 {
        assignment_only_adds(ids, components.drop_last(), prefix, fallback);
        let before = ids.assigned_all(components.drop_last(), prefix, fallback);
        assert(after.used.take(ids.used.len() as int) =~= before.used.take(ids.used.len() as int));
    } else {
        assert(after.used.take(ids.used.len() as int) =~= ids.used);
    }
}

/// No element gets a name that was reserved at the start.
pub proof fn reserved_names_stay_reserved(
    ids: IdentifiersView,
    components: Seq<ComponentView>,
    prefix: Seq<char>,
    fallback: Seq<char>,
    source: Seq<char>,
    k: int,
)
    requires
        ids.wf(),
        ids.by_source.len() == 0,
        0 <= k < ids.used.len(),
        ids.assigned_all(components, prefix, fallback).name_of(source) is Some,
    ensures
        ids.assigned_all(components, prefix, fallback).name_of(source) != Some(ids.used[k]),
{
    let after = ids.assigned_all(components, prefix, fallback);
    assignment_keeps_names_apart(ids, components, prefix, fallback);
    assignment_only_adds(ids, components, prefix, fallback);
    key_at_props(after.by_source, source);
    let i = key_at(after.by_source, source);
    let shift = after.used.len() - after.by_source.len();
    assert(after.by_source[i].1 == after.used[shift + i]);
    assert(after.used.take(ids.used.len() as int)[k] == after.used[k]);
}

} // verus!
