//! What merging, sorting and mapping bills of materials promises.

use vstd::prelude::*;

use crate::model::sbom::{
    at_least, canonical_word, dependency_at, dependency_at_props, has_edge, has_identity, kind_name,
    merge_components, merge_dependencies, merge_dependency, merge_docs, merge_keeps_every_identity,
    narrowed, no_smaller_from, normalize_doc, part_at, sort_component, sort_dependency, sort_doc,
    version_parts, without_repeats, Component, ComponentKind, ComponentView, Dependency,
    DependencyView, License, SbomDocView, ToolView,
};
use crate::order::{sorted, sorted_props, sorting_keeps_members};
use crate::paths::MapperView;
use crate::value::with_all_new_props;

verus! {

// ---------------------------------------------------------------------------
// Components
// ---------------------------------------------------------------------------

/// A component is known by its package address, and without one by its group, name
/// and version.
pub proof fn components_are_known_by_their_address(c: ComponentView)
    ensures
        match c.purl {
            Some(purl) => c.identity() == purl,
            None => {
                let version = match c.version {
                    Some(version) => version,
                    None => ""@,
                };
                match c.group {
                    Some(group) => c.identity() == group + "/"@ + c.name + "@"@ + version,
                    None => c.identity() == ""@ + c.name + "@"@ + version,
                }
            },
        },
{
}

/// Whether a component is the first of its identity in a list, and of none in
/// another.
pub open spec fn is_new(
    c: ComponentView,
    known: Seq<ComponentView>,
    list: Seq<ComponentView>,
    i: int,
) -> bool {
    &&& 0 <= i < list.len()
    &&& list[i] == c
    &&& !has_identity(known, c.identity())
    &&& forall|j: int| 0 <= j < i ==> (#[trigger] list[j]).identity() != c.identity()
}

/// Merging keeps the components of the first list as they are; behind them stand
/// only components of the second whose identity the first does not have, each the
/// first of its identity.
pub proof fn merged_components_come_from_either(
    mine: Seq<ComponentView>,
    theirs: Seq<ComponentView>,
    k: int,
)
    requires
        0 <= k < merge_components(mine, theirs).len(),
    ensures
        merge_components(mine, theirs).len() >= mine.len(),
        k < mine.len() ==> merge_components(mine, theirs)[k] == mine[k],
        k >= mine.len() ==> exists|i: int| #[trigger]
            is_new(merge_components(mine, theirs)[k], mine, theirs, i),
    decreases theirs.len(),
{
    if theirs.len() > 0 {
        let before = theirs.drop_last();
        let head = merge_components(mine, before);
        let all = merge_components(mine, theirs);
        heads_are_kept(mine, before);
        if k < head.len() {
            merged_components_come_from_either(mine, before, k);
            if k >= mine.len() {
                let i = choose|i: int| #[trigger] is_new(head[k], mine, before, i);
                assert(theirs[i] == before[i]);
                assert forall|j: int| 0 <= j < i implies (#[trigger] theirs[j]).identity()
                    != all[k].identity() by {
                    assert(before[j] == theirs[j]);
                }
                assert(is_new(all[k], mine, theirs, i));
            }
        } else {
            let c = theirs.last();
            let n = theirs.len() - 1;
            assert(all[k] == c);
            if has_identity(mine, c.identity()) {
                let w = choose|w: int|
                    0 <= w < mine.len() && (#[trigger] mine[w]).identity() == c.identity();
                assert(head[w] == mine[w]);
                assert(has_identity(head, c.identity()));
            }
            assert forall|j: int| 0 <= j < n implies (#[trigger] theirs[j]).identity()
                != c.identity() by {
                assert(before[j] == theirs[j]);
                merge_keeps_every_identity(mine, before);
                assert(has_identity(head, before[j].identity()));
            }
            assert(is_new(all[k], mine, theirs, n));
        }
    }
}

proof fn heads_are_kept(mine: Seq<ComponentView>, theirs: Seq<ComponentView>)
    ensures
        merge_components(mine, theirs).len() >= mine.len(),
        forall|i: int|
            0 <= i < mine.len() ==> #[trigger] merge_components(mine, theirs)[i] == mine[i],
    decreases theirs.len(),
{
    if theirs.len() > 0 {
        heads_are_kept(mine, theirs.drop_last());
    }
}

// ---------------------------------------------------------------------------
// Dependencies
// ---------------------------------------------------------------------------

proof fn one_more_dependency(
    graph: Seq<DependencyView>,
    d: DependencyView,
    from: Seq<char>,
    to: Seq<char>,
)
    ensures
        has_edge(merge_dependency(graph, d), from, to) <==> has_edge(graph, from, to) || (
        d.bom_ref == from && d.depends_on.contains(to)),
{
    let after = merge_dependency(graph, d);
    let at = dependency_at(graph, d.bom_ref);
    dependency_at_props(graph, d.bom_ref);
    if at < graph.len() {
        with_all_new_props(graph[at].depends_on, d.depends_on);
        assert(after[at].depends_on.contains(to) <==> graph[at].depends_on.contains(to)
            || d.depends_on.contains(to));
    }
    if has_edge(graph, from, to) {
        let i = choose|i: int|
            #![trigger graph[i]]
            0 <= i < graph.len() && graph[i].bom_ref == from && graph[i].depends_on.contains(to);
        assert(after[i].bom_ref == from && after[i].depends_on.contains(to));
    }
    if d.bom_ref == from && d.depends_on.contains(to) {
        assert(after[at].bom_ref == from && after[at].depends_on.contains(to));
    }
    if has_edge(after, from, to) {
        let i = choose|i: int|
            #![trigger after[i]]
            0 <= i < after.len() && after[i].bom_ref == from && after[i].depends_on.contains(to);
        if i != at {
            assert(graph[i] == after[i]);
        } else if at < graph.len() {
            assert(graph[at].bom_ref == from);
        }
    }
}

/// A merged graph has exactly the edges of the two.
pub proof fn merged_graphs_have_all_edges(
    mine: Seq<DependencyView>,
    theirs: Seq<DependencyView>,
    from: Seq<char>,
    to: Seq<char>,
)
    ensures
        has_edge(merge_dependencies(mine, theirs), from, to) <==> has_edge(mine, from, to)
            || has_edge(theirs, from, to),
    decreases theirs.len(),
{
    if theirs.len() > 0 {
        let before = theirs.drop_last();
        let n = theirs.len() - 1;
        merged_graphs_have_all_edges(mine, before, from, to);
        one_more_dependency(merge_dependencies(mine, before), theirs.last(), from, to);
        if has_edge(before, from, to) {
            let i = choose|i: int|
                #![trigger before[i]]
                0 <= i < before.len() && before[i].bom_ref == from
                    && before[i].depends_on.contains(to);
            assert(theirs[i] == before[i]);
        }
        if theirs.last().bom_ref == from && theirs.last().depends_on.contains(to) {
            assert(theirs[n] == theirs.last());
        }
        if has_edge(theirs, from, to) {
            let i = choose|i: int|
                #![trigger theirs[i]]
                0 <= i < theirs.len() && theirs[i].bom_ref == from
                    && theirs[i].depends_on.contains(to);
            if i < n {
                assert(before[i] == theirs[i]);
            }
        }
    }
}

/// A merged document has what the first says of itself, and where that says
/// nothing, what the second does; it lists the tools of both.
pub proof fn merged_documents_prefer_the_first(mine: SbomDocView, theirs: SbomDocView)
    ensures
        ({
            let m = merge_docs(mine, theirs);
            &&& m.spec == if mine.spec is Some {
                mine.spec
            } else {
                theirs.spec
            }
            &&& m.document_id == if mine.document_id is Some {
                mine.document_id
            } else {
                theirs.document_id
            }
            &&& m.version == if mine.version is Some {
                mine.version
            } else {
                theirs.version
            }
            &&& m.timestamp == if mine.timestamp is Some {
                mine.timestamp
            } else {
                theirs.timestamp
            }
            &&& m.subject == if mine.subject is Some {
                mine.subject
            } else {
                theirs.subject
            }
            &&& m.components == merge_components(mine.components, theirs.components)
            &&& m.dependencies == merge_dependencies(mine.dependencies, theirs.dependencies)
            &&& forall|t: ToolView| #[trigger]
                m.tools.contains(t) <==> mine.tools.contains(t) || theirs.tools.contains(t)
        }),
{
    with_all_new_props(mine.tools, theirs.tools);
}

// ---------------------------------------------------------------------------
// Order
// ---------------------------------------------------------------------------

/// Dropping repeats keeps every item.
pub proof fn dropping_repeats_keeps_members<V>(s: Seq<V>, x: V)
    ensures
        without_repeats(s).contains(x) <==> s.contains(x),
    decreases s.len(),
{
    if s.len() >= 2 {
        let head = s.drop_last();
        dropping_repeats_keeps_members(head, x);
        let shorter = without_repeats(head);
        if s.contains(x) {
            let i = choose|i: int| 0 <= i < s.len() && s[i] == x;
            if i < head.len() {
                assert(head[i] == x);
            } else if s[s.len() - 2] == s.last() {
                assert(head[s.len() - 2] == x);
            }
        }
        if head.contains(x) {
            let i = choose|i: int| 0 <= i < head.len() && head[i] == x;
            assert(s[i] == x);
        }
        if s[s.len() - 2] != s.last() {
            let all = shorter.push(s.last());
            if shorter.contains(x) {
                let i = choose|i: int| 0 <= i < shorter.len() && shorter[i] == x;
                assert(all[i] == x);
            }
            if s.last() == x {
                assert(all[shorter.len() as int] == x);
                assert(s[s.len() - 1] == x);
            }
            if all.contains(x) {
                let i = choose|i: int| 0 <= i < all.len() && all[i] == x;
                if i < shorter.len() {
                    assert(shorter[i] == x);
                }
            }
        }
    }
}

/// Sorting keeps what a dependency needs: the same names, whatever their number.
pub proof fn sorted_dependencies_need_the_same(d: DependencyView, x: Seq<char>)
    ensures
        sort_dependency(d).bom_ref == d.bom_ref,
        sort_dependency(d).depends_on.contains(x) <==> d.depends_on.contains(x),
{
    dropping_repeats_keeps_members(sorted::<String>(d.depends_on), x);
    sorting_keeps_members::<String>(d.depends_on, x);
}

/// Whether a component is another with its licences and hashes in some order.
pub open spec fn is_same_component(a: ComponentView, b: ComponentView) -> bool {
    &&& a == (ComponentView { licenses: a.licenses, hashes: a.hashes, ..b })
    &&& a.licenses.to_multiset() == b.licenses.to_multiset()
    &&& a.hashes.to_multiset() == b.hashes.to_multiset()
}

/// Sorting a document keeps every component and every dependency and says nothing
/// else of the document.
pub proof fn sorted_documents_keep_everything(doc: SbomDocView, i: int, j: int)
    ensures
        sort_doc(doc) == (SbomDocView {
            components: sort_doc(doc).components,
            dependencies: sort_doc(doc).dependencies,
            ..doc
        }),
        sort_doc(doc).components.len() == doc.components.len(),
        sort_doc(doc).dependencies.len() == doc.dependencies.len(),
        0 <= i < doc.components.len() ==> exists|k: int|
            0 <= k < sort_doc(doc).components.len() && #[trigger] is_same_component(
                sort_doc(doc).components[k],
                doc.components[i],
            ),
        0 <= j < doc.dependencies.len() ==> exists|k: int|
            0 <= k < sort_doc(doc).dependencies.len() && #[trigger] sort_doc(doc).dependencies[k]
                == sort_dependency(doc.dependencies[j]),
{
    let components = sorted::<Component>(doc.components);
    let dependencies = sorted::<Dependency>(doc.dependencies);
    sorted_props::<Component>(doc.components);
    sorted_props::<Dependency>(doc.dependencies);
    if 0 <= i < doc.components.len() {
        let c = doc.components[i];
        assert(doc.components.contains(c));
        sorting_keeps_members::<Component>(doc.components, c);
        let k = choose|k: int| 0 <= k < components.len() && components[k] == c;
        sorted_props::<License>(c.licenses);
        sorted_props::<crate::model::sbom::Hash>(c.hashes);
        assert(sort_doc(doc).components[k] == sort_component(c));
        assert(is_same_component(sort_doc(doc).components[k], c));
    }
    if 0 <= j < doc.dependencies.len() {
        let d = doc.dependencies[j];
        assert(doc.dependencies.contains(d));
        sorting_keeps_members::<Dependency>(doc.dependencies, d);
        let k = choose|k: int| 0 <= k < dependencies.len() && dependencies[k] == d;
        assert(sort_doc(doc).dependencies[k] == sort_dependency(d));
    }
}

/// Mapping paths renames the components that are files and nothing else.
pub proof fn only_files_are_renamed(doc: SbomDocView, mapper: MapperView, i: int)
    requires
        0 <= i < doc.components.len(),
    ensures
        ({
            let before = doc.components[i];
            let after = normalize_doc(doc, mapper).components[i];
            &&& normalize_doc(doc, mapper) == (SbomDocView {
                components: normalize_doc(doc, mapper).components,
                ..doc
            })
            &&& normalize_doc(doc, mapper).components.len() == doc.components.len()
            &&& after == (ComponentView { name: after.name, ..before })
            &&& after.name == if before.kind == ComponentKind::File {
                mapper.map(before.name)
            } else {
                before.name
            }
        }),
{
}

// ---------------------------------------------------------------------------
// Words and versions
// ---------------------------------------------------------------------------

/// Every kind of component has its word.
pub proof fn kinds_have_their_words()
    ensures
        kind_name(ComponentKind::Application) == "application"@,
        kind_name(ComponentKind::Framework) == "framework"@,
        kind_name(ComponentKind::Library) == "library"@,
        kind_name(ComponentKind::Container) == "container"@,
        kind_name(ComponentKind::Platform) == "platform"@,
        kind_name(ComponentKind::OperatingSystem) == "operating-system"@,
        kind_name(ComponentKind::Device) == "device"@,
        kind_name(ComponentKind::DeviceDriver) == "device-driver"@,
        kind_name(ComponentKind::Firmware) == "firmware"@,
        kind_name(ComponentKind::File) == "file"@,
        kind_name(ComponentKind::MachineLearningModel) == "machine-learning-model"@,
        kind_name(ComponentKind::Data) == "data"@,
        kind_name(ComponentKind::CryptographicAsset) == "cryptographic-asset"@,
{
}

/// The words for a hash that lack a hyphen are those that have it.
pub proof fn hashes_are_spelled_with_a_hyphen()
    ensures
        canonical_word("SHA1"@) == "SHA-1"@,
        canonical_word("SHA224"@) == "SHA-224"@,
        canonical_word("SHA256"@) == "SHA-256"@,
        canonical_word("SHA384"@) == "SHA-384"@,
        canonical_word("SHA512"@) == "SHA-512"@,
        canonical_word("SHA3256"@) == "SHA3-256"@ && canonical_word("SHA3_256"@) == "SHA3-256"@,
        canonical_word("SHA3384"@) == "SHA3-384"@ && canonical_word("SHA3_384"@) == "SHA3-384"@,
        canonical_word("SHA3512"@) == "SHA3-512"@ && canonical_word("SHA3_512"@) == "SHA3-512"@,
        canonical_word("BLAKE2B-256"@) == "BLAKE2b-256"@,
        canonical_word("BLAKE2B-384"@) == "BLAKE2b-384"@,
        canonical_word("BLAKE2B-512"@) == "BLAKE2b-512"@,
{
    hash_words_differ();
}

proof fn hash_words_differ()
    ensures
        "SHA1"@ != "SHA224"@ && "SHA1"@ != "SHA256"@ && "SHA1"@ != "SHA384"@
            && "SHA1"@ != "SHA512"@ && "SHA1"@ != "SHA3256"@ && "SHA1"@ != "SHA3_256"@
            && "SHA1"@ != "SHA3384"@ && "SHA1"@ != "SHA3_384"@ && "SHA1"@ != "SHA3512"@
            && "SHA1"@ != "SHA3_512"@ && "SHA1"@ != "BLAKE2B-256"@ && "SHA1"@ != "BLAKE2B256"@
            && "SHA1"@ != "BLAKE2B-384"@ && "SHA1"@ != "BLAKE2B384"@
            && "SHA1"@ != "BLAKE2B-512"@ && "SHA1"@ != "BLAKE2B512"@,
        "SHA224"@ != "SHA256"@ && "SHA224"@ != "SHA384"@ && "SHA224"@ != "SHA512"@
            && "SHA224"@ != "SHA3256"@ && "SHA224"@ != "SHA3_256"@ && "SHA224"@ != "SHA3384"@
            && "SHA224"@ != "SHA3_384"@ && "SHA224"@ != "SHA3512"@ && "SHA224"@ != "SHA3_512"@
            && "SHA224"@ != "BLAKE2B-256"@ && "SHA224"@ != "BLAKE2B256"@
            && "SHA224"@ != "BLAKE2B-384"@ && "SHA224"@ != "BLAKE2B384"@
            && "SHA224"@ != "BLAKE2B-512"@ && "SHA224"@ != "BLAKE2B512"@,
        "SHA256"@ != "SHA384"@ && "SHA256"@ != "SHA512"@ && "SHA256"@ != "SHA3256"@
            && "SHA256"@ != "SHA3_256"@ && "SHA256"@ != "SHA3384"@ && "SHA256"@ != "SHA3_384"@
            && "SHA256"@ != "SHA3512"@ && "SHA256"@ != "SHA3_512"@
            && "SHA256"@ != "BLAKE2B-256"@ && "SHA256"@ != "BLAKE2B256"@
            && "SHA256"@ != "BLAKE2B-384"@ && "SHA256"@ != "BLAKE2B384"@
            && "SHA256"@ != "BLAKE2B-512"@ && "SHA256"@ != "BLAKE2B512"@,
        "SHA384"@ != "SHA512"@ && "SHA384"@ != "SHA3256"@ && "SHA384"@ != "SHA3_256"@
            && "SHA384"@ != "SHA3384"@ && "SHA384"@ != "SHA3_384"@ && "SHA384"@ != "SHA3512"@
            && "SHA384"@ != "SHA3_512"@ && "SHA384"@ != "BLAKE2B-256"@
            && "SHA384"@ != "BLAKE2B256"@ && "SHA384"@ != "BLAKE2B-384"@
            && "SHA384"@ != "BLAKE2B384"@ && "SHA384"@ != "BLAKE2B-512"@
            && "SHA384"@ != "BLAKE2B512"@,
        "SHA512"@ != "SHA3256"@ && "SHA512"@ != "SHA3_256"@ && "SHA512"@ != "SHA3384"@
            && "SHA512"@ != "SHA3_384"@ && "SHA512"@ != "SHA3512"@ && "SHA512"@ != "SHA3_512"@
            && "SHA512"@ != "BLAKE2B-256"@ && "SHA512"@ != "BLAKE2B256"@
            && "SHA512"@ != "BLAKE2B-384"@ && "SHA512"@ != "BLAKE2B384"@
            && "SHA512"@ != "BLAKE2B-512"@ && "SHA512"@ != "BLAKE2B512"@,
        "SHA3256"@ != "SHA3_256"@ && "SHA3256"@ != "SHA3384"@ && "SHA3256"@ != "SHA3_384"@
            && "SHA3256"@ != "SHA3512"@ && "SHA3256"@ != "SHA3_512"@
            && "SHA3256"@ != "BLAKE2B-256"@ && "SHA3256"@ != "BLAKE2B256"@
            && "SHA3256"@ != "BLAKE2B-384"@ && "SHA3256"@ != "BLAKE2B384"@
            && "SHA3256"@ != "BLAKE2B-512"@ && "SHA3256"@ != "BLAKE2B512"@,
        "SHA3_256"@ != "SHA3384"@ && "SHA3_256"@ != "SHA3_384"@ && "SHA3_256"@ != "SHA3512"@
            && "SHA3_256"@ != "SHA3_512"@ && "SHA3_256"@ != "BLAKE2B-256"@
            && "SHA3_256"@ != "BLAKE2B256"@ && "SHA3_256"@ != "BLAKE2B-384"@
            && "SHA3_256"@ != "BLAKE2B384"@ && "SHA3_256"@ != "BLAKE2B-512"@
            && "SHA3_256"@ != "BLAKE2B512"@,
        "SHA3384"@ != "SHA3_384"@ && "SHA3384"@ != "SHA3512"@ && "SHA3384"@ != "SHA3_512"@
            && "SHA3384"@ != "BLAKE2B-256"@ && "SHA3384"@ != "BLAKE2B256"@
            && "SHA3384"@ != "BLAKE2B-384"@ && "SHA3384"@ != "BLAKE2B384"@
            && "SHA3384"@ != "BLAKE2B-512"@ && "SHA3384"@ != "BLAKE2B512"@,
        "SHA3_384"@ != "SHA3512"@ && "SHA3_384"@ != "SHA3_512"@ && "SHA3_384"@ != "BLAKE2B-256"@
            && "SHA3_384"@ != "BLAKE2B256"@ && "SHA3_384"@ != "BLAKE2B-384"@
            && "SHA3_384"@ != "BLAKE2B384"@ && "SHA3_384"@ != "BLAKE2B-512"@
            && "SHA3_384"@ != "BLAKE2B512"@,
        "SHA3512"@ != "SHA3_512"@ && "SHA3512"@ != "BLAKE2B-256"@ && "SHA3512"@ != "BLAKE2B256"@
            && "SHA3512"@ != "BLAKE2B-384"@ && "SHA3512"@ != "BLAKE2B384"@
            && "SHA3512"@ != "BLAKE2B-512"@ && "SHA3512"@ != "BLAKE2B512"@,
        "SHA3_512"@ != "BLAKE2B-256"@ && "SHA3_512"@ != "BLAKE2B256"@
            && "SHA3_512"@ != "BLAKE2B-384"@ && "SHA3_512"@ != "BLAKE2B384"@
            && "SHA3_512"@ != "BLAKE2B-512"@ && "SHA3_512"@ != "BLAKE2B512"@,
        "BLAKE2B-256"@ != "BLAKE2B256"@ && "BLAKE2B-256"@ != "BLAKE2B-384"@
            && "BLAKE2B-256"@ != "BLAKE2B384"@ && "BLAKE2B-256"@ != "BLAKE2B-512"@
            && "BLAKE2B-256"@ != "BLAKE2B512"@,
        "BLAKE2B256"@ != "BLAKE2B-384"@ && "BLAKE2B256"@ != "BLAKE2B384"@
            && "BLAKE2B256"@ != "BLAKE2B-512"@ && "BLAKE2B256"@ != "BLAKE2B512"@,
        "BLAKE2B-384"@ != "BLAKE2B384"@ && "BLAKE2B-384"@ != "BLAKE2B-512"@
            && "BLAKE2B-384"@ != "BLAKE2B512"@,
        "BLAKE2B384"@ != "BLAKE2B-512"@ && "BLAKE2B384"@ != "BLAKE2B512"@,
        "BLAKE2B-512"@ != "BLAKE2B512"@,
{
    reveal_strlit("SHA1");
    reveal_strlit("SHA224");
    reveal_strlit("SHA256");
    reveal_strlit("SHA384");
    reveal_strlit("SHA512");
    reveal_strlit("SHA3256");
    reveal_strlit("SHA3_256");
    reveal_strlit("SHA3384");
    reveal_strlit("SHA3_384");
    reveal_strlit("SHA3512");
    reveal_strlit("SHA3_512");
    reveal_strlit("BLAKE2B-256");
    reveal_strlit("BLAKE2B256");
    reveal_strlit("BLAKE2B-384");
    reveal_strlit("BLAKE2B384");
    reveal_strlit("BLAKE2B-512");
    reveal_strlit("BLAKE2B512");
    assert("SHA1"@.len() == 4);
    assert("SHA224"@.len() == 6);
    assert("SHA256"@.len() == 6);
    assert("SHA384"@.len() == 6);
    assert("SHA512"@.len() == 6);
    assert("SHA3256"@.len() == 7);
    assert("SHA3_256"@.len() == 8);
    assert("SHA3384"@.len() == 7);
    assert("SHA3_384"@.len() == 8);
    assert("SHA3512"@.len() == 7);
    assert("SHA3_512"@.len() == 8);
    assert("BLAKE2B-256"@.len() == 11);
    assert("BLAKE2B256"@.len() == 10);
    assert("BLAKE2B-384"@.len() == 11);
    assert("BLAKE2B384"@.len() == 10);
    assert("BLAKE2B-512"@.len() == 11);
    assert("BLAKE2B512"@.len() == 10);
    assert("BLAKE2B-256"@[8] == '2');
    assert("BLAKE2B-384"@[8] == '3');
    assert("BLAKE2B-512"@[8] == '5');
    assert("BLAKE2B256"@[7] == '2');
    assert("BLAKE2B384"@[7] == '3');
    assert("BLAKE2B512"@[7] == '5');
    assert("SHA224"@[3] == '2');
    assert("SHA224"@[4] == '2');
    assert("SHA256"@[3] == '2');
    assert("SHA256"@[4] == '5');
    assert("SHA3256"@[4] == '2');
    assert("SHA3384"@[4] == '3');
    assert("SHA3512"@[4] == '5');
    assert("SHA384"@[3] == '3');
    assert("SHA3_256"@[5] == '2');
    assert("SHA3_384"@[5] == '3');
    assert("SHA3_512"@[5] == '5');
    assert("SHA512"@[3] == '5');
}

proof fn parts_decide(a: Seq<u32>, b: Seq<u32>, from: nat, i: nat)
    requires
        from <= i,
        forall|j: int| from <= j < i ==> part_at(a, j) == part_at(b, j),
        part_at(a, i as int) != part_at(b, i as int),
    ensures
        no_smaller_from(a, b, from) <==> part_at(a, i as int) > part_at(b, i as int),
    decreases i - from,
{
    if from < i {
        assert(part_at(a, from as int) == part_at(b, from as int));
        parts_decide(a, b, from + 1, i);
    }
}

/// Versions compare by the first part in which they differ, as numbers, where a
/// part that is missing is zero.
pub proof fn versions_compare_by_their_first_difference(
    candidate: Seq<char>,
    minimum: Seq<char>,
    i: nat,
)
    requires
        forall|j: int|
            0 <= j < i ==> part_at(version_parts(candidate), j) == part_at(
                version_parts(minimum),
                j,
            ),
        part_at(version_parts(candidate), i as int) != part_at(version_parts(minimum), i as int),
    ensures
        at_least(candidate, minimum) <==> part_at(version_parts(candidate), i as int) > part_at(
            version_parts(minimum),
            i as int,
        ),
{
    parts_decide(version_parts(candidate), version_parts(minimum), 0, i);
}

/// A component type that a version does not know yet is written as a library, and
/// that is told: platforms, device drivers, models and data are known since 1.5,
/// cryptographic assets since 1.6.
pub proof fn later_kinds_are_narrowed(kind: ComponentKind, version: Seq<char>)
    ensures
        ({
            let since = match kind {
                ComponentKind::Platform => "1.5"@,
                ComponentKind::DeviceDriver => "1.5"@,
                ComponentKind::MachineLearningModel => "1.5"@,
                ComponentKind::Data => "1.5"@,
                ComponentKind::CryptographicAsset => "1.6"@,
                _ => "1.0"@,
            };
            narrowed(kind, version) == if at_least(version, since) {
                (kind, false)
            } else {
                (ComponentKind::Library, true)
            }
        }),
{
}

} // verus!
