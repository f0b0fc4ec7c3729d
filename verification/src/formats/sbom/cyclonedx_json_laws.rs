//! What reading a CycloneDX JSON document promises.

use vstd::prelude::*;

use crate::formats::sbom::cyclonedx_json::{
    children, component_of, component_shape, dependency_in, flattened, flattened_list, hash_in,
    license_choice, read_document, reference_in, serial_of, subject_parts, target_of, tool_in,
    urn_uuid, written, FAMILY,
};
use crate::formats::sbom::identifiers::candidate;
use crate::json::{decoded, JsonView};
use crate::model::sbom::{
    at_least, canonical, parse_kind, Component, ComponentKind, ComponentView, LicenseView,
    SbomDocView,
};
use crate::order::sorted_props;
use crate::registry::DocView;
use crate::text::decimal;
use crate::value::kept_items_are_listed;
use crate::warn::CtxView;

verus! {

/// A text, unless it is missing or empty.
pub open spec fn told(raw: JsonView) -> Option<Seq<char>> {
    match raw.text() {
        Some(text) => if text.len() > 0 {
            Some(text)
        } else {
            None
        },
        None => None,
    }
}

/// A component has what each of its fields says, under that field's name. Its kind
/// is a library where none that is known is stated.
pub proof fn components_have_their_fields(raw: JsonView)
    ensures
        ({
            let c = component_of(raw);
            &&& c.bom_ref == raw.get("bom-ref"@).text()
            &&& c.name == match raw.get("name"@).text() {
                Some(name) => name,
                None => ""@,
            }
            &&& c.kind == match raw.get("type"@).text() {
                Some(word) => match parse_kind(word) {
                    Some(kind) => kind,
                    None => ComponentKind::Library,
                },
                None => ComponentKind::Library,
            }
            &&& c.version == raw.get("version"@).text()
            &&& c.group == raw.get("group"@).text()
            &&& c.purl == raw.get("purl"@).text()
            &&& c.cpe == raw.get("cpe"@).text()
            &&& c.description == raw.get("description"@).text()
            &&& c.scope == raw.get("scope"@).text()
            &&& c.author == raw.get("author"@).text()
            &&& c.publisher == raw.get("publisher"@).text()
            &&& c.supplier == raw.get("supplier"@).get("name"@).text()
            &&& c.copyright == raw.get("copyright"@).text()
        }),
{
}

/// A licence choice is its expression, or without one its identifier, or without
/// that its name.
pub proof fn licenses_are_the_most_precise(choice: JsonView)
    ensures
        license_choice(choice) == match (
            told(choice.get("expression"@)),
            told(choice.get("license"@).get("id"@)),
            told(choice.get("license"@).get("name"@)),
        ) {
            (Some(expression), _, _) => Some(LicenseView::Expression(expression)),
            (None, Some(id), _) => Some(LicenseView::Id(id)),
            (None, None, Some(name)) => Some(LicenseView::Name(name)),
            (None, None, None) => None,
        },
{
}

/// A component lists the licence, the hash and the reference that each entry of its
/// lists states.
pub proof fn components_list_their_entries(raw: JsonView, i: int)
    ensures
        ({
            let c = component_of(raw);
            let choices = raw.get("licenses"@).items();
            let hashes = raw.get("hashes"@).items();
            let references = raw.get("externalReferences"@).items();
            &&& 0 <= i < choices.len() ==> (license_choice(choices[i]) matches Some(l)
                ==> c.licenses.contains(l))
            &&& 0 <= i < hashes.len() ==> (hash_in(hashes[i]) matches Some(h)
                ==> c.hashes.contains(h))
            &&& 0 <= i < references.len() ==> (reference_in(references[i]) matches Some(r)
                ==> c.external_references.contains(r))
        }),
{
    let choices = raw.get("licenses"@).items();
    let hashes = raw.get("hashes"@).items();
    let references = raw.get("externalReferences"@).items();
    let license = |choice: JsonView| license_choice(choice);
    let hash = |hash: JsonView| hash_in(hash);
    let reference = |reference: JsonView| reference_in(reference);
    if 0 <= i < choices.len() && license_choice(choices[i]) is Some {
        assert(license(choices[i]) == license_choice(choices[i]));
        kept_items_are_listed(choices, license, i);
    }
    if 0 <= i < hashes.len() && hash_in(hashes[i]) is Some {
        assert(hash(hashes[i]) == hash_in(hashes[i]));
        kept_items_are_listed(hashes, hash, i);
    }
    if 0 <= i < references.len() && reference_in(references[i]) is Some {
        assert(reference(references[i]) == reference_in(references[i]));
        kept_items_are_listed(references, reference, i);
    }
}

/// A hash has an algorithm and a value, a reference an address, a dependency the
/// name of what depends, a tool a name; what lacks it is none.
pub proof fn entries_have_their_fields(raw: JsonView)
    ensures
        match hash_in(raw) {
            Some(h) => Some(h.value) == raw.get("content"@).text() && raw.get(
                "alg"@,
            ).text() is Some && h.algorithm == canonical(raw.get("alg"@).text()->0),
            None => raw.get("alg"@).text() is None || raw.get("content"@).text() is None,
        },
        match reference_in(raw) {
            Some(r) => Some(r.url) == raw.get("url"@).text() && r.comment == raw.get(
                "comment"@,
            ).text() && r.kind == match raw.get("type"@).text() {
                Some(kind) => kind,
                None => "other"@,
            },
            None => raw.get("url"@).text() is None,
        },
        match dependency_in(raw) {
            Some(d) => Some(d.bom_ref) == raw.get("ref"@).text() && d.depends_on == raw.get(
                "dependsOn"@,
            ).texts(),
            None => raw.get("ref"@).text() is None,
        },
        match tool_in(raw) {
            Some(t) => Some(t.name) == raw.get("name"@).text() && t.version == raw.get(
                "version"@,
            ).text() && t.vendor == match raw.get("vendor"@).text() {
                Some(vendor) => Some(vendor),
                None => raw.get("author"@).text(),
            },
            None => raw.get("name"@).text() is None,
        },
{
}

/// A component stands before those nested in it, and each of those is listed.
pub proof fn nested_components_are_listed(json: JsonView, i: int, j: int)
    requires
        flattened(json) is Some,
        0 <= i < children(json).len(),
        flattened(children(json)[i]) is Some,
        0 <= j < flattened(children(json)[i])->0.len(),
    ensures
        ({
            let all = flattened(json)->0;
            &&& decoded(json, component_shape()) is Some
            &&& all.len() > 0
            &&& all[0] == component_of(decoded(json, component_shape())->0)
            &&& all.contains(flattened(children(json)[i])->0[j])
        }),
{
    let items = children(json);
    let list = flattened_list(items, items.len());
    assert(list is Some);
    lists_hold_their_trees(items, items.len(), i, j);
    let c = flattened(items[i])->0[j];
    let all = flattened(json)->0;
    let k = choose|k: int| 0 <= k < list->0.len() && list->0[k] == c;
    assert(all[k + 1] == c);
}

proof fn lists_hold_their_trees(items: Seq<JsonView>, n: nat, i: int, j: int)
    requires
        n <= items.len(),
        0 <= i < n,
        flattened_list(items, n) is Some,
        flattened(items[i]) is Some,
        0 <= j < flattened(items[i])->0.len(),
    ensures
        flattened_list(items, n)->0.contains(flattened(items[i])->0[j]),
    decreases n,
{
    let head = flattened_list(items, (n - 1) as nat);
    let tree = flattened(items[n - 1]);
    let c = flattened(items[i])->0[j];
    let all = flattened_list(items, n)->0;
    assert(head is Some && tree is Some);
    if i == n - 1 {
        assert(all[head->0.len() + j] == c);
    } else {
        lists_hold_their_trees(items, (n - 1) as nat, i, j);
        let k = choose|k: int| 0 <= k < head->0.len() && head->0[k] == c;
        assert(all[k] == c);
    }
}

/// A document has the identity, version and time that it states, the tools it
/// names, and the subject and components it was made of.
pub proof fn documents_have_their_fields(
    bom: JsonView,
    version: Seq<char>,
    tree: Seq<ComponentView>,
    listed: Seq<ComponentView>,
)
    ensures
        ({
            let doc = read_document(bom, version, tree, listed);
            &&& (doc.spec matches Some(origin) && origin.version == version)
            &&& doc.document_id == bom.get("serialNumber"@).text()
            &&& doc.version == bom.get("version"@).number_u32()
            &&& doc.timestamp == bom.get("metadata"@).get("timestamp"@).text()
            &&& tree.len() > 0 ==> doc.subject == Some(tree[0]) && doc.components.len()
                == tree.len() - 1 + listed.len()
            &&& tree.len() == 0 ==> doc.subject is None && doc.components.len() == listed.len()
        }),
{
    let components = subject_parts(tree) + listed;
    sorted_props::<Component>(components);
}

/// A document keeps its identity as a serial number exactly where that is one, and
/// is written in the version that was asked for, or in its own, or in the one that
/// is usual.
pub proof fn documents_keep_their_version(doc: SbomDocView, ctx: CtxView)
    ensures
        match serial_of(doc) {
            Some(serial) => doc.document_id == Some(serial) && urn_uuid(serial),
            None => doc.document_id matches Some(id) ==> !urn_uuid(id),
        },
        ctx.version_requested ==> (ctx.version matches Some(version) ==> target_of(doc, ctx)
            == version),
        !ctx.version_requested ==> (doc.spec matches Some(origin) ==> origin.family
            == FAMILY@ ==> target_of(doc, ctx) == origin.version),
{
}

/// A version that was asked for and has no JSON form is refused: there is none
/// before 1.2.
pub proof fn old_versions_are_refused(doc: SbomDocView, ctx: CtxView)
    ensures
        match (written(DocView::Sbom(doc), ctx).0, ctx.version) {
            (Err(_), Some(version)) => ctx.version_requested && !at_least(version, "1.2"@),
            (Ok(_), Some(version)) => !ctx.version_requested || at_least(version, "1.2"@),
            (Ok(_), None) => true,
            (Err(_), None) => false,
        },
{
}

/// A name that is free is taken as it is; one that is taken gets a number behind
/// it, from two on.
pub proof fn taken_names_are_numbered(base: Seq<char>, n: nat)
    ensures
        candidate(base, 1) == base,
        n >= 2 ==> candidate(base, n) == base + "-"@ + decimal(n),
{
}

} // verus!
