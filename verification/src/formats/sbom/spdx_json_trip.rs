//! The round trip of a bill of materials through SPDX 2: what reading gives back
//! of what was written.

use vstd::prelude::*;

use crate::error::ErrorView;
use crate::formats::sbom::identifiers::IdentifiersView;
use crate::formats::sbom::spdx_json::{
    actor_of, all_components, annotated, checksum_hash, checksum_item, checksum_shape, component_at,
    cpe_in, created_of, creation_shape, dashless, declared_license, described_by, describes_items,
    document_item, document_shape, edge_item, edge_items, edges_of, external_ref, graph_of,
    has_notes, if_usable, is_other, last_text, license_list, names_of, other_in, package_component,
    package_item, package_shape, prefixed, purl_in, purpose_of_kind, purposes_read_back,
    read_document, read_spec, reference_shape, relation_item, relationship_shape, stated, target_of,
    title_of, tool_in, tool_of, with_edges, written, DOCUMENT_ID, FAMILY, NOASSERTION, WRITER,
};
use crate::hash::fingerprint_of;
use crate::json::{
    decoded, default_of, field, list_of, maybe, members, text_field, text_items, texts_of, Fields,
    JsonView, MembersView, Shape,
};
use crate::json_echo::{
    distinct_names, filled, list_json, lists_decode, record_holds, shape_of, slot, slot_of_opt,
    slot_of_value, slot_props, text_json, texts_decode, written_records_read,
};
use crate::model::sbom::{
    sort_doc, ComponentKind, ComponentView, DependencyView, ExternalReferenceView, HashView,
    SbomDocView, SpecOriginView,
};
use crate::registry::DocView;
use crate::text::starts_with;
use crate::value::{count_in, filter_mapped, or_text};
use crate::warn::CtxView;

verus! {

// ---------------------------------------------------------------------------
// What is kept
// ---------------------------------------------------------------------------

/// A component as its package tells it, under its new name.
pub open spec fn kept_component(
    component: ComponentView,
    id: Seq<char>,
    target: Seq<char>,
) -> ComponentView {
    ComponentView {
        bom_ref: Some(id),
        kind: if target != "SPDX-2.2"@ && purpose_of_kind(component.kind) is Some {
            component.kind
        } else {
            ComponentKind::Library
        },
        version: component.version,
        purl: component.purl,
        cpe: component.cpe,
        description: stated(component.description),
        author: actor_of(prefixed("Person: "@, component.author)),
        supplier: actor_of(prefixed("Organization: "@, component.supplier)),
        copyright: if_usable(component.copyright),
        licenses: license_list(if_usable(declared_license(component))),
        hashes: component.hashes.map_values(
            |h: HashView| HashView::of(dashless(h.algorithm), h.value),
        ),
        ..ComponentView::of(component.name)
    }
}

/// The edges of one element to targets that the document lists.
pub open spec fn kept_edges(
    before: Seq<DependencyView>,
    ids: IdentifiersView,
    from: Seq<char>,
    targets: Seq<Seq<char>>,
) -> Seq<DependencyView>
    decreases targets.len(),
{
    if targets.len() == 0 {
        before
    } else {
        let most = kept_edges(before, ids, from, targets.drop_last());
        match ids.name_of(targets.last()) {
            Some(to) => with_edges(most, from, seq![to]),
            None => most,
        }
    }
}

/// The edges between packages that the document lists, by their new names.
pub open spec fn kept_dependencies(
    dependencies: Seq<DependencyView>,
    ids: IdentifiersView,
) -> Seq<DependencyView>
    decreases dependencies.len(),
{
    if dependencies.len() == 0 {
        Seq::empty()
    } else {
        let before = kept_dependencies(dependencies.drop_last(), ids);
        match ids.name_of(dependencies.last().bom_ref) {
            Some(from) => kept_edges(before, ids, from, dependencies.last().depends_on),
            None => before,
        }
    }
}

/// The namespace that a document is written under.
pub open spec fn namespace_of(doc: SbomDocView) -> Seq<char> {
    or_text(
        doc.document_id,
        "https://spdx.org/spdxdocs/"@ + title_of(doc, "SBOM"@) + "-"@ + fingerprint_of(
            seq![title_of(doc, "SBOM"@), created_of(doc)],
        ),
    )
}

/// What is kept of a document. Its tool is the writer.
pub open spec fn kept_doc(doc: SbomDocView, target: Seq<char>) -> SbomDocView {
    let ids = names_of(doc);
    let keep = |c: ComponentView| kept_component(c, ids.label_of(c), target);
    SbomDocView {
        spec: Some(SpecOriginView { family: FAMILY@, version: target }),
        document_id: Some(namespace_of(doc)),
        timestamp: Some(created_of(doc)),
        tools: match tool_of("Tool: "@ + WRITER@) {
            Some(tool) => seq![tool],
            None => Seq::empty(),
        },
        subject: match doc.subject {
            Some(subject) => Some(keep(subject)),
            None => None,
        },
        components: doc.components.map_values(keep),
        dependencies: kept_dependencies(doc.dependencies, ids),
        ..SbomDocView::empty()
    }
}

// ---------------------------------------------------------------------------
// Parts of a package
// ---------------------------------------------------------------------------

proof fn checksum_keys()
    ensures
        "algorithm"@.len() == 9 && "algorithm"@[0] == 'a',
        "checksumValue"@.len() == 13 && "checksumValue"@[0] == 'c',
{
    reveal_strlit("algorithm");
    reveal_strlit("checksumValue");
}

spec fn checksum_fields() -> Fields {
    text_field("algorithm", text_field("checksumValue", Fields::End))
}

proof fn checksum_shapes()
    ensures
        checksum_shape() == Shape::Record(checksum_fields()),
        shape_of(checksum_fields(), "algorithm"@) == Some(maybe(Shape::Text)),
        shape_of(checksum_fields(), "checksumValue"@) == Some(maybe(Shape::Text)),
{
    checksum_keys();
    reveal_with_fuel(shape_of, 3);
}

proof fn checksum_names_differ()
    ensures
        distinct_names(checksum_fields()),
{
    checksum_keys();
    reveal_with_fuel(shape_of, 3);
    reveal_with_fuel(distinct_names, 3);
}

spec fn checksum_entry(hash: HashView, key: Seq<char>) -> Option<JsonView> {
    if key == "algorithm"@ {
        Some(JsonView::Text(dashless(hash.algorithm)))
    } else if key == "checksumValue"@ {
        Some(JsonView::Text(hash.value))
    } else {
        None
    }
}

spec fn checksum_members(hash: HashView) -> MembersView {
    members()
        .value("algorithm"@, JsonView::Text(dashless(hash.algorithm)))
        .value("checksumValue"@, JsonView::Text(hash.value))
}

proof fn checksum_slot(hash: HashView, key: Seq<char>)
    ensures
        slot(checksum_members(hash).list, key) == filled(checksum_entry(hash, key)),
{
    checksum_keys();
    let m0 = members();
    let v0 = JsonView::Text(dashless(hash.algorithm));
    let m1 = m0.value("algorithm"@, v0);
    slot_of_value(m0, "algorithm"@, v0, key);
    let v1 = JsonView::Text(hash.value);
    slot_of_value(m1, "checksumValue"@, v1, key);
}

proof fn checksum_reads(hash: HashView)
    ensures
        record_holds(
            checksum_item(hash),
            checksum_fields(),
            |key: Seq<char>| checksum_entry(hash, key),
        ),
{
    let entry = |key: Seq<char>| checksum_entry(hash, key);
    let m = checksum_members(hash);
    assert(checksum_item(hash) == m.done());
    checksum_shapes();
    checksum_names_differ();
    reveal_with_fuel(decoded, 2);
    assert forall|key: Seq<char>| slot(m.list, key) == filled(#[trigger] entry(key)) by {
        checksum_slot(hash, key);
    }
    written_records_read(m, checksum_fields(), entry);
}

spec fn reference_json(category: Seq<char>, kind: Seq<char>, locator: Seq<char>) -> JsonView {
    members().text("referenceCategory"@, category).text("referenceType"@, kind).text(
        "referenceLocator"@,
        locator,
    ).done()
}

proof fn reference_keys()
    ensures
        "referenceCategory"@.len() == 17 && "referenceCategory"@[0] == 'r',
        "referenceType"@.len() == 13 && "referenceType"@[0] == 'r',
        "referenceLocator"@.len() == 16 && "referenceLocator"@[0] == 'r',
{
    reveal_strlit("referenceCategory");
    reveal_strlit("referenceType");
    reveal_strlit("referenceLocator");
}

spec fn reference_fields() -> Fields {
    text_field(
        "referenceCategory",
        text_field("referenceType", text_field("referenceLocator", Fields::End)),
    )
}

proof fn reference_shapes()
    ensures
        reference_shape() == Shape::Record(reference_fields()),
        shape_of(reference_fields(), "referenceCategory"@) == Some(maybe(Shape::Text)),
        shape_of(reference_fields(), "referenceType"@) == Some(maybe(Shape::Text)),
        shape_of(reference_fields(), "referenceLocator"@) == Some(maybe(Shape::Text)),
{
    reference_keys();
    reveal_with_fuel(shape_of, 4);
}

proof fn reference_names_differ()
    ensures
        distinct_names(reference_fields()),
{
    reference_keys();
    reveal_with_fuel(shape_of, 4);
    reveal_with_fuel(distinct_names, 4);
}

spec fn reference_entry(
    category: Seq<char>,
    kind: Seq<char>,
    locator: Seq<char>,
    key: Seq<char>,
) -> Option<JsonView> {
    if key == "referenceCategory"@ {
        Some(JsonView::Text(category))
    } else if key == "referenceType"@ {
        Some(JsonView::Text(kind))
    } else if key == "referenceLocator"@ {
        Some(JsonView::Text(locator))
    } else {
        None
    }
}

spec fn reference_members(category: Seq<char>, kind: Seq<char>, locator: Seq<char>) -> MembersView {
    members()
        .value("referenceCategory"@, JsonView::Text(category))
        .value("referenceType"@, JsonView::Text(kind))
        .value("referenceLocator"@, JsonView::Text(locator))
}

proof fn reference_slot(category: Seq<char>, kind: Seq<char>, locator: Seq<char>, key: Seq<char>)
    ensures
        slot(reference_members(category, kind, locator).list, key) == filled(
            reference_entry(category, kind, locator, key),
        ),
{
    reference_keys();
    let m0 = members();
    let v0 = JsonView::Text(category);
    let m1 = m0.value("referenceCategory"@, v0);
    slot_of_value(m0, "referenceCategory"@, v0, key);
    let v1 = JsonView::Text(kind);
    let m2 = m1.value("referenceType"@, v1);
    slot_of_value(m1, "referenceType"@, v1, key);
    let v2 = JsonView::Text(locator);
    slot_of_value(m2, "referenceLocator"@, v2, key);
}

proof fn reference_reads(category: Seq<char>, kind: Seq<char>, locator: Seq<char>)
    ensures
        record_holds(
            reference_json(category, kind, locator),
            reference_fields(),
            |key: Seq<char>| reference_entry(category, kind, locator, key),
        ),
{
    let entry = |key: Seq<char>| reference_entry(category, kind, locator, key);
    let m = reference_members(category, kind, locator);
    assert(reference_json(category, kind, locator) == m.done());
    reference_shapes();
    reference_names_differ();
    reveal_with_fuel(decoded, 2);
    assert forall|key: Seq<char>| slot(m.list, key) == filled(#[trigger] entry(key)) by {
        reference_slot(category, kind, locator, key);
    }
    written_records_read(m, reference_fields(), entry);
}

proof fn relation_keys()
    ensures
        "spdxElementId"@.len() == 13 && "spdxElementId"@[0] == 's',
        "relatedSpdxElement"@.len() == 18 && "relatedSpdxElement"@[0] == 'r',
        "relationshipType"@.len() == 16 && "relationshipType"@[0] == 'r',
{
    reveal_strlit("spdxElementId");
    reveal_strlit("relatedSpdxElement");
    reveal_strlit("relationshipType");
}

spec fn relation_fields() -> Fields {
    text_field(
        "spdxElementId",
        text_field("relatedSpdxElement", text_field("relationshipType", Fields::End)),
    )
}

proof fn relation_shapes()
    ensures
        relationship_shape() == Shape::Record(relation_fields()),
        shape_of(relation_fields(), "spdxElementId"@) == Some(maybe(Shape::Text)),
        shape_of(relation_fields(), "relatedSpdxElement"@) == Some(maybe(Shape::Text)),
        shape_of(relation_fields(), "relationshipType"@) == Some(maybe(Shape::Text)),
{
    relation_keys();
    reveal_with_fuel(shape_of, 4);
}

proof fn relation_names_differ()
    ensures
        distinct_names(relation_fields()),
{
    relation_keys();
    reveal_with_fuel(shape_of, 4);
    reveal_with_fuel(distinct_names, 4);
}

spec fn relation_entry(
    from: Seq<char>,
    to: Seq<char>,
    kind: Seq<char>,
    key: Seq<char>,
) -> Option<JsonView> {
    if key == "spdxElementId"@ {
        Some(JsonView::Text(from))
    } else if key == "relatedSpdxElement"@ {
        Some(JsonView::Text(to))
    } else if key == "relationshipType"@ {
        Some(JsonView::Text(kind))
    } else {
        None
    }
}

spec fn relation_members(from: Seq<char>, to: Seq<char>, kind: Seq<char>) -> MembersView {
    members()
        .value("spdxElementId"@, JsonView::Text(from))
        .value("relatedSpdxElement"@, JsonView::Text(to))
        .value("relationshipType"@, JsonView::Text(kind))
}

proof fn relation_slot(from: Seq<char>, to: Seq<char>, kind: Seq<char>, key: Seq<char>)
    ensures
        slot(relation_members(from, to, kind).list, key) == filled(
            relation_entry(from, to, kind, key),
        ),
{
    relation_keys();
    let m0 = members();
    let v0 = JsonView::Text(from);
    let m1 = m0.value("spdxElementId"@, v0);
    slot_of_value(m0, "spdxElementId"@, v0, key);
    let v1 = JsonView::Text(to);
    let m2 = m1.value("relatedSpdxElement"@, v1);
    slot_of_value(m1, "relatedSpdxElement"@, v1, key);
    let v2 = JsonView::Text(kind);
    slot_of_value(m2, "relationshipType"@, v2, key);
}

proof fn relation_reads(from: Seq<char>, to: Seq<char>, kind: Seq<char>)
    ensures
        record_holds(
            relation_item(from, to, kind),
            relation_fields(),
            |key: Seq<char>| relation_entry(from, to, kind, key),
        ),
{
    let entry = |key: Seq<char>| relation_entry(from, to, kind, key);
    let m = relation_members(from, to, kind);
    assert(relation_item(from, to, kind) == m.done());
    relation_shapes();
    relation_names_differ();
    reveal_with_fuel(decoded, 2);
    assert forall|key: Seq<char>| slot(m.list, key) == filled(#[trigger] entry(key)) by {
        relation_slot(from, to, kind, key);
    }
    written_records_read(m, relation_fields(), entry);
}

spec fn creators() -> Seq<Seq<char>> {
    seq!["Tool: "@ + WRITER@]
}

spec fn creation_json(created: Seq<char>) -> JsonView {
    members().text("created"@, created).list("creators"@, text_items(creators())).done()
}

proof fn creation_keys()
    ensures
        "created"@.len() == 7 && "created"@[0] == 'c',
        "creators"@.len() == 8 && "creators"@[0] == 'c',
{
    reveal_strlit("created");
    reveal_strlit("creators");
}

spec fn creation_fields() -> Fields {
    text_field("created", field("creators", list_of(Shape::Text), Fields::End))
}

proof fn creation_shapes()
    ensures
        creation_shape() == Shape::Record(creation_fields()),
        shape_of(creation_fields(), "created"@) == Some(maybe(Shape::Text)),
        shape_of(creation_fields(), "creators"@) == Some(list_of(Shape::Text)),
{
    creation_keys();
    reveal_with_fuel(shape_of, 3);
}

proof fn creation_names_differ()
    ensures
        distinct_names(creation_fields()),
{
    creation_keys();
    reveal_with_fuel(shape_of, 3);
    reveal_with_fuel(distinct_names, 3);
}

spec fn creation_entry(created: Seq<char>, key: Seq<char>) -> Option<JsonView> {
    if key == "created"@ {
        Some(JsonView::Text(created))
    } else if key == "creators"@ {
        Some(JsonView::Array(text_items(creators())))
    } else {
        None
    }
}

spec fn creation_members(created: Seq<char>) -> MembersView {
    members()
        .value("created"@, JsonView::Text(created))
        .value("creators"@, JsonView::Array(text_items(creators())))
}

proof fn creation_slot(created: Seq<char>, key: Seq<char>)
    ensures
        slot(creation_members(created).list, key) == filled(creation_entry(created, key)),
{
    creation_keys();
    let m0 = members();
    let v0 = JsonView::Text(created);
    let m1 = m0.value("created"@, v0);
    slot_of_value(m0, "created"@, v0, key);
    let v1 = JsonView::Array(text_items(creators()));
    slot_of_value(m1, "creators"@, v1, key);
}

proof fn creation_reads(created: Seq<char>)
    ensures
        record_holds(
            creation_json(created),
            creation_fields(),
            |key: Seq<char>| creation_entry(created, key),
        ),
{
    let entry = |key: Seq<char>| creation_entry(created, key);
    let m = creation_members(created);
    assert(creation_json(created) == m.done());
    creation_shapes();
    creation_names_differ();
    texts_decode(creators());
    reveal_with_fuel(decoded, 2);
    assert forall|key: Seq<char>| slot(m.list, key) == filled(#[trigger] entry(key)) by {
        creation_slot(created, key);
    }
    written_records_read(m, creation_fields(), entry);
}

proof fn checksum_is(hash: HashView)
    ensures
        decoded(checksum_item(hash), checksum_shape()) is Some,
        checksum_hash(decoded(checksum_item(hash), checksum_shape())->0) == Some(
            HashView::of(dashless(hash.algorithm), hash.value),
        ),
{
    checksum_reads(hash);
    checksum_shapes();
    checksum_keys();
    reveal_with_fuel(decoded, 2);
    let r = decoded(checksum_item(hash), checksum_shape())->0;
    assert(r.get("algorithm"@) == r.get("algorithm"@));
    assert(r.get("checksumValue"@) == r.get("checksumValue"@));
}

proof fn reference_is(category: Seq<char>, kind: Seq<char>, locator: Seq<char>)
    ensures
        ({
            let item = reference_json(category, kind, locator);
            let r = decoded(item, reference_shape());
            &&& r is Some
            &&& r->0.get("referenceType"@).text() == Some(kind)
            &&& r->0.get("referenceLocator"@).text() == Some(locator)
        }),
{
    reference_reads(category, kind, locator);
    reference_shapes();
    reference_keys();
    reveal_with_fuel(decoded, 2);
    let r = decoded(reference_json(category, kind, locator), reference_shape())->0;
    assert(r.get("referenceType"@) == r.get("referenceType"@));
    assert(r.get("referenceLocator"@) == r.get("referenceLocator"@));
}

proof fn relation_is(from: Seq<char>, to: Seq<char>, kind: Seq<char>)
    ensures
        ({
            let r = decoded(relation_item(from, to, kind), relationship_shape());
            &&& r is Some
            &&& r->0.get("spdxElementId"@).text() == Some(from)
            &&& r->0.get("relatedSpdxElement"@).text() == Some(to)
            &&& r->0.get("relationshipType"@).text() == Some(kind)
        }),
{
    relation_reads(from, to, kind);
    relation_shapes();
    relation_keys();
    reveal_with_fuel(decoded, 2);
    let r = decoded(relation_item(from, to, kind), relationship_shape())->0;
    assert(r.get("spdxElementId"@) == r.get("spdxElementId"@));
    assert(r.get("relatedSpdxElement"@) == r.get("relatedSpdxElement"@));
    assert(r.get("relationshipType"@) == r.get("relationshipType"@));
}

proof fn creation_is(created: Seq<char>)
    ensures
        ({
            let r = decoded(creation_json(created), creation_shape());
            &&& r is Some
            &&& r->0 is Object
            &&& r->0.get("created"@).text() == Some(created)
            &&& r->0.get("creators"@).items() == text_items(creators())
        }),
{
    creation_reads(created);
    creation_shapes();
    creation_keys();
    texts_decode(creators());
    reveal_with_fuel(decoded, 2);
    let r = decoded(creation_json(created), creation_shape())->0;
    assert(r.get("created"@) == r.get("created"@));
    assert(r.get("creators"@) == r.get("creators"@));
}

spec fn checksum_items(component: ComponentView) -> Seq<JsonView> {
    component.hashes.map_values(|h: HashView| checksum_item(h))
}

proof fn checksums_read(hashes: Seq<HashView>)
    ensures
        ({
            let items = hashes.map_values(|h: HashView| checksum_item(h));
            let r = decoded(JsonView::Array(items), Shape::List(Box::new(checksum_shape())));
            &&& r is Some
            &&& r->0 is Array
            &&& filter_mapped(r->0.items(), |checksum: JsonView| checksum_hash(checksum))
                == hashes.map_values(|h: HashView| HashView::of(dashless(h.algorithm), h.value))
        }),
{
    let items = hashes.map_values(|h: HashView| checksum_item(h));
    assert forall|i: int| 0 <= i < items.len() implies decoded(
        #[trigger] items[i],
        checksum_shape(),
    ) is Some by {
        checksum_is(hashes[i]);
    }
    lists_decode(items, checksum_shape());
    hashes_are_kept(hashes);
}

proof fn hashes_are_kept(hashes: Seq<HashView>)
    ensures
        filter_mapped(
            hashes.map_values(|h: HashView| checksum_item(h)).map_values(
                |item: JsonView| decoded(item, checksum_shape())->0,
            ),
            |checksum: JsonView| checksum_hash(checksum),
        ) == hashes.map_values(|h: HashView| HashView::of(dashless(h.algorithm), h.value)),
    decreases hashes.len(),
{
    let write = |h: HashView| checksum_item(h);
    let decode = |item: JsonView| decoded(item, checksum_shape())->0;
    let back = |checksum: JsonView| checksum_hash(checksum);
    let keep = |h: HashView| HashView::of(dashless(h.algorithm), h.value);
    let read = hashes.map_values(write).map_values(decode);
    if hashes.len() == 0 {
        assert(read =~= Seq::empty());
        assert(hashes.map_values(keep) =~= Seq::empty());
    } else {
        let head = hashes.drop_last();
        hashes_are_kept(head);
        checksum_is(hashes.last());
        assert(read.drop_last() =~= head.map_values(write).map_values(decode));
        assert(head.map_values(keep).push(keep(hashes.last())) =~= hashes.map_values(keep));
    }
}

spec fn reference_items(component: ComponentView) -> Seq<JsonView> {
    external_ref("PACKAGE-MANAGER"@, "purl"@, component.purl) + external_ref(
        "SECURITY"@,
        "cpe23Type"@,
        component.cpe,
    )
}

proof fn references_read(component: ComponentView)
    ensures
        ({
            let r = decoded(
                JsonView::Array(reference_items(component)),
                Shape::List(Box::new(reference_shape())),
            );
            &&& r is Some
            &&& r->0 is Array
            &&& last_text(filter_mapped(r->0.items(), |r: JsonView| purl_in(r)))
                == component.purl
            &&& last_text(filter_mapped(r->0.items(), |r: JsonView| cpe_in(r))) == component.cpe
            &&& filter_mapped(r->0.items(), |r: JsonView| other_in(r))
                == Seq::<ExternalReferenceView>::empty()
        }),
{
    reveal_strlit("purl");
    reveal_strlit("cpe23Type");
    reveal_strlit("cpe");
    assert("purl"@.len() == 4 && "cpe23Type"@.len() == 9);
    assert("cpe23Type"@.take(3) =~= "cpe"@);
    let items = reference_items(component);
    let one = |r: JsonView| purl_in(r);
    let two = |r: JsonView| cpe_in(r);
    let three = |r: JsonView| other_in(r);
    let decode = |item: JsonView| decoded(item, reference_shape())->0;
    let a = match component.purl {
        Some(locator) => {
            reference_is("PACKAGE-MANAGER"@, "purl"@, locator);
            seq![reference_json("PACKAGE-MANAGER"@, "purl"@, locator)]
        },
        None => Seq::empty(),
    };
    let b = match component.cpe {
        Some(locator) => {
            reference_is("SECURITY"@, "cpe23Type"@, locator);
            seq![reference_json("SECURITY"@, "cpe23Type"@, locator)]
        },
        None => Seq::empty(),
    };
    assert(items =~= a + b);
    assert forall|i: int| 0 <= i < items.len() implies decoded(
        #[trigger] items[i],
        reference_shape(),
    ) is Some by {
        if i < a.len() {
            assert(items[i] == a[0]);
        } else {
            assert(items[i] == b[0]);
        }
    }
    lists_decode(items, reference_shape());
    let read = items.map_values(decode);
    let none = Seq::<JsonView>::empty();
    let first = a.map_values(decode);
    assert(filter_mapped(none, one) =~= Seq::empty());
    assert(filter_mapped(none, two) =~= Seq::empty());
    assert(filter_mapped(none, three) =~= Seq::empty());
    if a.len() == 1 {
        assert(first.drop_last() =~= none);
        assert(filter_mapped(first, one) == seq![component.purl->0]);
        assert(filter_mapped(first, two) =~= Seq::empty());
        assert(filter_mapped(first, three) =~= Seq::empty());
    } else {
        assert(first =~= none);
    }
    if b.len() == 1 {
        assert(read.drop_last() =~= first);
        assert(read.last() == decode(b[0]));
    } else {
        assert(read =~= first);
    }
}

// ---------------------------------------------------------------------------
// Packages
// ---------------------------------------------------------------------------

proof fn package_keys()
    ensures
        "SPDXID"@.len() == 6 && "SPDXID"@[0] == 'S',
        "name"@.len() == 4 && "name"@[0] == 'n',
        "versionInfo"@.len() == 11 && "versionInfo"@[0] == 'v',
        "description"@.len() == 11 && "description"@[0] == 'd',
        "summary"@.len() == 7 && "summary"@[0] == 's',
        "supplier"@.len() == 8 && "supplier"@[0] == 's',
        "originator"@.len() == 10 && "originator"@[0] == 'o',
        "copyrightText"@.len() == 13 && "copyrightText"@[0] == 'c',
        "licenseDeclared"@.len() == 15 && "licenseDeclared"@[0] == 'l',
        "licenseConcluded"@.len() == 16 && "licenseConcluded"@[0] == 'l',
        "checksums"@.len() == 9 && "checksums"@[0] == 'c',
        "externalRefs"@.len() == 12 && "externalRefs"@[0] == 'e',
        "primaryPackagePurpose"@.len() == 21 && "primaryPackagePurpose"@[0] == 'p',
        "downloadLocation"@.len() == 16 && "downloadLocation"@[0] == 'd',
        "homepage"@.len() == 8 && "homepage"@[0] == 'h',
        "filesAnalyzed"@.len() == 13 && "filesAnalyzed"@[0] == 'f',
{
    reveal_strlit("SPDXID");
    reveal_strlit("name");
    reveal_strlit("versionInfo");
    reveal_strlit("description");
    reveal_strlit("summary");
    reveal_strlit("supplier");
    reveal_strlit("originator");
    reveal_strlit("copyrightText");
    reveal_strlit("licenseDeclared");
    reveal_strlit("licenseConcluded");
    reveal_strlit("checksums");
    reveal_strlit("externalRefs");
    reveal_strlit("primaryPackagePurpose");
    reveal_strlit("downloadLocation");
    reveal_strlit("homepage");
    reveal_strlit("filesAnalyzed");
}

spec fn package_fields() -> Fields {
    text_field(
        "SPDXID",
        text_field(
            "name",
            text_field(
                "versionInfo",
                text_field(
                    "description",
                    text_field(
                        "summary",
                        text_field(
                            "supplier",
                            text_field(
                                "originator",
                                text_field(
                                    "copyrightText",
                                    text_field(
                                        "licenseDeclared",
                                        text_field(
                                            "licenseConcluded",
                                            field(
                                                "checksums",
                                                list_of(checksum_shape()),
                                                field(
                                                    "externalRefs",
                                                    list_of(reference_shape()),
                                                    text_field(
                                                        "primaryPackagePurpose",
                                                        text_field(
                                                            "downloadLocation",
                                                            text_field("homepage", Fields::End),
                                                        ),
                                                    ),
                                                ),
                                            ),
                                        ),
                                    ),
                                ),
                            ),
                        ),
                    ),
                ),
            ),
        ),
    )
}

proof fn package_shapes()
    ensures
        package_shape() == Shape::Record(package_fields()),
        shape_of(package_fields(), "SPDXID"@) == Some(maybe(Shape::Text)),
        shape_of(package_fields(), "name"@) == Some(maybe(Shape::Text)),
        shape_of(package_fields(), "versionInfo"@) == Some(maybe(Shape::Text)),
        shape_of(package_fields(), "description"@) == Some(maybe(Shape::Text)),
        shape_of(package_fields(), "summary"@) == Some(maybe(Shape::Text)),
        shape_of(package_fields(), "supplier"@) == Some(maybe(Shape::Text)),
        shape_of(package_fields(), "originator"@) == Some(maybe(Shape::Text)),
        shape_of(package_fields(), "copyrightText"@) == Some(maybe(Shape::Text)),
        shape_of(package_fields(), "licenseDeclared"@) == Some(maybe(Shape::Text)),
        shape_of(package_fields(), "licenseConcluded"@) == Some(maybe(Shape::Text)),
        shape_of(package_fields(), "checksums"@) == Some(list_of(checksum_shape())),
        shape_of(package_fields(), "externalRefs"@) == Some(list_of(reference_shape())),
        shape_of(package_fields(), "primaryPackagePurpose"@) == Some(maybe(Shape::Text)),
        shape_of(package_fields(), "downloadLocation"@) == Some(maybe(Shape::Text)),
        shape_of(package_fields(), "homepage"@) == Some(maybe(Shape::Text)),
        shape_of(package_fields(), "filesAnalyzed"@) is None,
{
    package_keys();
    reveal_with_fuel(shape_of, 16);
}

proof fn package_names_differ()
    ensures
        distinct_names(package_fields()),
{
    package_keys();
    reveal_with_fuel(shape_of, 16);
    reveal_with_fuel(distinct_names, 16);
}

spec fn purpose_text(component: ComponentView, target: Seq<char>) -> Option<Seq<char>> {
    if target == "SPDX-2.2"@ {
        None
    } else {
        purpose_of_kind(component.kind)
    }
}

spec fn package_entry(
    component: ComponentView,
    id: Seq<char>,
    target: Seq<char>,
    key: Seq<char>,
) -> Option<JsonView> {
    if key == "SPDXID"@ {
        Some(JsonView::Text(id))
    } else if key == "name"@ {
        Some(JsonView::Text(component.name))
    } else if key == "versionInfo"@ {
        text_json(component.version)
    } else if key == "downloadLocation"@ {
        Some(JsonView::Text(NOASSERTION@))
    } else if key == "filesAnalyzed"@ {
        Some(JsonView::Bool(false))
    } else if key == "licenseConcluded"@ {
        Some(JsonView::Text(NOASSERTION@))
    } else if key == "licenseDeclared"@ {
        Some(JsonView::Text(or_text(declared_license(component), NOASSERTION@)))
    } else if key == "copyrightText"@ {
        Some(JsonView::Text(or_text(component.copyright, NOASSERTION@)))
    } else if key == "description"@ {
        text_json(component.description)
    } else if key == "supplier"@ {
        text_json(prefixed("Organization: "@, component.supplier))
    } else if key == "originator"@ {
        text_json(prefixed("Person: "@, component.author))
    } else if key == "primaryPackagePurpose"@ {
        text_json(purpose_text(component, target))
    } else if key == "checksums"@ {
        list_json(checksum_items(component))
    } else if key == "externalRefs"@ {
        list_json(reference_items(component))
    } else {
        None
    }
}

spec fn package_members(component: ComponentView, id: Seq<char>, target: Seq<char>) -> MembersView {
    members()
        .value("SPDXID"@, JsonView::Text(id))
        .value("name"@, JsonView::Text(component.name))
        .opt_value("versionInfo"@, text_json(component.version))
        .value("downloadLocation"@, JsonView::Text(NOASSERTION@))
        .value("filesAnalyzed"@, JsonView::Bool(false))
        .value("licenseConcluded"@, JsonView::Text(NOASSERTION@))
        .value(
            "licenseDeclared"@,
            JsonView::Text(or_text(declared_license(component), NOASSERTION@)),
        )
        .value("copyrightText"@, JsonView::Text(or_text(component.copyright, NOASSERTION@)))
        .opt_value("description"@, text_json(component.description))
        .opt_value("supplier"@, text_json(prefixed("Organization: "@, component.supplier)))
        .opt_value("originator"@, text_json(prefixed("Person: "@, component.author)))
        .opt_value("primaryPackagePurpose"@, text_json(purpose_text(component, target)))
        .opt_value("checksums"@, list_json(checksum_items(component)))
        .opt_value("externalRefs"@, list_json(reference_items(component)))
}

proof fn package_slot(component: ComponentView, id: Seq<char>, target: Seq<char>, key: Seq<char>)
    ensures
        slot(package_members(component, id, target).list, key) == filled(
            package_entry(component, id, target, key),
        ),
{
    package_keys();
    let m0 = members();
    let v0 = JsonView::Text(id);
    let m1 = m0.value("SPDXID"@, v0);
    slot_of_value(m0, "SPDXID"@, v0, key);
    let v1 = JsonView::Text(component.name);
    let m2 = m1.value("name"@, v1);
    slot_of_value(m1, "name"@, v1, key);
    let v2 = text_json(component.version);
    let m3 = m2.opt_value("versionInfo"@, v2);
    slot_of_opt(m2, "versionInfo"@, v2, key);
    let v3 = JsonView::Text(NOASSERTION@);
    let m4 = m3.value("downloadLocation"@, v3);
    slot_of_value(m3, "downloadLocation"@, v3, key);
    let v4 = JsonView::Bool(false);
    let m5 = m4.value("filesAnalyzed"@, v4);
    slot_of_value(m4, "filesAnalyzed"@, v4, key);
    let v5 = JsonView::Text(NOASSERTION@);
    let m6 = m5.value("licenseConcluded"@, v5);
    slot_of_value(m5, "licenseConcluded"@, v5, key);
    let v6 = JsonView::Text(or_text(declared_license(component), NOASSERTION@));
    let m7 = m6.value("licenseDeclared"@, v6);
    slot_of_value(m6, "licenseDeclared"@, v6, key);
    let v7 = JsonView::Text(or_text(component.copyright, NOASSERTION@));
    let m8 = m7.value("copyrightText"@, v7);
    slot_of_value(m7, "copyrightText"@, v7, key);
    let v8 = text_json(component.description);
    let m9 = m8.opt_value("description"@, v8);
    slot_of_opt(m8, "description"@, v8, key);
    let v9 = text_json(prefixed("Organization: "@, component.supplier));
    let m10 = m9.opt_value("supplier"@, v9);
    slot_of_opt(m9, "supplier"@, v9, key);
    let v10 = text_json(prefixed("Person: "@, component.author));
    let m11 = m10.opt_value("originator"@, v10);
    slot_of_opt(m10, "originator"@, v10, key);
    let v11 = text_json(purpose_text(component, target));
    let m12 = m11.opt_value("primaryPackagePurpose"@, v11);
    slot_of_opt(m11, "primaryPackagePurpose"@, v11, key);
    let v12 = list_json(checksum_items(component));
    let m13 = m12.opt_value("checksums"@, v12);
    slot_of_opt(m12, "checksums"@, v12, key);
    let v13 = list_json(reference_items(component));
    slot_of_opt(m13, "externalRefs"@, v13, key);
}

proof fn package_reads(component: ComponentView, id: Seq<char>, target: Seq<char>)
    ensures
        record_holds(
            package_item(component, id, target),
            package_fields(),
            |key: Seq<char>| package_entry(component, id, target, key),
        ),
{
    let entry = |key: Seq<char>| package_entry(component, id, target, key);
    let m = package_members(component, id, target);
    assert(package_item(component, id, target) == m.done());
    package_shapes();
    package_names_differ();
    checksums_read(component.hashes);
    references_read(component);
    reveal_with_fuel(decoded, 2);
    assert forall|key: Seq<char>| slot(m.list, key) == filled(#[trigger] entry(key)) by {
        package_slot(component, id, target, key);
    }
    written_records_read(m, package_fields(), entry);
}

proof fn package_is(component: ComponentView, id: Seq<char>, target: Seq<char>)
    ensures
        ({
            let item = package_item(component, id, target);
            let r = decoded(item, package_shape());
            &&& r is Some
            &&& package_component(r->0) == kept_component(component, id, target)
        }),
{
    package_reads(component, id, target);
    package_shapes();
    package_keys();
    checksums_read(component.hashes);
    references_read(component);
    purposes_read_back(component.kind);
    reveal_with_fuel(decoded, 2);
    reveal_with_fuel(default_of, 2);
    let r = decoded(package_item(component, id, target), package_shape())->0;
    assert(r.get("SPDXID"@) == r.get("SPDXID"@));
    assert(r.get("name"@) == r.get("name"@));
    assert(r.get("versionInfo"@) == r.get("versionInfo"@));
    assert(r.get("description"@) == r.get("description"@));
    assert(r.get("summary"@) == r.get("summary"@));
    assert(r.get("supplier"@) == r.get("supplier"@));
    assert(r.get("originator"@) == r.get("originator"@));
    assert(r.get("copyrightText"@) == r.get("copyrightText"@));
    assert(r.get("licenseDeclared"@) == r.get("licenseDeclared"@));
    assert(r.get("licenseConcluded"@) == r.get("licenseConcluded"@));
    assert(r.get("checksums"@) == r.get("checksums"@));
    assert(r.get("externalRefs"@) == r.get("externalRefs"@));
    assert(r.get("primaryPackagePurpose"@) == r.get("primaryPackagePurpose"@));
    assert(r.get("homepage"@) == r.get("homepage"@));
    let none = Seq::<JsonView>::empty();
    let kept = kept_component(component, id, target);
    let made = package_component(r);
    assert(made.hashes =~= kept.hashes) by {
        if component.hashes.len() == 0 {
            assert(kept.hashes =~= Seq::empty());
            assert(filter_mapped(none, |checksum: JsonView| checksum_hash(checksum))
                =~= Seq::empty());
        }
    }
    assert(made.purl == kept.purl && made.cpe == kept.cpe) by {
        if reference_items(component).len() == 0 {
            assert(filter_mapped(none, |r: JsonView| purl_in(r)) =~= Seq::empty());
            assert(filter_mapped(none, |r: JsonView| cpe_in(r)) =~= Seq::empty());
        }
    }
    assert(made.external_references =~= kept.external_references) by {
        assert(filter_mapped(none, |r: JsonView| other_in(r)) =~= Seq::empty());
    }
    assert(made.licenses == kept.licenses);
    assert(made.kind == kept.kind);
    assert(made.description == kept.description);
    assert(made.copyright == kept.copyright);
}

// ---------------------------------------------------------------------------
// Relationships
// ---------------------------------------------------------------------------

spec fn reading() -> spec_fn(JsonView) -> JsonView {
    |item: JsonView| decoded(item, relationship_shape())->0
}

proof fn relation_kinds()
    ensures
        "DEPENDS_ON"@.len() == 10,
        "DESCRIBES"@.len() == 9,
{
    reveal_strlit("DEPENDS_ON");
    reveal_strlit("DESCRIBES");
}

/// Whether all of these can be read, as relationships of one kind.
spec fn all_read(items: Seq<JsonView>, kind: Seq<char>) -> bool {
    forall|i: int|
        0 <= i < items.len() ==> decoded(#[trigger] items[i], relationship_shape()) is Some
            && reading()(items[i]).get("relationshipType"@).text() == Some(kind)
}

proof fn edges_are_read(
    a: Seq<JsonView>,
    ids: IdentifiersView,
    from: Seq<char>,
    targets: Seq<Seq<char>>,
)
    ensures
        ({
            let items = filter_mapped(targets, |target: Seq<char>| edge_item(ids, from, target));
            &&& all_read(items, "DEPENDS_ON"@)
            &&& graph_of(a + items.map_values(reading())) == kept_edges(
                graph_of(a),
                ids,
                from,
                targets,
            )
        }),
    decreases targets.len(),
{
    let write = |target: Seq<char>| edge_item(ids, from, target);
    let items = filter_mapped(targets, write);
    let read = items.map_values(reading());
    if targets.len() == 0 {
        assert(a + read =~= a);
    } else {
        let head = filter_mapped(targets.drop_last(), write);
        edges_are_read(a, ids, from, targets.drop_last());
        match ids.name_of(targets.last()) {
            Some(to) => {
                relation_is(from, to, "DEPENDS_ON"@);
                assert(items == head.push(relation_item(from, to, "DEPENDS_ON"@)));
                assert((a + read).drop_last() =~= a + head.map_values(reading()));
                assert((a + read).last() == reading()(relation_item(from, to, "DEPENDS_ON"@)));
                assert forall|i: int| 0 <= i < items.len() implies decoded(
                    #[trigger] items[i],
                    relationship_shape(),
                ) is Some && reading()(items[i]).get("relationshipType"@).text() == Some(
                    "DEPENDS_ON"@,
                ) by {
                    if i < head.len() {
                        assert(items[i] == head[i]);
                    }
                }
            },
            None => {
                assert(items == head);
            },
        }
    }
}

proof fn graph_is_read(
    a: Seq<JsonView>,
    ids: IdentifiersView,
    dependencies: Seq<DependencyView>,
)
    requires
        graph_of(a) == Seq::<DependencyView>::empty(),
    ensures
        all_read(edge_items(ids, dependencies), "DEPENDS_ON"@),
        graph_of(a + edge_items(ids, dependencies).map_values(reading())) == kept_dependencies(
            dependencies,
            ids,
        ),
    decreases dependencies.len(),
{
    let items = edge_items(ids, dependencies);
    if dependencies.len() == 0 {
        assert(a + items.map_values(reading()) =~= a);
    } else {
        let head = edge_items(ids, dependencies.drop_last());
        let last = dependencies.last();
        let more = edges_of(ids, last);
        graph_is_read(a, ids, dependencies.drop_last());
        let before = a + head.map_values(reading());
        if let Some(from) = ids.name_of(last.bom_ref) {
            edges_are_read(before, ids, from, last.depends_on);
        }
        assert(a + items.map_values(reading()) =~= before + more.map_values(reading()));
        if ids.name_of(last.bom_ref) is None {
            assert(before + more.map_values(reading()) =~= before);
        }
        assert forall|i: int| 0 <= i < items.len() implies decoded(
            #[trigger] items[i],
            relationship_shape(),
        ) is Some && reading()(items[i]).get("relationshipType"@).text() == Some("DEPENDS_ON"@) by {
            if i < head.len() {
                assert(items[i] == head[i]);
            } else {
                assert(items[i] == more[i - head.len()]);
            }
        }
    }
}

/// Relationships of one kind describe nothing and are none of the dropped ones.
proof fn edges_describe_nothing(
    a: Seq<JsonView>,
    b: Seq<JsonView>,
    own: Seq<char>,
)
    requires
        forall|i: int|
            0 <= i < b.len() ==> (#[trigger] b[i]).get("relationshipType"@).text() == Some(
                "DEPENDS_ON"@,
            ),
    ensures
        filter_mapped(a + b, |r: JsonView| described_by(r, own)) == filter_mapped(
            a,
            |r: JsonView| described_by(r, own),
        ),
        count_in(a + b, |r: JsonView| is_other(r)) == count_in(a, |r: JsonView| is_other(r)),
    decreases b.len(),
{
    relation_kinds();
    if b.len() == 0 {
        assert(a + b =~= a);
    } else {
        let fewer = b.drop_last();
        assert forall|i: int| 0 <= i < fewer.len() implies (#[trigger] fewer[i]).get(
            "relationshipType"@,
        ).text() == Some("DEPENDS_ON"@) by {
            assert(fewer[i] == b[i]);
        }
        edges_describe_nothing(a, fewer, own);
        assert((a + b).drop_last() =~= a + fewer);
        assert((a + b).last() == b[b.len() - 1]);
    }
}

spec fn relation_items(doc: SbomDocView) -> Seq<JsonView> {
    describes_items(doc, names_of(doc)) + edge_items(names_of(doc), doc.dependencies)
}

proof fn relations_are_read(doc: SbomDocView)
    ensures
        ({
            let items = relation_items(doc);
            let read = items.map_values(reading());
            &&& decoded(JsonView::Array(items), Shape::List(Box::new(relationship_shape())))
                == Some(JsonView::Array(read))
            &&& graph_of(read) == kept_dependencies(doc.dependencies, names_of(doc))
            &&& count_in(read, |r: JsonView| is_other(r)) == 0
            &&& filter_mapped(read, |r: JsonView| described_by(r, DOCUMENT_ID@))
                == match doc.subject {
                Some(subject) => seq![names_of(doc).label_of(subject)],
                None => Seq::empty(),
            }
        }),
{
    relation_kinds();
    let ids = names_of(doc);
    let a = describes_items(doc, ids);
    let b = edge_items(ids, doc.dependencies);
    let items = relation_items(doc);
    let first = a.map_values(reading());
    let none = Seq::<JsonView>::empty();
    let describe = |r: JsonView| described_by(r, DOCUMENT_ID@);
    let odd = |r: JsonView| is_other(r);
    assert(filter_mapped(none, describe) =~= Seq::empty());
    assert(graph_of(none) =~= Seq::empty());
    match doc.subject {
        Some(subject) => {
            let label = ids.label_of(subject);
            relation_is(DOCUMENT_ID@, label, "DESCRIBES"@);
            assert(first.drop_last() =~= none);
            assert(first.last() == reading()(relation_item(DOCUMENT_ID@, label, "DESCRIBES"@)));
            assert(filter_mapped(first, describe) =~= seq![label]);
            assert(graph_of(first) =~= Seq::empty());
            assert(count_in(none, odd) == 0);
        },
        None => {
            assert(first =~= none);
        },
    }
    graph_is_read(first, ids, doc.dependencies);
    let second = b.map_values(reading());
    assert forall|i: int| 0 <= i < second.len() implies (#[trigger] second[i]).get(
        "relationshipType"@,
    ).text() == Some("DEPENDS_ON"@) by {
        assert(decoded(b[i], relationship_shape()) is Some);
    }
    edges_describe_nothing(first, second, DOCUMENT_ID@);
    let read = items.map_values(reading());
    assert(read =~= first + second);
    assert forall|i: int| 0 <= i < items.len() implies decoded(
        #[trigger] items[i],
        relationship_shape(),
    ) is Some by {
        if i < a.len() {
            assert(items[i] == a[i]);
        } else {
            assert(items[i] == b[i - a.len()]);
        }
    }
    lists_decode(items, relationship_shape());
    assert(items.map_values(|item: JsonView| decoded(item, relationship_shape())->0) =~= read);
}

// ---------------------------------------------------------------------------
// The document
// ---------------------------------------------------------------------------

spec fn package_items(doc: SbomDocView, target: Seq<char>) -> Seq<JsonView> {
    all_components(doc).map_values(
        |c: ComponentView| package_item(c, names_of(doc).label_of(c), target),
    )
}

spec fn packages_read(doc: SbomDocView, target: Seq<char>) -> Seq<JsonView> {
    package_items(doc, target).map_values(|item: JsonView| decoded(item, package_shape())->0)
}

proof fn packages_decode(doc: SbomDocView, target: Seq<char>)
    ensures
        decoded(
            JsonView::Array(package_items(doc, target)),
            Shape::List(Box::new(package_shape())),
        ) == Some(JsonView::Array(packages_read(doc, target))),
        packages_read(doc, target).map_values(|p: JsonView| package_component(p))
            == all_components(doc).map_values(
            |c: ComponentView| kept_component(c, names_of(doc).label_of(c), target),
        ),
{
    let all = all_components(doc);
    let items = package_items(doc, target);
    assert forall|i: int| 0 <= i < items.len() implies decoded(
        #[trigger] items[i],
        package_shape(),
    ) is Some by {
        package_is(all[i], names_of(doc).label_of(all[i]), target);
    }
    lists_decode(items, package_shape());
    let made = packages_read(doc, target).map_values(|p: JsonView| package_component(p));
    let kept = all.map_values(
        |c: ComponentView| kept_component(c, names_of(doc).label_of(c), target),
    );
    assert(made =~= kept) by {
        assert forall|i: int| 0 <= i < kept.len() implies made[i] == kept[i] by {
            package_is(all[i], names_of(doc).label_of(all[i]), target);
        }
    }
}

proof fn document_keys()
    ensures
        "spdxVersion"@.len() == 11 && "spdxVersion"@[0] == 's',
        "SPDXID"@.len() == 6 && "SPDXID"@[0] == 'S',
        "name"@.len() == 4 && "name"@[0] == 'n',
        "documentNamespace"@.len() == 17,
        "documentNamespace"@[0] == 'd',
        "documentNamespace"@[8] == 'N',
        "creationInfo"@.len() == 12 && "creationInfo"@[0] == 'c',
        "packages"@.len() == 8 && "packages"@[0] == 'p',
        "relationships"@.len() == 13 && "relationships"@[0] == 'r',
        "files"@.len() == 5 && "files"@[0] == 'f',
        "snippets"@.len() == 8 && "snippets"@[0] == 's',
        "documentDescribes"@.len() == 17,
        "documentDescribes"@[0] == 'd',
        "documentDescribes"@[8] == 'D',
        "dataLicense"@.len() == 11 && "dataLicense"@[0] == 'd',
{
    reveal_strlit("spdxVersion");
    reveal_strlit("SPDXID");
    reveal_strlit("name");
    reveal_strlit("documentNamespace");
    reveal_strlit("creationInfo");
    reveal_strlit("packages");
    reveal_strlit("relationships");
    reveal_strlit("files");
    reveal_strlit("snippets");
    reveal_strlit("documentDescribes");
    reveal_strlit("dataLicense");
}

spec fn document_fields() -> Fields {
    text_field(
        "spdxVersion",
        text_field(
            "SPDXID",
            text_field(
                "name",
                text_field(
                    "documentNamespace",
                    field(
                        "creationInfo",
                        maybe(creation_shape()),
                        field(
                            "packages",
                            list_of(package_shape()),
                            field(
                                "relationships",
                                list_of(relationship_shape()),
                                field(
                                    "files",
                                    list_of(Shape::Any),
                                    field(
                                        "snippets",
                                        list_of(Shape::Any),
                                        field(
                                            "documentDescribes",
                                            list_of(Shape::Text),
                                            Fields::End,
                                        ),
                                    ),
                                ),
                            ),
                        ),
                    ),
                ),
            ),
        ),
    )
}

proof fn document_shapes()
    ensures
        document_shape() == Shape::Record(document_fields()),
        shape_of(document_fields(), "spdxVersion"@) == Some(maybe(Shape::Text)),
        shape_of(document_fields(), "SPDXID"@) == Some(maybe(Shape::Text)),
        shape_of(document_fields(), "name"@) == Some(maybe(Shape::Text)),
        shape_of(document_fields(), "documentNamespace"@) == Some(maybe(Shape::Text)),
        shape_of(document_fields(), "creationInfo"@) == Some(maybe(creation_shape())),
        shape_of(document_fields(), "packages"@) == Some(list_of(package_shape())),
        shape_of(document_fields(), "relationships"@) == Some(list_of(relationship_shape())),
        shape_of(document_fields(), "files"@) == Some(list_of(Shape::Any)),
        shape_of(document_fields(), "snippets"@) == Some(list_of(Shape::Any)),
        shape_of(document_fields(), "documentDescribes"@) == Some(list_of(Shape::Text)),
        shape_of(document_fields(), "dataLicense"@) is None,
{
    document_keys();
    reveal_with_fuel(shape_of, 11);
}

proof fn document_names_differ()
    ensures
        distinct_names(document_fields()),
{
    document_keys();
    reveal_with_fuel(shape_of, 11);
    reveal_with_fuel(distinct_names, 11);
}

spec fn document_entry(doc: SbomDocView, target: Seq<char>, key: Seq<char>) -> Option<JsonView> {
    if key == "spdxVersion"@ {
        Some(JsonView::Text(target))
    } else if key == "dataLicense"@ {
        Some(JsonView::Text("CC0-1.0"@))
    } else if key == "SPDXID"@ {
        Some(JsonView::Text(DOCUMENT_ID@))
    } else if key == "name"@ {
        Some(JsonView::Text(title_of(doc, "SBOM"@)))
    } else if key == "documentNamespace"@ {
        Some(JsonView::Text(namespace_of(doc)))
    } else if key == "creationInfo"@ {
        Some(creation_json(created_of(doc)))
    } else if key == "packages"@ {
        Some(JsonView::Array(package_items(doc, target)))
    } else if key == "relationships"@ {
        list_json(relation_items(doc))
    } else {
        None
    }
}

spec fn document_members(doc: SbomDocView, target: Seq<char>) -> MembersView {
    members()
        .value("spdxVersion"@, JsonView::Text(target))
        .value("dataLicense"@, JsonView::Text("CC0-1.0"@))
        .value("SPDXID"@, JsonView::Text(DOCUMENT_ID@))
        .value("name"@, JsonView::Text(title_of(doc, "SBOM"@)))
        .value("documentNamespace"@, JsonView::Text(namespace_of(doc)))
        .value("creationInfo"@, creation_json(created_of(doc)))
        .value("packages"@, JsonView::Array(package_items(doc, target)))
        .opt_value("relationships"@, list_json(relation_items(doc)))
}

proof fn document_slot(doc: SbomDocView, target: Seq<char>, key: Seq<char>)
    ensures
        slot(document_members(doc, target).list, key) == filled(document_entry(doc, target, key)),
{
    document_keys();
    let m0 = members();
    let v0 = JsonView::Text(target);
    let m1 = m0.value("spdxVersion"@, v0);
    slot_of_value(m0, "spdxVersion"@, v0, key);
    let v1 = JsonView::Text("CC0-1.0"@);
    let m2 = m1.value("dataLicense"@, v1);
    slot_of_value(m1, "dataLicense"@, v1, key);
    let v2 = JsonView::Text(DOCUMENT_ID@);
    let m3 = m2.value("SPDXID"@, v2);
    slot_of_value(m2, "SPDXID"@, v2, key);
    let v3 = JsonView::Text(title_of(doc, "SBOM"@));
    let m4 = m3.value("name"@, v3);
    slot_of_value(m3, "name"@, v3, key);
    let v4 = JsonView::Text(namespace_of(doc));
    let m5 = m4.value("documentNamespace"@, v4);
    slot_of_value(m4, "documentNamespace"@, v4, key);
    let v5 = creation_json(created_of(doc));
    let m6 = m5.value("creationInfo"@, v5);
    slot_of_value(m5, "creationInfo"@, v5, key);
    let v6 = JsonView::Array(package_items(doc, target));
    let m7 = m6.value("packages"@, v6);
    slot_of_value(m6, "packages"@, v6, key);
    let v7 = list_json(relation_items(doc));
    slot_of_opt(m7, "relationships"@, v7, key);
}

proof fn document_reads(doc: SbomDocView, target: Seq<char>)
    ensures
        record_holds(
            document_item(doc, target),
            document_fields(),
            |key: Seq<char>| document_entry(doc, target, key),
        ),
{
    let entry = |key: Seq<char>| document_entry(doc, target, key);
    let m = document_members(doc, target);
    assert(text_items(creators()) =~= seq![JsonView::Text("Tool: "@ + WRITER@)]);
    assert(document_item(doc, target) == m.done());
    document_shapes();
    document_names_differ();
    creation_is(created_of(doc));
    packages_decode(doc, target);
    relations_are_read(doc);
    reveal_with_fuel(decoded, 2);
    assert forall|key: Seq<char>| slot(m.list, key) == filled(#[trigger] entry(key)) by {
        document_slot(doc, target, key);
    }
    written_records_read(m, document_fields(), entry);
}

proof fn document_is(doc: SbomDocView, target: Seq<char>)
    ensures
        ({
            let r = decoded(document_item(doc, target), document_shape());
            &&& r is Some
            &&& r->0.get("spdxVersion"@).text() == Some(target)
            &&& r->0.get("SPDXID"@).text() == Some(DOCUMENT_ID@)
            &&& r->0.get("documentNamespace"@).text() == Some(namespace_of(doc))
            &&& r->0.get("creationInfo"@).get("created"@).text() == Some(created_of(doc))
            &&& r->0.get("creationInfo"@).get("creators"@).items() == text_items(creators())
            &&& r->0.get("packages"@).items() == packages_read(doc, target)
            &&& r->0.get("relationships"@).items() == relation_items(doc).map_values(reading())
            &&& r->0.get("files"@).items().len() == 0
            &&& r->0.get("snippets"@).items().len() == 0
            &&& r->0.get("documentDescribes"@).texts() == Seq::<Seq<char>>::empty()
        }),
{
    document_reads(doc, target);
    document_shapes();
    document_keys();
    creation_is(created_of(doc));
    packages_decode(doc, target);
    relations_are_read(doc);
    reveal_with_fuel(decoded, 2);
    reveal_with_fuel(default_of, 2);
    let r = decoded(document_item(doc, target), document_shape())->0;
    assert(r.get("spdxVersion"@) == r.get("spdxVersion"@));
    assert(r.get("SPDXID"@) == r.get("SPDXID"@));
    assert(r.get("documentNamespace"@) == r.get("documentNamespace"@));
    assert(r.get("creationInfo"@) == r.get("creationInfo"@));
    assert(r.get("packages"@) == r.get("packages"@));
    assert(r.get("relationships"@) == r.get("relationships"@));
    assert(r.get("files"@) == r.get("files"@));
    assert(r.get("snippets"@) == r.get("snippets"@));
    assert(r.get("documentDescribes"@) == r.get("documentDescribes"@));
    if relation_items(doc).len() == 0 {
        assert(relation_items(doc).map_values(reading()) =~= Seq::empty());
    }
    assert(texts_of(Seq::<JsonView>::empty()) =~= Seq::empty());
}

/// Nothing that is written carries annotations.
proof fn nothing_is_annotated(doc: SbomDocView, target: Seq<char>)
    ensures
        !annotated(document_item(doc, target)),
{
    document_keys();
    package_keys();
    reveal_strlit("annotations");
    assert("annotations"@.len() == 11 && "annotations"@[0] == 'a');
    let json = document_item(doc, target);
    let m = document_members(doc, target);
    assert(text_items(creators()) =~= seq![JsonView::Text("Tool: "@ + WRITER@)]);
    assert(json == m.done());
    document_slot(doc, target, "annotations"@);
    document_slot(doc, target, "packages"@);
    slot_props(m.list, "annotations"@);
    slot_props(m.list, "packages"@);
    let packages = package_items(doc, target);
    assert(json.get("packages"@) == JsonView::Array(packages));
    assert forall|i: int| 0 <= i < packages.len() implies !has_notes(#[trigger] packages[i]) by {
        let component = all_components(doc)[i];
        let id = names_of(doc).label_of(component);
        let list = package_members(component, id, target).list;
        assert(packages[i] == package_item(component, id, target));
        assert(packages[i] == JsonView::Object(list));
        package_slot(component, id, target, "annotations"@);
        slot_props(list, "annotations"@);
    }
}

/// What is written as SPDX 2 reads back, without losing a package: the version
/// that was written, the namespace, the time, what the document is about, every
/// package under its new name, and every edge between packages that are listed,
/// in canonical order. Reading it loses nothing more.
pub proof fn documents_read_back(doc: SbomDocView, writing: CtxView, reading_ctx: CtxView)
    requires
        starts_with(target_of(doc, writing), "SPDX-2"@),
    ensures
        match written(DocView::Sbom(doc), writing).0 {
            Ok(json) => read_spec(json, reading_ctx) == (
                Ok::<DocView, ErrorView>(
                    DocView::Sbom(sort_doc(kept_doc(doc, target_of(doc, writing)))),
                ),
                reading_ctx,
            ),
            Err(_) => false,
        },
{
    let target = target_of(doc, writing);
    let ids = names_of(doc);
    let kept = kept_doc(doc, target);
    document_is(doc, target);
    nothing_is_annotated(doc, target);
    packages_decode(doc, target);
    relations_are_read(doc);
    let document = decoded(document_item(doc, target), document_shape())->0;
    let keep = |c: ComponentView| kept_component(c, ids.label_of(c), target);
    let all = all_components(doc);
    let packages = all.map_values(keep);
    let made = document.get("packages"@).items().map_values(|p: JsonView| package_component(p));
    assert(made == packages);
    let found = filter_mapped(
        document.get("relationships"@).items(),
        |r: JsonView| described_by(r, DOCUMENT_ID@),
    );
    assert(found + document.get("documentDescribes"@).texts() =~= found);
    match doc.subject {
        Some(subject) => {
            assert(all[0] == subject);
            assert(packages[0].bom_ref == Some(ids.label_of(subject)));
            assert(component_at(packages, ids.label_of(subject)) == 0);
            assert(packages.remove(0) =~= kept.components);
        },
        None => {
            assert(all =~= doc.components);
            assert(packages =~= kept.components);
        },
    }
    let tools = document.get("creationInfo"@).get("creators"@).items();
    let find = |creator: JsonView| tool_in(creator);
    assert(tools =~= seq![JsonView::Text("Tool: "@ + WRITER@)]);
    assert(tools.drop_last() =~= Seq::empty());
    assert(filter_mapped(tools.drop_last(), find) =~= Seq::empty());
    assert(filter_mapped(tools, find) =~= kept.tools);
    assert(read_document(document, target) == sort_doc(kept));
}

} // verus!
