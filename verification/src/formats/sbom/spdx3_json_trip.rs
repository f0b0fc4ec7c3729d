//! The round trip of a bill of materials through SPDX 3: what reading gives back
//! of what was written.

use vstd::prelude::*;

use crate::error::ErrorView;
use crate::formats::sbom::identifiers::{
    assignment_keeps_names_apart, different_sources_have_different_names, every_component_is_named,
    source_of, IdentifiersView,
};
use crate::formats::sbom::spdx3_json::{
    agent_iri, agent_item, agents_of, algorithm_names_read_back, algorithm_of, creation_item,
    depends_items, document_element, element_shape, file_item, file_shape, first_of_type,
    graph_items, hash_item, id_of, integrity_hash, integrity_shape, is_type, license_at,
    license_items, license_links, license_of_element, licensed, licenses_in, linked, links_of,
    mentions, names_of, namespace_of, numbered, opt_iri, others, package_component, package_item,
    packages_in, purpose_of_kind, purposes_read_back, read_document, read_spec, relationship_item,
    roots_of, targets_of, written, LinksView, CONTEXT, CREATION_INFO, FAMILY, SPEC_VERSION,
};
use crate::formats::sbom::spdx_json::{
    all_components, created_of, declared_license, license_of, title_of, with_edges, WRITER,
};
use crate::json::{
    decoded, default_of, field, list_of, maybe, members, text_field, text_items, texts_of, Fields,
    JsonView, MembersView, Shape,
};
use crate::json_echo::{
    distinct_names, fields_fit, filled, lists_decode, record_field, record_holds, shape_of, slot,
    slot_of_opt, slot_of_value, text_json, texts_decode, written_records_read,
};
use crate::model::sbom::{
    sort_doc, ComponentKind, ComponentView, DependencyView, HashView, SbomDocView, SpecOriginView,
};
use crate::registry::DocView;
use crate::text::{contains, decimal, decimal_reads_back, starts_with};
use crate::value::{filter_mapped, key_at, key_at_props, lookup, lookup_push, non_empty};
use crate::warn::CtxView;

verus! {

// ---------------------------------------------------------------------------
// Elements
// ---------------------------------------------------------------------------

proof fn element_keys()
    ensures
        "type"@.len() == 4 && "type"@[0] == 't',
        "spdxId"@.len() == 6 && "spdxId"@[0] == 's',
        "@id"@.len() == 3 && "@id"@[0] == '@',
        "name"@.len() == 4 && "name"@[0] == 'n',
        "description"@.len() == 11 && "description"@[0] == 'd',
        "summary"@.len() == 7 && "summary"@[0] == 's',
        "software_packageVersion"@.len() == 23,
        "software_packageVersion"@[0] == 's',
        "software_packageVersion"@[10] == 'a',
        "software_packageUrl"@.len() == 19 && "software_packageUrl"@[0] == 's',
        "software_copyrightText"@.len() == 22 && "software_copyrightText"@[0] == 's',
        "software_primaryPurpose"@.len() == 23,
        "software_primaryPurpose"@[0] == 's',
        "software_primaryPurpose"@[10] == 'r',
        "verifiedUsing"@.len() == 13 && "verifiedUsing"@[0] == 'v',
        "originatedBy"@.len() == 12 && "originatedBy"@[0] == 'o',
        "suppliedBy"@.len() == 10 && "suppliedBy"@[0] == 's',
        "from"@.len() == 4 && "from"@[0] == 'f',
        "to"@.len() == 2 && "to"@[0] == 't',
        "relationshipType"@.len() == 16 && "relationshipType"@[0] == 'r',
        "simplelicensing_licenseExpression"@.len() == 33,
        "simplelicensing_licenseExpression"@[0] == 's',
        "created"@.len() == 7 && "created"@[0] == 'c',
        "specVersion"@.len() == 11 && "specVersion"@[0] == 's',
        "rootElement"@.len() == 11 && "rootElement"@[0] == 'r',
        "creationInfo"@.len() == 12 && "creationInfo"@[0] == 'c',
        "createdBy"@.len() == 9 && "createdBy"@[0] == 'c',
        "profileConformance"@.len() == 18 && "profileConformance"@[0] == 'p',
{
    reveal_strlit("type");
    reveal_strlit("spdxId");
    reveal_strlit("@id");
    reveal_strlit("name");
    reveal_strlit("description");
    reveal_strlit("summary");
    reveal_strlit("software_packageVersion");
    reveal_strlit("software_packageUrl");
    reveal_strlit("software_copyrightText");
    reveal_strlit("software_primaryPurpose");
    reveal_strlit("verifiedUsing");
    reveal_strlit("originatedBy");
    reveal_strlit("suppliedBy");
    reveal_strlit("from");
    reveal_strlit("to");
    reveal_strlit("relationshipType");
    reveal_strlit("simplelicensing_licenseExpression");
    reveal_strlit("created");
    reveal_strlit("specVersion");
    reveal_strlit("rootElement");
    reveal_strlit("creationInfo");
    reveal_strlit("createdBy");
    reveal_strlit("profileConformance");
}

/// The fields behind the first ones.
spec fn late_fields() -> Fields {
    field(
        "verifiedUsing",
        list_of(integrity_shape()),
        field(
            "originatedBy",
            list_of(Shape::Text),
            text_field(
                "suppliedBy",
                text_field(
                    "from",
                    field(
                        "to",
                        list_of(Shape::Text),
                        text_field(
                            "relationshipType",
                            text_field(
                                "simplelicensing_licenseExpression",
                                text_field(
                                    "created",
                                    text_field(
                                        "specVersion",
                                        field("rootElement", list_of(Shape::Text), Fields::End),
                                    ),
                                ),
                            ),
                        ),
                    ),
                ),
            ),
        ),
    )
}

spec fn element_fields() -> Fields {
    text_field(
        "type",
        text_field(
            "spdxId",
            text_field(
                "@id",
                text_field(
                    "name",
                    text_field(
                        "description",
                        text_field(
                            "summary",
                            text_field(
                                "software_packageVersion",
                                text_field(
                                    "software_packageUrl",
                                    text_field(
                                        "software_copyrightText",
                                        text_field("software_primaryPurpose", late_fields()),
                                    ),
                                ),
                            ),
                        ),
                    ),
                ),
            ),
        ),
    )
}

proof fn element_shapes()
    ensures
        element_shape() == Shape::Record(element_fields()),
        shape_of(element_fields(), "type"@) == Some(maybe(Shape::Text)),
        shape_of(element_fields(), "spdxId"@) == Some(maybe(Shape::Text)),
        shape_of(element_fields(), "@id"@) == Some(maybe(Shape::Text)),
        shape_of(element_fields(), "name"@) == Some(maybe(Shape::Text)),
        shape_of(element_fields(), "description"@) == Some(maybe(Shape::Text)),
        shape_of(element_fields(), "summary"@) == Some(maybe(Shape::Text)),
        shape_of(element_fields(), "software_packageVersion"@) == Some(maybe(Shape::Text)),
        shape_of(element_fields(), "software_packageUrl"@) == Some(maybe(Shape::Text)),
        shape_of(element_fields(), "software_copyrightText"@) == Some(maybe(Shape::Text)),
        shape_of(element_fields(), "software_primaryPurpose"@) == Some(maybe(Shape::Text)),
        shape_of(element_fields(), "verifiedUsing"@) == Some(list_of(integrity_shape())),
        shape_of(element_fields(), "originatedBy"@) == Some(list_of(Shape::Text)),
        shape_of(element_fields(), "suppliedBy"@) == Some(maybe(Shape::Text)),
        shape_of(element_fields(), "from"@) == Some(maybe(Shape::Text)),
        shape_of(element_fields(), "to"@) == Some(list_of(Shape::Text)),
        shape_of(element_fields(), "relationshipType"@) == Some(maybe(Shape::Text)),
        shape_of(element_fields(), "simplelicensing_licenseExpression"@) == Some(
            maybe(Shape::Text),
        ),
        shape_of(element_fields(), "created"@) == Some(maybe(Shape::Text)),
        shape_of(element_fields(), "specVersion"@) == Some(maybe(Shape::Text)),
        shape_of(element_fields(), "rootElement"@) == Some(list_of(Shape::Text)),
        shape_of(element_fields(), "creationInfo"@) is None,
        shape_of(element_fields(), "createdBy"@) is None,
        shape_of(element_fields(), "profileConformance"@) is None,
{
    element_keys();
    reveal_with_fuel(shape_of, 21);
}

#[verifier::rlimit(40)]
proof fn element_names_differ()
    ensures
        distinct_names(element_fields()),
{
    element_keys();
    reveal_with_fuel(shape_of, 21);
    reveal_with_fuel(distinct_names, 21);
}

spec fn license_element(iri: Seq<char>, expression: Seq<char>) -> JsonView {
    members().text("creationInfo"@, CREATION_INFO@).text(
        "simplelicensing_licenseExpression"@,
        expression,
    ).text("spdxId"@, iri).text("type"@, "simplelicensing_LicenseExpression"@).done()
}

spec fn author_json(component: ComponentView, namespace: Seq<char>) -> Option<JsonView> {
    match opt_iri(namespace, component.author) {
        Some(agent) => Some(JsonView::Array(seq![JsonView::Text(agent)])),
        None => None,
    }
}

spec fn hash_list(component: ComponentView) -> Seq<JsonView> {
    filter_mapped(component.hashes, |h: HashView| hash_item(h))
}

spec fn hashes_json(component: ComponentView) -> Option<JsonView> {
    if hash_list(component).len() == 0 {
        None
    } else {
        Some(JsonView::Array(hash_list(component)))
    }
}

spec fn creation_entry(
    namespace: Seq<char>,
    created: Seq<char>,
    key: Seq<char>,
) -> Option<JsonView> {
    if key == "@id"@ {
        Some(JsonView::Text(CREATION_INFO@))
    } else if key == "created"@ {
        Some(JsonView::Text(created))
    } else if key == "createdBy"@ {
        Some(JsonView::Array(seq![JsonView::Text(namespace + "/Agent-udc"@)]))
    } else if key == "specVersion"@ {
        Some(JsonView::Text(SPEC_VERSION@))
    } else if key == "type"@ {
        Some(JsonView::Text("CreationInfo"@))
    } else {
        None
    }
}

spec fn creation_members(namespace: Seq<char>, created: Seq<char>) -> MembersView {
    members()
        .value("@id"@, JsonView::Text(CREATION_INFO@))
        .value("created"@, JsonView::Text(created))
        .value("createdBy"@, JsonView::Array(seq![JsonView::Text(namespace + "/Agent-udc"@)]))
        .value("specVersion"@, JsonView::Text(SPEC_VERSION@))
        .value("type"@, JsonView::Text("CreationInfo"@))
}

proof fn creation_slot(namespace: Seq<char>, created: Seq<char>, key: Seq<char>)
    ensures
        slot(creation_members(namespace, created).list, key) == filled(
            creation_entry(namespace, created, key),
        ),
{
    element_keys();
    let m0 = members();
    let v0 = JsonView::Text(CREATION_INFO@);
    let m1 = m0.value("@id"@, v0);
    slot_of_value(m0, "@id"@, v0, key);
    let v1 = JsonView::Text(created);
    let m2 = m1.value("created"@, v1);
    slot_of_value(m1, "created"@, v1, key);
    let v2 = JsonView::Array(seq![JsonView::Text(namespace + "/Agent-udc"@)]);
    let m3 = m2.value("createdBy"@, v2);
    slot_of_value(m2, "createdBy"@, v2, key);
    let v3 = JsonView::Text(SPEC_VERSION@);
    let m4 = m3.value("specVersion"@, v3);
    slot_of_value(m3, "specVersion"@, v3, key);
    let v4 = JsonView::Text("CreationInfo"@);
    slot_of_value(m4, "type"@, v4, key);
}

proof fn creation_reads(namespace: Seq<char>, created: Seq<char>)
    ensures
        record_holds(
            creation_item(namespace, created),
            element_fields(),
            |key: Seq<char>| creation_entry(namespace, created, key),
        ),
{
    let entry = |key: Seq<char>| creation_entry(namespace, created, key);
    let m = creation_members(namespace, created);
    assert(creation_item(namespace, created) == m.done());
    element_shapes();
    reveal_with_fuel(decoded, 2);
    assert forall|key: Seq<char>| slot(m.list, key) == filled(#[trigger] entry(key)) by {
        creation_slot(namespace, created, key);
    }
    element_names_differ();
    written_records_read(m, element_fields(), entry);
}

spec fn agent_entry(iri: Seq<char>, name: Seq<char>, key: Seq<char>) -> Option<JsonView> {
    if key == "creationInfo"@ {
        Some(JsonView::Text(CREATION_INFO@))
    } else if key == "name"@ {
        Some(JsonView::Text(name))
    } else if key == "spdxId"@ {
        Some(JsonView::Text(iri))
    } else if key == "type"@ {
        Some(JsonView::Text("Agent"@))
    } else {
        None
    }
}

spec fn agent_members(iri: Seq<char>, name: Seq<char>) -> MembersView {
    members()
        .value("creationInfo"@, JsonView::Text(CREATION_INFO@))
        .value("name"@, JsonView::Text(name))
        .value("spdxId"@, JsonView::Text(iri))
        .value("type"@, JsonView::Text("Agent"@))
}

proof fn agent_slot(iri: Seq<char>, name: Seq<char>, key: Seq<char>)
    ensures
        slot(agent_members(iri, name).list, key) == filled(agent_entry(iri, name, key)),
{
    element_keys();
    let m0 = members();
    let v0 = JsonView::Text(CREATION_INFO@);
    let m1 = m0.value("creationInfo"@, v0);
    slot_of_value(m0, "creationInfo"@, v0, key);
    let v1 = JsonView::Text(name);
    let m2 = m1.value("name"@, v1);
    slot_of_value(m1, "name"@, v1, key);
    let v2 = JsonView::Text(iri);
    let m3 = m2.value("spdxId"@, v2);
    slot_of_value(m2, "spdxId"@, v2, key);
    let v3 = JsonView::Text("Agent"@);
    slot_of_value(m3, "type"@, v3, key);
}

proof fn agent_reads(iri: Seq<char>, name: Seq<char>)
    ensures
        record_holds(
            agent_item(iri, name),
            element_fields(),
            |key: Seq<char>| agent_entry(iri, name, key),
        ),
{
    let entry = |key: Seq<char>| agent_entry(iri, name, key);
    let m = agent_members(iri, name);
    assert(agent_item(iri, name) == m.done());
    element_shapes();
    reveal_with_fuel(decoded, 2);
    assert forall|key: Seq<char>| slot(m.list, key) == filled(#[trigger] entry(key)) by {
        agent_slot(iri, name, key);
    }
    element_names_differ();
    written_records_read(m, element_fields(), entry);
}

spec fn license_entry(iri: Seq<char>, expression: Seq<char>, key: Seq<char>) -> Option<JsonView> {
    if key == "creationInfo"@ {
        Some(JsonView::Text(CREATION_INFO@))
    } else if key == "simplelicensing_licenseExpression"@ {
        Some(JsonView::Text(expression))
    } else if key == "spdxId"@ {
        Some(JsonView::Text(iri))
    } else if key == "type"@ {
        Some(JsonView::Text("simplelicensing_LicenseExpression"@))
    } else {
        None
    }
}

spec fn license_members(iri: Seq<char>, expression: Seq<char>) -> MembersView {
    members()
        .value("creationInfo"@, JsonView::Text(CREATION_INFO@))
        .value("simplelicensing_licenseExpression"@, JsonView::Text(expression))
        .value("spdxId"@, JsonView::Text(iri))
        .value("type"@, JsonView::Text("simplelicensing_LicenseExpression"@))
}

proof fn license_slot(iri: Seq<char>, expression: Seq<char>, key: Seq<char>)
    ensures
        slot(license_members(iri, expression).list, key) == filled(
            license_entry(iri, expression, key),
        ),
{
    element_keys();
    let m0 = members();
    let v0 = JsonView::Text(CREATION_INFO@);
    let m1 = m0.value("creationInfo"@, v0);
    slot_of_value(m0, "creationInfo"@, v0, key);
    let v1 = JsonView::Text(expression);
    let m2 = m1.value("simplelicensing_licenseExpression"@, v1);
    slot_of_value(m1, "simplelicensing_licenseExpression"@, v1, key);
    let v2 = JsonView::Text(iri);
    let m3 = m2.value("spdxId"@, v2);
    slot_of_value(m2, "spdxId"@, v2, key);
    let v3 = JsonView::Text("simplelicensing_LicenseExpression"@);
    slot_of_value(m3, "type"@, v3, key);
}

proof fn license_reads(iri: Seq<char>, expression: Seq<char>)
    ensures
        record_holds(
            license_element(iri, expression),
            element_fields(),
            |key: Seq<char>| license_entry(iri, expression, key),
        ),
{
    let entry = |key: Seq<char>| license_entry(iri, expression, key);
    let m = license_members(iri, expression);
    assert(license_element(iri, expression) == m.done());
    element_shapes();
    reveal_with_fuel(decoded, 2);
    assert forall|key: Seq<char>| slot(m.list, key) == filled(#[trigger] entry(key)) by {
        license_slot(iri, expression, key);
    }
    element_names_differ();
    written_records_read(m, element_fields(), entry);
}

spec fn relationship_entry(
    iri: Seq<char>,
    from: Seq<char>,
    kind: Seq<char>,
    to: Seq<Seq<char>>,
    key: Seq<char>,
) -> Option<JsonView> {
    if key == "creationInfo"@ {
        Some(JsonView::Text(CREATION_INFO@))
    } else if key == "from"@ {
        Some(JsonView::Text(from))
    } else if key == "relationshipType"@ {
        Some(JsonView::Text(kind))
    } else if key == "spdxId"@ {
        Some(JsonView::Text(iri))
    } else if key == "to"@ {
        Some(JsonView::Array(text_items(to)))
    } else if key == "type"@ {
        Some(JsonView::Text("Relationship"@))
    } else {
        None
    }
}

spec fn relationship_members(
    iri: Seq<char>,
    from: Seq<char>,
    kind: Seq<char>,
    to: Seq<Seq<char>>,
) -> MembersView {
    members()
        .value("creationInfo"@, JsonView::Text(CREATION_INFO@))
        .value("from"@, JsonView::Text(from))
        .value("relationshipType"@, JsonView::Text(kind))
        .value("spdxId"@, JsonView::Text(iri))
        .value("to"@, JsonView::Array(text_items(to)))
        .value("type"@, JsonView::Text("Relationship"@))
}

proof fn relationship_slot(
    iri: Seq<char>,
    from: Seq<char>,
    kind: Seq<char>,
    to: Seq<Seq<char>>,
    key: Seq<char>,
)
    ensures
        slot(relationship_members(iri, from, kind, to).list, key) == filled(
            relationship_entry(iri, from, kind, to, key),
        ),
{
    element_keys();
    let m0 = members();
    let v0 = JsonView::Text(CREATION_INFO@);
    let m1 = m0.value("creationInfo"@, v0);
    slot_of_value(m0, "creationInfo"@, v0, key);
    let v1 = JsonView::Text(from);
    let m2 = m1.value("from"@, v1);
    slot_of_value(m1, "from"@, v1, key);
    let v2 = JsonView::Text(kind);
    let m3 = m2.value("relationshipType"@, v2);
    slot_of_value(m2, "relationshipType"@, v2, key);
    let v3 = JsonView::Text(iri);
    let m4 = m3.value("spdxId"@, v3);
    slot_of_value(m3, "spdxId"@, v3, key);
    let v4 = JsonView::Array(text_items(to));
    let m5 = m4.value("to"@, v4);
    slot_of_value(m4, "to"@, v4, key);
    let v5 = JsonView::Text("Relationship"@);
    slot_of_value(m5, "type"@, v5, key);
}

proof fn relationship_reads(iri: Seq<char>, from: Seq<char>, kind: Seq<char>, to: Seq<Seq<char>>)
    ensures
        record_holds(
            relationship_item(iri, from, kind, to),
            element_fields(),
            |key: Seq<char>| relationship_entry(iri, from, kind, to, key),
        ),
{
    let entry = |key: Seq<char>| relationship_entry(iri, from, kind, to, key);
    let m = relationship_members(iri, from, kind, to);
    assert(relationship_item(iri, from, kind, to) == m.done());
    element_shapes();
    texts_decode(to);
    reveal_with_fuel(decoded, 2);
    assert forall|key: Seq<char>| slot(m.list, key) == filled(#[trigger] entry(key)) by {
        relationship_slot(iri, from, kind, to, key);
    }
    element_names_differ();
    written_records_read(m, element_fields(), entry);
}

spec fn document_entry(
    name: Seq<char>,
    namespace: Seq<char>,
    roots: Seq<Seq<char>>,
    key: Seq<char>,
) -> Option<JsonView> {
    if key == "creationInfo"@ {
        Some(JsonView::Text(CREATION_INFO@))
    } else if key == "name"@ {
        Some(JsonView::Text(name))
    } else if key == "profileConformance"@ {
        Some(JsonView::Array(seq![JsonView::Text("core"@), JsonView::Text("software"@)]))
    } else if key == "rootElement"@ {
        Some(JsonView::Array(text_items(roots)))
    } else if key == "spdxId"@ {
        Some(JsonView::Text(namespace + "/Document"@))
    } else if key == "type"@ {
        Some(JsonView::Text("SpdxDocument"@))
    } else {
        None
    }
}

spec fn document_members(
    name: Seq<char>,
    namespace: Seq<char>,
    roots: Seq<Seq<char>>,
) -> MembersView {
    members()
        .value("creationInfo"@, JsonView::Text(CREATION_INFO@))
        .value("name"@, JsonView::Text(name))
        .value(
            "profileConformance"@,
            JsonView::Array(seq![JsonView::Text("core"@), JsonView::Text("software"@)]),
        )
        .value("rootElement"@, JsonView::Array(text_items(roots)))
        .value("spdxId"@, JsonView::Text(namespace + "/Document"@))
        .value("type"@, JsonView::Text("SpdxDocument"@))
}

proof fn document_slot(name: Seq<char>, namespace: Seq<char>, roots: Seq<Seq<char>>, key: Seq<char>)
    ensures
        slot(document_members(name, namespace, roots).list, key) == filled(
            document_entry(name, namespace, roots, key),
        ),
{
    element_keys();
    let m0 = members();
    let v0 = JsonView::Text(CREATION_INFO@);
    let m1 = m0.value("creationInfo"@, v0);
    slot_of_value(m0, "creationInfo"@, v0, key);
    let v1 = JsonView::Text(name);
    let m2 = m1.value("name"@, v1);
    slot_of_value(m1, "name"@, v1, key);
    let v2 = JsonView::Array(seq![JsonView::Text("core"@), JsonView::Text("software"@)]);
    let m3 = m2.value("profileConformance"@, v2);
    slot_of_value(m2, "profileConformance"@, v2, key);
    let v3 = JsonView::Array(text_items(roots));
    let m4 = m3.value("rootElement"@, v3);
    slot_of_value(m3, "rootElement"@, v3, key);
    let v4 = JsonView::Text(namespace + "/Document"@);
    let m5 = m4.value("spdxId"@, v4);
    slot_of_value(m4, "spdxId"@, v4, key);
    let v5 = JsonView::Text("SpdxDocument"@);
    slot_of_value(m5, "type"@, v5, key);
}

proof fn document_reads(name: Seq<char>, namespace: Seq<char>, roots: Seq<Seq<char>>)
    ensures
        record_holds(
            document_element(name, namespace, roots),
            element_fields(),
            |key: Seq<char>| document_entry(name, namespace, roots, key),
        ),
{
    let entry = |key: Seq<char>| document_entry(name, namespace, roots, key);
    let m = document_members(name, namespace, roots);
    assert(document_element(name, namespace, roots) == m.done());
    element_shapes();
    texts_decode(roots);
    reveal_with_fuel(decoded, 2);
    assert forall|key: Seq<char>| slot(m.list, key) == filled(#[trigger] entry(key)) by {
        document_slot(name, namespace, roots, key);
    }
    element_names_differ();
    written_records_read(m, element_fields(), entry);
}

/// The hashes whose algorithms SPDX 3 can name, as they are.
pub open spec fn kept_hash(hash: HashView) -> Option<HashView> {
    if algorithm_of(hash.algorithm) is Some {
        Some(hash)
    } else {
        None
    }
}

proof fn hash_reads(hash: HashView)
    requires
        hash_item(hash) is Some,
    ensures
        decoded(hash_item(hash)->0, integrity_shape()) is Some,
        integrity_hash(decoded(hash_item(hash)->0, integrity_shape())->0) == kept_hash(hash),
{
    reveal_strlit("type");
    reveal_strlit("algorithm");
    reveal_strlit("hashValue");
    assert("type"@.len() == 4 && "algorithm"@.len() == 9 && "hashValue"@.len() == 9);
    assert("algorithm"@[0] == 'a' && "hashValue"@[0] == 'h');
    let algorithm = algorithm_of(hash.algorithm)->0;
    algorithm_names_read_back(hash.algorithm);
    let fields = text_field("type", text_field("algorithm", text_field("hashValue", Fields::End)));
    let a = JsonView::Text(algorithm);
    let b = JsonView::Text(hash.value);
    let c = JsonView::Text("Hash"@);
    let one = members().value("algorithm"@, a);
    let two = one.value("hashValue"@, b);
    let m = two.value("type"@, c);
    slot_of_value(members(), "algorithm"@, a, "type"@);
    slot_of_value(members(), "algorithm"@, a, "algorithm"@);
    slot_of_value(members(), "algorithm"@, a, "hashValue"@);
    slot_of_value(one, "hashValue"@, b, "type"@);
    slot_of_value(one, "hashValue"@, b, "algorithm"@);
    slot_of_value(one, "hashValue"@, b, "hashValue"@);
    slot_of_value(two, "type"@, c, "type"@);
    slot_of_value(two, "type"@, c, "algorithm"@);
    slot_of_value(two, "type"@, c, "hashValue"@);
    reveal_with_fuel(fields_fit, 4);
    reveal_with_fuel(shape_of, 4);
    reveal_with_fuel(decoded, 2);
    record_field(m, fields, "type"@);
    record_field(m, fields, "algorithm"@);
    record_field(m, fields, "hashValue"@);
}

/// The hashes of the first `n` that are written read as they are kept.
proof fn hashes_decode(hashes: Seq<HashView>)
    ensures
        ({
            let items = filter_mapped(hashes, |h: HashView| hash_item(h));
            let read = items.map_values(|item: JsonView| decoded(item, integrity_shape())->0);
            &&& forall|i: int|
                0 <= i < items.len() ==> decoded(#[trigger] items[i], integrity_shape()) is Some
            &&& filter_mapped(read, |integrity: JsonView| integrity_hash(integrity))
                == filter_mapped(hashes, |h: HashView| kept_hash(h))
        }),
    decreases hashes.len(),
{
    let write = |h: HashView| hash_item(h);
    let keep = |h: HashView| kept_hash(h);
    let back = |integrity: JsonView| integrity_hash(integrity);
    let decode = |item: JsonView| decoded(item, integrity_shape())->0;
    let items = filter_mapped(hashes, write);
    let read = items.map_values(decode);
    if hashes.len() == 0 {
        assert(read =~= Seq::empty());
    } else {
        let head = hashes.drop_last();
        hashes_decode(head);
        let before = filter_mapped(head, write);
        if hash_item(hashes.last()) is Some {
            hash_reads(hashes.last());
            assert(items.drop_last() =~= before);
            assert(read.drop_last() =~= before.map_values(decode));
            assert forall|i: int| 0 <= i < items.len() implies decoded(
                #[trigger] items[i],
                integrity_shape(),
            ) is Some by {
                if i < before.len() {
                    assert(items[i] == before[i]);
                }
            }
        }
    }
}

proof fn hashes_read(component: ComponentView)
    ensures
        ({
            let r = decoded(
                JsonView::Array(hash_list(component)),
                Shape::List(Box::new(integrity_shape())),
            );
            &&& r is Some
            &&& r->0 is Array
            &&& filter_mapped(r->0.items(), |integrity: JsonView| integrity_hash(integrity))
                == filter_mapped(component.hashes, |h: HashView| kept_hash(h))
        }),
{
    hashes_decode(component.hashes);
    lists_decode(hash_list(component), integrity_shape());
}

proof fn authors_read(component: ComponentView, namespace: Seq<char>)
    ensures
        match author_json(component, namespace) {
            Some(value) => decoded(value, list_of(Shape::Text)) == Some(value) && value.texts()
                == seq![opt_iri(namespace, component.author)->0],
            None => component.author is None,
        },
{
    if let Some(agent) = opt_iri(namespace, component.author) {
        let one = seq![agent];
        texts_decode(one);
        assert(text_items(one) =~= seq![JsonView::Text(agent)]);
    }
}

spec fn package_entry(
    component: ComponentView,
    iri: Seq<char>,
    namespace: Seq<char>,
    key: Seq<char>,
) -> Option<JsonView> {
    if key == "creationInfo"@ {
        Some(JsonView::Text(CREATION_INFO@))
    } else if key == "description"@ {
        text_json(component.description)
    } else if key == "name"@ {
        Some(JsonView::Text(component.name))
    } else if key == "originatedBy"@ {
        author_json(component, namespace)
    } else if key == "software_copyrightText"@ {
        text_json(component.copyright)
    } else if key == "software_packageUrl"@ {
        text_json(component.purl)
    } else if key == "software_packageVersion"@ {
        text_json(component.version)
    } else if key == "software_primaryPurpose"@ {
        text_json(purpose_of_kind(component.kind))
    } else if key == "spdxId"@ {
        Some(JsonView::Text(iri))
    } else if key == "suppliedBy"@ {
        text_json(opt_iri(namespace, component.supplier))
    } else if key == "type"@ {
        Some(JsonView::Text("software_Package"@))
    } else if key == "verifiedUsing"@ {
        hashes_json(component)
    } else {
        None
    }
}

spec fn package_members(
    component: ComponentView,
    iri: Seq<char>,
    namespace: Seq<char>,
) -> MembersView {
    members()
        .value("creationInfo"@, JsonView::Text(CREATION_INFO@))
        .opt_value("description"@, text_json(component.description))
        .value("name"@, JsonView::Text(component.name))
        .opt_value("originatedBy"@, author_json(component, namespace))
        .opt_value("software_copyrightText"@, text_json(component.copyright))
        .opt_value("software_packageUrl"@, text_json(component.purl))
        .opt_value("software_packageVersion"@, text_json(component.version))
        .opt_value("software_primaryPurpose"@, text_json(purpose_of_kind(component.kind)))
        .value("spdxId"@, JsonView::Text(iri))
        .opt_value("suppliedBy"@, text_json(opt_iri(namespace, component.supplier)))
        .value("type"@, JsonView::Text("software_Package"@))
        .opt_value("verifiedUsing"@, hashes_json(component))
}

proof fn package_slot(
    component: ComponentView,
    iri: Seq<char>,
    namespace: Seq<char>,
    key: Seq<char>,
)
    ensures
        slot(package_members(component, iri, namespace).list, key) == filled(
            package_entry(component, iri, namespace, key),
        ),
{
    element_keys();
    let m0 = members();
    let v0 = JsonView::Text(CREATION_INFO@);
    let m1 = m0.value("creationInfo"@, v0);
    slot_of_value(m0, "creationInfo"@, v0, key);
    let v1 = text_json(component.description);
    let m2 = m1.opt_value("description"@, v1);
    slot_of_opt(m1, "description"@, v1, key);
    let v2 = JsonView::Text(component.name);
    let m3 = m2.value("name"@, v2);
    slot_of_value(m2, "name"@, v2, key);
    let v3 = author_json(component, namespace);
    let m4 = m3.opt_value("originatedBy"@, v3);
    slot_of_opt(m3, "originatedBy"@, v3, key);
    let v4 = text_json(component.copyright);
    let m5 = m4.opt_value("software_copyrightText"@, v4);
    slot_of_opt(m4, "software_copyrightText"@, v4, key);
    let v5 = text_json(component.purl);
    let m6 = m5.opt_value("software_packageUrl"@, v5);
    slot_of_opt(m5, "software_packageUrl"@, v5, key);
    let v6 = text_json(component.version);
    let m7 = m6.opt_value("software_packageVersion"@, v6);
    slot_of_opt(m6, "software_packageVersion"@, v6, key);
    let v7 = text_json(purpose_of_kind(component.kind));
    let m8 = m7.opt_value("software_primaryPurpose"@, v7);
    slot_of_opt(m7, "software_primaryPurpose"@, v7, key);
    let v8 = JsonView::Text(iri);
    let m9 = m8.value("spdxId"@, v8);
    slot_of_value(m8, "spdxId"@, v8, key);
    let v9 = text_json(opt_iri(namespace, component.supplier));
    let m10 = m9.opt_value("suppliedBy"@, v9);
    slot_of_opt(m9, "suppliedBy"@, v9, key);
    let v10 = JsonView::Text("software_Package"@);
    let m11 = m10.value("type"@, v10);
    slot_of_value(m10, "type"@, v10, key);
    let v11 = hashes_json(component);
    slot_of_opt(m11, "verifiedUsing"@, v11, key);
}

proof fn package_reads(component: ComponentView, iri: Seq<char>, namespace: Seq<char>)
    ensures
        record_holds(
            package_item(component, iri, namespace),
            element_fields(),
            |key: Seq<char>| package_entry(component, iri, namespace, key),
        ),
{
    let entry = |key: Seq<char>| package_entry(component, iri, namespace, key);
    let m = package_members(component, iri, namespace);
    assert(package_item(component, iri, namespace) == m.done());
    element_shapes();
    hashes_read(component);
    authors_read(component, namespace);
    reveal_with_fuel(decoded, 2);
    assert forall|key: Seq<char>| slot(m.list, key) == filled(#[trigger] entry(key)) by {
        package_slot(component, iri, namespace, key);
    }
    element_names_differ();
    written_records_read(m, element_fields(), entry);
}

// ---------------------------------------------------------------------------
// What is kept
// ---------------------------------------------------------------------------

/// A package as its element alone tells it: by its new name, with the suppliers
/// and authors by theirs. A kind that SPDX 3 cannot express is a library.
pub open spec fn kept_package(
    component: ComponentView,
    iri: Seq<char>,
    namespace: Seq<char>,
) -> ComponentView {
    ComponentView {
        bom_ref: Some(iri),
        kind: if purpose_of_kind(component.kind) is Some {
            component.kind
        } else {
            ComponentKind::Library
        },
        version: component.version,
        purl: component.purl,
        description: non_empty(component.description),
        copyright: non_empty(component.copyright),
        supplier: opt_iri(namespace, component.supplier),
        author: opt_iri(namespace, component.author),
        hashes: filter_mapped(component.hashes, |h: HashView| kept_hash(h)),
        ..ComponentView::of(component.name)
    }
}

/// A package with the license that it declares.
pub open spec fn kept_component(
    component: ComponentView,
    iri: Seq<char>,
    namespace: Seq<char>,
) -> ComponentView {
    ComponentView {
        licenses: match declared_license(component) {
            Some(expression) => seq![license_of(expression)],
            None => Seq::empty(),
        },
        ..kept_package(component, iri, namespace)
    }
}

/// The edges between packages that the document lists, by their new names.
pub open spec fn kept_dependencies(
    dependencies: Seq<DependencyView>,
    ids: IdentifiersView,
) -> Seq<DependencyView>
    decreases dependencies.len(),
{
    if dependencies.len() == 0 {
        Seq::empty()
    } else {
        let before = kept_dependencies(dependencies.drop_last(), ids);
        let targets = targets_of(ids, dependencies.last());
        match ids.name_of(dependencies.last().bom_ref) {
            Some(from) => if targets.len() == 0 {
                before
            } else {
                with_edges(before, from, targets)
            },
            None => before,
        }
    }
}

/// What is kept of a document. The first package is what it is about.
pub open spec fn kept_doc(doc: SbomDocView) -> SbomDocView {
    let ids = names_of(doc);
    let namespace = namespace_of(doc);
    let all = all_components(doc).map_values(
        |c: ComponentView| kept_component(c, ids.label_of(c), namespace),
    );
    SbomDocView {
        spec: Some(SpecOriginView { family: FAMILY@, version: SPEC_VERSION@ }),
        timestamp: Some(created_of(doc)),
        subject: if all.len() == 0 {
            None
        } else {
            Some(all[0])
        },
        components: if all.len() == 0 {
            Seq::empty()
        } else {
            all.skip(1)
        },
        dependencies: kept_dependencies(doc.dependencies, ids),
        ..SbomDocView::empty()
    }
}

// ---------------------------------------------------------------------------
// What each element is
// ---------------------------------------------------------------------------

spec fn reading() -> spec_fn(JsonView) -> JsonView {
    |item: JsonView| decoded(item, element_shape())->0
}

proof fn type_names()
    ensures
        "CreationInfo"@.len() == 12 && "CreationInfo"@[0] == 'C',
        "Agent"@.len() == 5,
        "software_Package"@.len() == 16,
        "simplelicensing_LicenseExpression"@.len() == 33,
        "Relationship"@.len() == 12 && "Relationship"@[0] == 'R',
        "SpdxDocument"@.len() == 12 && "SpdxDocument"@[0] == 'S',
        "dependsOn"@.len() == 9 && "dependsOn"@[0] == 'd',
        "hasDeclaredLicense"@.len() == 18,
        "Annotation"@.len() == 10,
{
    reveal_strlit("Annotation");
    reveal_strlit("CreationInfo");
    reveal_strlit("Agent");
    reveal_strlit("software_Package");
    reveal_strlit("simplelicensing_LicenseExpression");
    reveal_strlit("Relationship");
    reveal_strlit("SpdxDocument");
    reveal_strlit("dependsOn");
    reveal_strlit("hasDeclaredLicense");
}

/// An element that reading the graph passes over, but for its type.
spec fn plain_element(e: JsonView, kind: Seq<char>) -> bool {
    e is Object && e.get("type"@).text() == Some(kind)
}

proof fn creation_is(namespace: Seq<char>, created: Seq<char>)
    ensures
        ({
            let item = creation_item(namespace, created);
            let e = reading()(item);
            &&& decoded(item, element_shape()) is Some
            &&& plain_element(e, "CreationInfo"@)
            &&& e.get("specVersion"@).text() == Some(SPEC_VERSION@)
            &&& e.get("created"@).text() == Some(created)
        }),
{
    creation_reads(namespace, created);
    element_shapes();
    element_keys();
    let e = reading()(creation_item(namespace, created));
    reveal_with_fuel(decoded, 2);
    assert(e.get("type"@) == e.get("type"@));
    assert(e.get("specVersion"@) == e.get("specVersion"@));
    assert(e.get("created"@) == e.get("created"@));
}

proof fn agent_is(iri: Seq<char>, name: Seq<char>)
    ensures
        decoded(agent_item(iri, name), element_shape()) is Some,
        plain_element(reading()(agent_item(iri, name)), "Agent"@),
{
    agent_reads(iri, name);
    element_shapes();
    element_keys();
    let e = reading()(agent_item(iri, name));
    reveal_with_fuel(decoded, 2);
    assert(e.get("type"@) == e.get("type"@));
}

proof fn license_is(iri: Seq<char>, expression: Seq<char>)
    ensures
        ({
            let item = license_element(iri, expression);
            let e = reading()(item);
            &&& decoded(item, element_shape()) is Some
            &&& plain_element(e, "simplelicensing_LicenseExpression"@)
            &&& license_of_element(e) == Some((iri, expression))
        }),
{
    license_reads(iri, expression);
    element_shapes();
    element_keys();
    let e = reading()(license_element(iri, expression));
    reveal_with_fuel(decoded, 2);
    assert(e.get("type"@) == e.get("type"@));
    assert(e.get("spdxId"@) == e.get("spdxId"@));
    assert(e.get("simplelicensing_licenseExpression"@) == e.get(
        "simplelicensing_licenseExpression"@,
    ));
}

proof fn relationship_is(iri: Seq<char>, from: Seq<char>, kind: Seq<char>, to: Seq<Seq<char>>)
    ensures
        ({
            let item = relationship_item(iri, from, kind, to);
            let e = reading()(item);
            &&& decoded(item, element_shape()) is Some
            &&& plain_element(e, "Relationship"@)
            &&& e.get("from"@).text() == Some(from)
            &&& e.get("relationshipType"@).text() == Some(kind)
            &&& e.get("to"@).texts() == to
        }),
{
    relationship_reads(iri, from, kind, to);
    element_shapes();
    element_keys();
    texts_decode(to);
    let e = reading()(relationship_item(iri, from, kind, to));
    reveal_with_fuel(decoded, 2);
    assert(e.get("type"@) == e.get("type"@));
    assert(e.get("from"@) == e.get("from"@));
    assert(e.get("relationshipType"@) == e.get("relationshipType"@));
    assert(e.get("to"@) == e.get("to"@));
}

proof fn document_is(name: Seq<char>, namespace: Seq<char>, roots: Seq<Seq<char>>)
    ensures
        ({
            let item = document_element(name, namespace, roots);
            let e = reading()(item);
            &&& decoded(item, element_shape()) is Some
            &&& plain_element(e, "SpdxDocument"@)
            &&& e.get("rootElement"@).texts() == roots
        }),
{
    document_reads(name, namespace, roots);
    element_shapes();
    element_keys();
    texts_decode(roots);
    let e = reading()(document_element(name, namespace, roots));
    reveal_with_fuel(decoded, 2);
    assert(e.get("type"@) == e.get("type"@));
    assert(e.get("rootElement"@) == e.get("rootElement"@));
}

proof fn package_is(component: ComponentView, iri: Seq<char>, namespace: Seq<char>)
    ensures
        ({
            let item = package_item(component, iri, namespace);
            let e = reading()(item);
            &&& decoded(item, element_shape()) is Some
            &&& plain_element(e, "software_Package"@)
            &&& id_of(e) == Some(iri)
            &&& package_component(e) == kept_package(component, iri, namespace)
        }),
{
    package_reads(component, iri, namespace);
    element_shapes();
    element_keys();
    let e = reading()(package_item(component, iri, namespace));
    reveal_with_fuel(decoded, 2);
    reveal_with_fuel(default_of, 2);
    assert(e.get("type"@) == e.get("type"@));
    assert(e.get("spdxId"@) == e.get("spdxId"@));
    assert(e.get("@id"@) == e.get("@id"@));
    assert(e.get("name"@) == e.get("name"@));
    assert(e.get("description"@) == e.get("description"@));
    assert(e.get("summary"@) == e.get("summary"@));
    assert(e.get("software_packageVersion"@) == e.get("software_packageVersion"@));
    assert(e.get("software_packageUrl"@) == e.get("software_packageUrl"@));
    assert(e.get("software_copyrightText"@) == e.get("software_copyrightText"@));
    assert(e.get("software_primaryPurpose"@) == e.get("software_primaryPurpose"@));
    assert(e.get("verifiedUsing"@) == e.get("verifiedUsing"@));
    assert(e.get("originatedBy"@) == e.get("originatedBy"@));
    assert(e.get("suppliedBy"@) == e.get("suppliedBy"@));
    purposes_read_back(component.kind);
    hashes_read(component);
    authors_read(component, namespace);
    let kept = kept_package(component, iri, namespace);
    let made = package_component(e);
    assert(made.hashes =~= kept.hashes) by {
        if hash_list(component).len() == 0 {
            let none = Seq::<JsonView>::empty();
            assert(hash_list(component) =~= none);
            lists_decode(none, integrity_shape());
            assert(none.map_values(|item: JsonView| decoded(item, integrity_shape())->0)
                =~= none);
        }
    }
    assert(made.author == kept.author) by {
        if component.author is None {
            assert(texts_of(Seq::<JsonView>::empty()) =~= Seq::empty());
        }
    }
}

// ---------------------------------------------------------------------------
// Packages of the graph
// ---------------------------------------------------------------------------

spec fn no_package(elements: Seq<JsonView>) -> bool {
    forall|i: int| 0 <= i < elements.len() ==> !is_type(#[trigger] elements[i], "software_Package"@)
}

proof fn packages_pass_over(a: Seq<JsonView>, b: Seq<JsonView>)
    requires
        no_package(b),
    ensures
        packages_in(a + b) == packages_in(a),
    decreases b.len(),
{
    if b.len() == 0 {
        assert(a + b =~= a);
    } else {
        let fewer = b.drop_last();
        assert forall|i: int| 0 <= i < fewer.len() implies !is_type(
            #[trigger] fewer[i],
            "software_Package"@,
        ) by {
            assert(fewer[i] == b[i]);
        }
        packages_pass_over(a, fewer);
        assert((a + b).drop_last() =~= a + fewer);
        assert(!is_type(b[b.len() - 1], "software_Package"@));
        assert((a + b).last() == b.last());
    }
}

spec fn package_items(
    all: Seq<ComponentView>,
    ids: IdentifiersView,
    namespace: Seq<char>,
) -> Seq<JsonView> {
    all.map_values(|c: ComponentView| package_item(c, ids.label_of(c), namespace))
}

spec fn package_pairs(
    all: Seq<ComponentView>,
    ids: IdentifiersView,
    namespace: Seq<char>,
) -> Seq<(Seq<char>, ComponentView)> {
    all.map_values(
        |c: ComponentView| (ids.label_of(c), kept_package(c, ids.label_of(c), namespace)),
    )
}

/// Whether no two components have one name.
spec fn labels_differ(all: Seq<ComponentView>, ids: IdentifiersView) -> bool {
    forall|i: int, j: int|
        0 <= i < j < all.len() ==> ids.label_of(#[trigger] all[i]) != ids.label_of(
            #[trigger] all[j],
        )
}

proof fn absent_keys<V>(pairs: Seq<(Seq<char>, V)>, key: Seq<char>)
    requires
        forall|i: int| 0 <= i < pairs.len() ==> (#[trigger] pairs[i]).0 != key,
    ensures
        key_at(pairs, key) == pairs.len(),
{
    key_at_props(pairs, key);
}

proof fn packages_are_read(
    a: Seq<JsonView>,
    all: Seq<ComponentView>,
    ids: IdentifiersView,
    namespace: Seq<char>,
)
    requires
        packages_in(a).len() == 0,
        labels_differ(all, ids),
    ensures
        packages_in(a + package_items(all, ids, namespace).map_values(reading())) == package_pairs(
            all,
            ids,
            namespace,
        ),
    decreases all.len(),
{
    let read = package_items(all, ids, namespace).map_values(reading());
    let pairs = package_pairs(all, ids, namespace);
    if all.len() == 0 {
        assert(a + read =~= a);
        assert(pairs =~= Seq::empty());
    } else {
        let head = all.drop_last();
        let last = all.last();
        let label = ids.label_of(last);
        assert(labels_differ(head, ids)) by {
            assert forall|i: int, j: int| 0 <= i < j < head.len() implies ids.label_of(
                #[trigger] head[i],
            ) != ids.label_of(#[trigger] head[j]) by {
                assert(ids.label_of(all[i]) != ids.label_of(all[j]));
            }
        }
        packages_are_read(a, head, ids, namespace);
        package_is(last, label, namespace);
        let before = package_items(head, ids, namespace).map_values(reading());
        assert((a + read).drop_last() =~= a + before);
        let fewer = package_pairs(head, ids, namespace);
        assert forall|i: int| 0 <= i < fewer.len() implies (#[trigger] fewer[i]).0 != label by {
            assert(ids.label_of(all[i]) != ids.label_of(all[all.len() - 1]));
        }
        absent_keys(fewer, label);
        assert(pairs =~= fewer.push((label, kept_package(last, label, namespace))));
    }
}

// ---------------------------------------------------------------------------
// Licenses of the graph
// ---------------------------------------------------------------------------

spec fn no_license(elements: Seq<JsonView>) -> bool {
    forall|i: int|
        0 <= i < elements.len() ==> !is_type(
            #[trigger] elements[i],
            "simplelicensing_LicenseExpression"@,
        )
}

proof fn licenses_pass_over(a: Seq<JsonView>, b: Seq<JsonView>)
    requires
        no_license(b),
    ensures
        licenses_in(a + b) == licenses_in(a),
    decreases b.len(),
{
    if b.len() == 0 {
        assert(a + b =~= a);
    } else {
        let fewer = b.drop_last();
        assert forall|i: int| 0 <= i < fewer.len() implies !is_type(
            #[trigger] fewer[i],
            "simplelicensing_LicenseExpression"@,
        ) by {
            assert(fewer[i] == b[i]);
        }
        licenses_pass_over(a, fewer);
        assert((a + b).drop_last() =~= a + fewer);
        assert(!is_type(b[b.len() - 1], "simplelicensing_LicenseExpression"@));
        assert((a + b).last() == b.last());
    }
}

spec fn license_iri(namespace: Seq<char>, i: int) -> Seq<char> {
    numbered(namespace, "License"@, i as nat)
}

proof fn license_iris_differ(namespace: Seq<char>, i: int, j: int)
    requires
        0 <= i,
        0 <= j,
        i != j,
    ensures
        license_iri(namespace, i) != license_iri(namespace, j),
{
    let head = namespace + "/"@ + "License"@ + "-"@;
    let a = license_iri(namespace, i);
    let b = license_iri(namespace, j);
    let n = head.len() as int;
    decimal_reads_back(i as nat);
    decimal_reads_back(j as nat);
    assert(a.skip(n) =~= decimal(i as nat));
    assert(b.skip(n) =~= decimal(j as nat));
}

/// The licenses of the first components, by the names of their elements.
spec fn license_pairs(all: Seq<ComponentView>, namespace: Seq<char>) -> Seq<
    (Seq<char>, Seq<char>),
>
    decreases all.len(),
{
    if all.len() == 0 {
        Seq::empty()
    } else {
        let before = license_pairs(all.drop_last(), namespace);
        match declared_license(all.last()) {
            Some(expression) => before.push((license_iri(namespace, all.len() - 1), expression)),
            None => before,
        }
    }
}

proof fn license_pairs_are_numbered(all: Seq<ComponentView>, namespace: Seq<char>, n: int)
    requires
        all.len() <= n,
    ensures
        forall|k: int|
            0 <= k < license_pairs(all, namespace).len() ==> (#[trigger] license_pairs(
                all,
                namespace,
            )[k]).0 != license_iri(namespace, n),
    decreases all.len(),
{
    if all.len() > 0 {
        license_pairs_are_numbered(all.drop_last(), namespace, n);
        license_iris_differ(namespace, all.len() - 1, n);
        let before = license_pairs(all.drop_last(), namespace);
        let pairs = license_pairs(all, namespace);
        assert forall|k: int| 0 <= k < pairs.len() implies (#[trigger] pairs[k]).0 != license_iri(
            namespace,
            n,
        ) by {
            if k < before.len() {
                assert(pairs[k] == before[k]);
            }
        }
    }
}

proof fn license_is_looked_up(all: Seq<ComponentView>, namespace: Seq<char>, i: int)
    requires
        0 <= i < all.len(),
    ensures
        lookup(license_pairs(all, namespace), license_iri(namespace, i)) == declared_license(
            all[i],
        ),
    decreases all.len(),
{
    let head = all.drop_last();
    let before = license_pairs(head, namespace);
    let key = license_iri(namespace, i);
    if i < all.len() - 1 {
        license_is_looked_up(head, namespace, i);
        assert(head[i] == all[i]);
        license_iris_differ(namespace, i, all.len() - 1);
    } else {
        license_pairs_are_numbered(head, namespace, i);
        absent_keys(before, key);
    }
    if let Some(expression) = declared_license(all.last()) {
        lookup_push(before, (license_iri(namespace, all.len() - 1), expression), key);
    }
}

proof fn licenses_are_read(a: Seq<JsonView>, all: Seq<ComponentView>, namespace: Seq<char>)
    requires
        licenses_in(a).len() == 0,
    ensures
        licenses_in(a + license_items(all, namespace).map_values(reading())) == license_pairs(
            all,
            namespace,
        ),
    decreases all.len(),
{
    let read = license_items(all, namespace).map_values(reading());
    if all.len() == 0 {
        assert(a + read =~= a);
        assert(licenses_in(a) =~= Seq::empty());
    } else {
        let head = all.drop_last();
        let n = all.len() - 1;
        licenses_are_read(a, head, namespace);
        let before = license_items(head, namespace).map_values(reading());
        match declared_license(all.last()) {
            Some(expression) => {
                let iri = license_iri(namespace, n);
                license_is(iri, expression);
                assert(license_items(all, namespace) == license_items(head, namespace).push(
                    license_element(iri, expression),
                ));
                assert((a + read).drop_last() =~= a + before);
                assert((a + read).last() == reading()(license_element(iri, expression)));
                license_pairs_are_numbered(head, namespace, n);
                absent_keys(license_pairs(head, namespace), iri);
            },
            None => {
                assert(read =~= before);
            },
        }
    }
}

// ---------------------------------------------------------------------------
// Relationships of the graph
// ---------------------------------------------------------------------------

spec fn no_link(elements: Seq<JsonView>) -> bool {
    forall|i: int|
        0 <= i < elements.len() ==> !is_type(#[trigger] elements[i], "Relationship"@) && !is_type(
            elements[i],
            "SpdxDocument"@,
        )
}

spec fn no_note(elements: Seq<JsonView>) -> bool {
    forall|i: int| 0 <= i < elements.len() ==> !is_type(#[trigger] elements[i], "Annotation"@)
}

proof fn notes_pass_over(a: Seq<JsonView>, b: Seq<JsonView>)
    requires
        no_note(a),
        no_note(b),
    ensures
        no_note(a + b),
{
    assert forall|i: int| 0 <= i < (a + b).len() implies !is_type(
        #[trigger] (a + b)[i],
        "Annotation"@,
    ) by {
        if i < a.len() {
            assert((a + b)[i] == a[i]);
        } else {
            assert((a + b)[i] == b[i - a.len()]);
        }
    }
}

proof fn links_pass_over(
    packages: Seq<(Seq<char>, ComponentView)>,
    a: Seq<JsonView>,
    b: Seq<JsonView>,
    licenses: Seq<(Seq<char>, Seq<char>)>,
)
    requires
        no_link(b),
    ensures
        links_of(packages, a + b, licenses) == links_of(packages, a, licenses),
    decreases b.len(),
{
    if b.len() == 0 {
        assert(a + b =~= a);
    } else {
        let fewer = b.drop_last();
        assert forall|i: int| 0 <= i < fewer.len() implies !is_type(
            #[trigger] fewer[i],
            "Relationship"@,
        ) && !is_type(fewer[i], "SpdxDocument"@) by {
            assert(fewer[i] == b[i]);
        }
        links_pass_over(packages, a, fewer, licenses);
        assert((a + b).drop_last() =~= a + fewer);
        assert(!is_type(b[b.len() - 1], "Relationship"@));
        assert((a + b).last() == b.last());
    }
}

/// The packages once the first `n` have their licenses.
spec fn licensed_pairs(
    all: Seq<ComponentView>,
    ids: IdentifiersView,
    namespace: Seq<char>,
    n: int,
) -> Seq<(Seq<char>, ComponentView)> {
    Seq::new(
        all.len(),
        |i: int|
            (
                ids.label_of(all[i]),
                if i < n {
                    kept_component(all[i], ids.label_of(all[i]), namespace)
                } else {
                    kept_package(all[i], ids.label_of(all[i]), namespace)
                },
            ),
    )
}

proof fn one_is_licensed(
    all: Seq<ComponentView>,
    ids: IdentifiersView,
    namespace: Seq<char>,
    n: int,
)
    requires
        0 <= n < all.len(),
        labels_differ(all, ids),
        declared_license(all[n]) is Some,
    ensures
        licensed(
            licensed_pairs(all, ids, namespace, n),
            ids.label_of(all[n]),
            seq![license_of(declared_license(all[n])->0)],
        ) == licensed_pairs(all, ids, namespace, n + 1),
{
    let pairs = licensed_pairs(all, ids, namespace, n);
    let label = ids.label_of(all[n]);
    key_at_props(pairs, label);
    let at = key_at(pairs, label);
    if at < n {
        assert(ids.label_of(all[at]) != ids.label_of(all[n]));
    }
    if at > n {
        assert(pairs[n].0 == label);
    }
    assert(at == n);
    let found = seq![license_of(declared_license(all[n])->0)];
    assert(licensed(pairs, label, found) =~= licensed_pairs(all, ids, namespace, n + 1));
}

proof fn license_links_are_read(
    packages: Seq<(Seq<char>, ComponentView)>,
    a: Seq<JsonView>,
    all: Seq<ComponentView>,
    ids: IdentifiersView,
    namespace: Seq<char>,
    n: int,
)
    requires
        0 <= n <= all.len(),
        labels_differ(all, ids),
        links_of(packages, a, license_pairs(all, namespace)) == (LinksView {
            packages: package_pairs(all, ids, namespace),
            dependencies: Seq::empty(),
            roots: Seq::empty(),
            ignored: 0,
        }),
    ensures
        links_of(
            packages,
            a + license_links(all.take(n), ids, namespace).map_values(reading()),
            license_pairs(all, namespace),
        ) == (LinksView {
            packages: licensed_pairs(all, ids, namespace, n),
            dependencies: Seq::empty(),
            roots: Seq::empty(),
            ignored: 0,
        }),
    decreases n,
{
    let some = all.take(n);
    let read = license_links(some, ids, namespace).map_values(reading());
    let licenses = license_pairs(all, namespace);
    if n == 0 {
        assert(some =~= Seq::empty());
        assert(a + read =~= a);
        assert(licensed_pairs(all, ids, namespace, 0) =~= package_pairs(all, ids, namespace));
    } else {
        license_links_are_read(packages, a, all, ids, namespace, n - 1);
        let c = all[n - 1];
        assert(some.drop_last() =~= all.take(n - 1));
        assert(some.last() == c);
        let before = license_links(all.take(n - 1), ids, namespace).map_values(reading());
        let state = LinksView {
            packages: licensed_pairs(all, ids, namespace, n - 1),
            dependencies: Seq::empty(),
            roots: Seq::empty(),
            ignored: 0,
        };
        match declared_license(c) {
            Some(expression) => {
                type_names();
                let target = license_iri(namespace, n - 1);
                let item = relationship_item(
                    numbered(namespace, "Relationship-license"@, (n - 1) as nat),
                    ids.label_of(c),
                    "hasDeclaredLicense"@,
                    seq![target],
                );
                relationship_is(
                    numbered(namespace, "Relationship-license"@, (n - 1) as nat),
                    ids.label_of(c),
                    "hasDeclaredLicense"@,
                    seq![target],
                );
                assert((a + read).drop_last() =~= a + before);
                assert((a + read).last() == reading()(item));
                license_is_looked_up(all, namespace, n - 1);
                let find = |t: Seq<char>| license_at(licenses, t);
                let to = seq![target];
                assert(to.drop_last() =~= Seq::empty());
                assert(filter_mapped(to.drop_last(), find) =~= Seq::empty());
                assert(filter_mapped(to, find) =~= seq![license_of(expression)]);
                one_is_licensed(all, ids, namespace, n - 1);
                assert(linked(state, reading()(item), licenses).packages == licensed_pairs(
                    all,
                    ids,
                    namespace,
                    n,
                ));
            },
            None => {
                assert(read =~= before);
                assert(licensed_pairs(all, ids, namespace, n) =~= licensed_pairs(
                    all,
                    ids,
                    namespace,
                    n - 1,
                ));
            },
        }
    }
}

proof fn edges_are_read(
    packages: Seq<(Seq<char>, ComponentView)>,
    a: Seq<JsonView>,
    licenses: Seq<(Seq<char>, Seq<char>)>,
    dependencies: Seq<DependencyView>,
    ids: IdentifiersView,
    namespace: Seq<char>,
)
    requires
        links_of(packages, a, licenses).dependencies == Seq::<DependencyView>::empty(),
    ensures
        links_of(
            packages,
            a + depends_items(dependencies, ids, namespace).map_values(reading()),
            licenses,
        ) == (LinksView {
            dependencies: kept_dependencies(dependencies, ids),
            ..links_of(packages, a, licenses)
        }),
    decreases dependencies.len(),
{
    let read = depends_items(dependencies, ids, namespace).map_values(reading());
    if dependencies.len() == 0 {
        assert(a + read =~= a);
    } else {
        let head = dependencies.drop_last();
        edges_are_read(packages, a, licenses, head, ids, namespace);
        let before = depends_items(head, ids, namespace).map_values(reading());
        let targets = targets_of(ids, dependencies.last());
        let index = (dependencies.len() - 1) as nat;
        match ids.name_of(dependencies.last().bom_ref) {
            Some(from) => {
                if targets.len() == 0 {
                    assert(read =~= before);
                } else {
                    type_names();
                    let iri = numbered(namespace, "Relationship-depends"@, index);
                    relationship_is(iri, from, "dependsOn"@, targets);
                    assert((a + read).drop_last() =~= a + before);
                    assert((a + read).last() == reading()(
                        relationship_item(iri, from, "dependsOn"@, targets),
                    ));
                }
            },
            None => {
                assert(read =~= before);
            },
        }
    }
}

// ---------------------------------------------------------------------------
// The graph
// ---------------------------------------------------------------------------

/// Whether all of these can be read, as elements of one type.
spec fn all_read(items: Seq<JsonView>, kind: Seq<char>) -> bool {
    forall|i: int|
        0 <= i < items.len() ==> decoded(#[trigger] items[i], element_shape()) is Some
            && plain_element(reading()(items[i]), kind)
}

proof fn licenses_all_read(all: Seq<ComponentView>, namespace: Seq<char>)
    ensures
        all_read(license_items(all, namespace), "simplelicensing_LicenseExpression"@),
    decreases all.len(),
{
    if all.len() > 0 {
        let head = license_items(all.drop_last(), namespace);
        let items = license_items(all, namespace);
        licenses_all_read(all.drop_last(), namespace);
        if let Some(expression) = declared_license(all.last()) {
            let iri = license_iri(namespace, all.len() - 1);
            license_is(iri, expression);
            assert(items == head.push(license_element(iri, expression)));
        }
        assert forall|i: int| 0 <= i < items.len() implies decoded(
            #[trigger] items[i],
            element_shape(),
        ) is Some && plain_element(
            reading()(items[i]),
            "simplelicensing_LicenseExpression"@,
        ) by {
            if i < head.len() {
                assert(items[i] == head[i]);
            }
        }
    }
}

proof fn license_links_all_read(
    all: Seq<ComponentView>,
    ids: IdentifiersView,
    namespace: Seq<char>,
)
    ensures
        all_read(license_links(all, ids, namespace), "Relationship"@),
    decreases all.len(),
{
    if all.len() > 0 {
        let head = license_links(all.drop_last(), ids, namespace);
        let items = license_links(all, ids, namespace);
        let index = (all.len() - 1) as nat;
        license_links_all_read(all.drop_last(), ids, namespace);
        if declared_license(all.last()) is Some {
            relationship_is(
                numbered(namespace, "Relationship-license"@, index),
                ids.label_of(all.last()),
                "hasDeclaredLicense"@,
                seq![numbered(namespace, "License"@, index)],
            );
        }
        assert forall|i: int| 0 <= i < items.len() implies decoded(
            #[trigger] items[i],
            element_shape(),
        ) is Some && plain_element(reading()(items[i]), "Relationship"@) by {
            if i < head.len() {
                assert(items[i] == head[i]);
            }
        }
    }
}

proof fn edges_all_read(
    dependencies: Seq<DependencyView>,
    ids: IdentifiersView,
    namespace: Seq<char>,
)
    ensures
        all_read(depends_items(dependencies, ids, namespace), "Relationship"@),
    decreases dependencies.len(),
{
    if dependencies.len() > 0 {
        let head = depends_items(dependencies.drop_last(), ids, namespace);
        let items = depends_items(dependencies, ids, namespace);
        let index = (dependencies.len() - 1) as nat;
        let targets = targets_of(ids, dependencies.last());
        edges_all_read(dependencies.drop_last(), ids, namespace);
        if let Some(from) = ids.name_of(dependencies.last().bom_ref) {
            relationship_is(
                numbered(namespace, "Relationship-depends"@, index),
                from,
                "dependsOn"@,
                targets,
            );
        }
        assert forall|i: int| 0 <= i < items.len() implies decoded(
            #[trigger] items[i],
            element_shape(),
        ) is Some && plain_element(reading()(items[i]), "Relationship"@) by {
            if i < head.len() {
                assert(items[i] == head[i]);
            }
        }
    }
}

spec fn agent_items(all: Seq<ComponentView>, namespace: Seq<char>) -> Seq<JsonView> {
    agents_of(all).map_values(|name: Seq<char>| agent_item(agent_iri(namespace, name), name))
}

proof fn agents_all_read(all: Seq<ComponentView>, namespace: Seq<char>)
    ensures
        all_read(agent_items(all, namespace), "Agent"@),
{
    let items = agent_items(all, namespace);
    assert forall|i: int| 0 <= i < items.len() implies decoded(
        #[trigger] items[i],
        element_shape(),
    ) is Some && plain_element(reading()(items[i]), "Agent"@) by {
        let name = agents_of(all)[i];
        agent_is(agent_iri(namespace, name), name);
    }
}

proof fn packages_all_read(
    all: Seq<ComponentView>,
    ids: IdentifiersView,
    namespace: Seq<char>,
)
    ensures
        all_read(package_items(all, ids, namespace), "software_Package"@),
{
    let items = package_items(all, ids, namespace);
    assert forall|i: int| 0 <= i < items.len() implies decoded(
        #[trigger] items[i],
        element_shape(),
    ) is Some && plain_element(reading()(items[i]), "software_Package"@) by {
        package_is(all[i], ids.label_of(all[i]), namespace);
    }
}

/// Elements of one type are none of another.
proof fn types_exclude(items: Seq<JsonView>, kind: Seq<char>)
    requires
        all_read(items, kind),
    ensures
        kind != "software_Package"@ ==> no_package(items.map_values(reading())),
        kind != "simplelicensing_LicenseExpression"@ ==> no_license(items.map_values(reading())),
        kind != "Relationship"@ && kind != "SpdxDocument"@ ==> no_link(
            items.map_values(reading()),
        ),
        kind != "Annotation"@ ==> no_note(items.map_values(reading())),
{
    let read = items.map_values(reading());
    assert forall|i: int| 0 <= i < read.len() implies plain_element(#[trigger] read[i], kind) by {
        assert(decoded(items[i], element_shape()) is Some);
    }
}

proof fn reads_together(a: Seq<JsonView>, b: Seq<JsonView>)
    ensures
        (a + b).map_values(reading()) == a.map_values(reading()) + b.map_values(reading()),
{
    assert((a + b).map_values(reading()) =~= a.map_values(reading()) + b.map_values(reading()));
}

/// The names of the components of a document, where the source tells them apart.
proof fn sources_are_named_apart(doc: SbomDocView)
    requires
        forall|i: int, j: int|
            0 <= i < j < all_components(doc).len() ==> source_of(
                #[trigger] all_components(doc)[i],
            ) != source_of(#[trigger] all_components(doc)[j]),
    ensures
        labels_differ(all_components(doc), names_of(doc)),
{
    let all = all_components(doc);
    let ids = names_of(doc);
    let start = IdentifiersView::reserving(Seq::empty());
    let prefix = namespace_of(doc) + "/"@;
    assignment_keeps_names_apart(start, all, prefix, "element"@);
    assert forall|i: int, j: int| 0 <= i < j < all.len() implies ids.label_of(#[trigger] all[i])
        != ids.label_of(#[trigger] all[j]) by {
        every_component_is_named(start, all, prefix, "element"@, i);
        every_component_is_named(start, all, prefix, "element"@, j);
        different_sources_have_different_names(ids, source_of(all[i]), source_of(all[j]));
    }
}

/// The packages but the first.
proof fn others_are_the_rest(pairs: Seq<(Seq<char>, ComponentView)>)
    requires
        pairs.len() > 0,
        forall|i: int, j: int|
            0 <= i < j < pairs.len() ==> (#[trigger] pairs[i]).0 != (#[trigger] pairs[j]).0,
    ensures
        others(pairs, Some(pairs[0].0)) == pairs.skip(1).map_values(
            |p: (Seq<char>, ComponentView)| p.1,
        ),
    decreases pairs.len(),
{
    let value = |p: (Seq<char>, ComponentView)| p.1;
    let head = pairs.drop_last();
    if pairs.len() == 1 {
        assert(head =~= Seq::empty());
        assert(others(head, Some(pairs[0].0)) =~= Seq::empty());
        assert(pairs.last() == pairs[0]);
        assert(pairs.skip(1).map_values(value) =~= Seq::empty());
    } else {
        assert forall|i: int, j: int| 0 <= i < j < head.len() implies (#[trigger] head[i]).0 != (
        #[trigger] head[j]).0 by {
            assert(pairs[i].0 != pairs[j].0);
        }
        others_are_the_rest(head);
        assert(head[0] == pairs[0]);
        assert(pairs[0].0 != pairs[pairs.len() - 1].0);
        assert(pairs.skip(1).map_values(value) =~= head.skip(1).map_values(value).push(
            pairs.last().1,
        ));
    }
}

/// The parts of a written graph, in order.
spec fn opening(doc: SbomDocView) -> Seq<JsonView> {
    seq![
        creation_item(namespace_of(doc), created_of(doc)),
        agent_item(namespace_of(doc) + "/Agent-udc"@, WRITER@),
    ]
}

spec fn closing(doc: SbomDocView) -> Seq<JsonView> {
    seq![document_element(title_of(doc, "sbom"@), namespace_of(doc), roots_of(doc))]
}

proof fn graph_is_in_parts(doc: SbomDocView)
    ensures
        graph_items(doc) == opening(doc) + package_items(
            all_components(doc),
            names_of(doc),
            namespace_of(doc),
        ) + agent_items(all_components(doc), namespace_of(doc)) + license_items(
            all_components(doc),
            namespace_of(doc),
        ) + license_links(all_components(doc), names_of(doc), namespace_of(doc)) + depends_items(
            doc.dependencies,
            names_of(doc),
            namespace_of(doc),
        ) + closing(doc),
{
}

/// What reading the elements gathers.
#[verifier::rlimit(40)]
proof fn graph_is_gathered(doc: SbomDocView)
    requires
        labels_differ(all_components(doc), names_of(doc)),
    ensures
        ({
            let graph = graph_items(doc).map_values(reading());
            let all = all_components(doc);
            let ids = names_of(doc);
            let namespace = namespace_of(doc);
            &&& packages_in(graph) == package_pairs(all, ids, namespace)
            &&& licenses_in(graph) == license_pairs(all, namespace)
            &&& links_of(packages_in(graph), graph, licenses_in(graph)) == (LinksView {
                packages: licensed_pairs(all, ids, namespace, all.len() as int),
                dependencies: kept_dependencies(doc.dependencies, ids),
                roots: roots_of(doc),
                ignored: 0,
            })
            &&& forall|i: int|
                0 <= i < graph_items(doc).len() ==> decoded(
                    #[trigger] graph_items(doc)[i],
                    element_shape(),
                ) is Some
            &&& no_note(graph)
            &&& graph.len() >= 3
            &&& graph[0] == reading()(creation_item(namespace, created_of(doc)))
        }),
{
    let all = all_components(doc);
    let ids = names_of(doc);
    let ns = namespace_of(doc);
    type_names();
    graph_is_in_parts(doc);
    let i0 = opening(doc);
    let i1 = package_items(all, ids, ns);
    let i2 = agent_items(all, ns);
    let i3 = license_items(all, ns);
    let i4 = license_links(all, ids, ns);
    let i5 = depends_items(doc.dependencies, ids, ns);
    let i6 = closing(doc);
    let r0 = i0.map_values(reading());
    let r1 = i1.map_values(reading());
    let r2 = i2.map_values(reading());
    let r3 = i3.map_values(reading());
    let r4 = i4.map_values(reading());
    let r5 = i5.map_values(reading());
    let r6 = i6.map_values(reading());
    reads_together(i0, i1);
    reads_together(i0 + i1, i2);
    reads_together(i0 + i1 + i2, i3);
    reads_together(i0 + i1 + i2 + i3, i4);
    reads_together(i0 + i1 + i2 + i3 + i4, i5);
    reads_together(i0 + i1 + i2 + i3 + i4 + i5, i6);
    let graph = graph_items(doc).map_values(reading());
    assert(graph == r0 + r1 + r2 + r3 + r4 + r5 + r6);
    packages_all_read(all, ids, ns);
    agents_all_read(all, ns);
    licenses_all_read(all, ns);
    license_links_all_read(all, ids, ns);
    edges_all_read(doc.dependencies, ids, ns);
    types_exclude(i1, "software_Package"@);
    types_exclude(i2, "Agent"@);
    types_exclude(i3, "simplelicensing_LicenseExpression"@);
    types_exclude(i4, "Relationship"@);
    types_exclude(i5, "Relationship"@);
    creation_is(ns, created_of(doc));
    agent_is(ns + "/Agent-udc"@, WRITER@);
    document_is(title_of(doc, "sbom"@), ns, roots_of(doc));
    assert(r0[0] == reading()(i0[0]) && r0[1] == reading()(i0[1]));
    assert(r6[0] == reading()(i6[0]));
    assert(all_read(i6, "SpdxDocument"@));
    types_exclude(i6, "SpdxDocument"@);
    assert(no_package(r0) && no_license(r0) && no_link(r0) && no_note(r0)) by {
        assert forall|i: int| 0 <= i < r0.len() implies !is_type(
            #[trigger] r0[i],
            "software_Package"@,
        ) && !is_type(r0[i], "simplelicensing_LicenseExpression"@) && !is_type(
            r0[i],
            "Relationship"@,
        ) && !is_type(r0[i], "SpdxDocument"@) && !is_type(r0[i], "Annotation"@) by {
            assert(i == 0 || i == 1);
        }
    }
    notes_pass_over(r0, r1);
    notes_pass_over(r0 + r1, r2);
    notes_pass_over(r0 + r1 + r2, r3);
    notes_pass_over(r0 + r1 + r2 + r3, r4);
    notes_pass_over(r0 + r1 + r2 + r3 + r4, r5);
    notes_pass_over(r0 + r1 + r2 + r3 + r4 + r5, r6);
    let none = Seq::<JsonView>::empty();
    assert(none + r0 =~= r0);
    packages_pass_over(none, r0);
    packages_are_read(r0, all, ids, ns);
    packages_pass_over(r0 + r1, r2);
    packages_pass_over(r0 + r1 + r2, r3);
    packages_pass_over(r0 + r1 + r2 + r3, r4);
    packages_pass_over(r0 + r1 + r2 + r3 + r4, r5);
    packages_pass_over(r0 + r1 + r2 + r3 + r4 + r5, r6);
    licenses_pass_over(none, r0);
    licenses_pass_over(r0, r1);
    licenses_pass_over(r0 + r1, r2);
    licenses_are_read(r0 + r1 + r2, all, ns);
    licenses_pass_over(r0 + r1 + r2 + r3, r4);
    licenses_pass_over(r0 + r1 + r2 + r3 + r4, r5);
    licenses_pass_over(r0 + r1 + r2 + r3 + r4 + r5, r6);
    let packages = packages_in(graph);
    let licenses = licenses_in(graph);
    links_pass_over(packages, none, r0, licenses);
    links_pass_over(packages, r0, r1, licenses);
    links_pass_over(packages, r0 + r1, r2, licenses);
    links_pass_over(packages, r0 + r1 + r2, r3, licenses);
    let n = all.len() as int;
    assert(all.take(n) =~= all);
    license_links_are_read(packages, r0 + r1 + r2 + r3, all, ids, ns, n);
    edges_are_read(packages, r0 + r1 + r2 + r3 + r4, licenses, doc.dependencies, ids, ns);
    let before = r0 + r1 + r2 + r3 + r4 + r5;
    assert(graph.drop_last() =~= before);
    assert(graph.last() == r6[0]);
    assert(Seq::<Seq<char>>::empty() + roots_of(doc) =~= roots_of(doc));
    let items = graph_items(doc);
    assert forall|i: int| 0 <= i < items.len() implies decoded(
        #[trigger] items[i],
        element_shape(),
    ) is Some by {
        let n0 = i0.len() as int;
        let n1 = n0 + i1.len();
        let n2 = n1 + i2.len();
        let n3 = n2 + i3.len();
        let n4 = n3 + i4.len();
        let n5 = n4 + i5.len();
        if i < n0 {
            assert(i == 0 || i == 1);
            assert(items[i] == i0[i]);
        } else if i < n1 {
            assert(items[i] == i1[i - n0]);
        } else if i < n2 {
            assert(items[i] == i2[i - n1]);
        } else if i < n3 {
            assert(items[i] == i3[i - n2]);
        } else if i < n4 {
            assert(items[i] == i4[i - n3]);
        } else if i < n5 {
            assert(items[i] == i5[i - n4]);
        } else {
            assert(items[i] == i6[i - n5]);
        }
    }
}

proof fn file_reads(doc: SbomDocView)
    requires
        forall|i: int|
            0 <= i < graph_items(doc).len() ==> decoded(
                #[trigger] graph_items(doc)[i],
                element_shape(),
            ) is Some,
    ensures
        ({
            let r = decoded(file_item(doc), file_shape());
            &&& r is Some
            &&& r->0.get("@graph"@).items() == graph_items(doc).map_values(reading())
            &&& mentions(r->0.get("@context"@), "spdx.org/rdf/3."@)
        }),
{
    reveal_strlit("@context");
    reveal_strlit("@graph");
    assert("@context"@.len() == 8 && "@graph"@.len() == 6);
    let fields = field(
        "@context",
        maybe(Shape::Any),
        field("@graph", list_of(element_shape()), Fields::End),
    );
    let a = JsonView::Text(CONTEXT@);
    let b = JsonView::Array(graph_items(doc));
    let one = members().value("@context"@, a);
    let m = one.value("@graph"@, b);
    slot_of_value(members(), "@context"@, a, "@context"@);
    slot_of_value(members(), "@context"@, a, "@graph"@);
    slot_of_value(one, "@graph"@, b, "@context"@);
    slot_of_value(one, "@graph"@, b, "@graph"@);
    lists_decode(graph_items(doc), element_shape());
    assert(graph_items(doc).map_values(|item: JsonView| decoded(item, element_shape())->0)
        =~= graph_items(doc).map_values(reading()));
    reveal_with_fuel(fields_fit, 3);
    reveal_with_fuel(shape_of, 3);
    reveal_with_fuel(decoded, 2);
    record_field(m, fields, "@context"@);
    record_field(m, fields, "@graph"@);
    reveal_strlit("https://spdx.org/rdf/3.0.1/spdx-context.jsonld");
    reveal_strlit("spdx.org/rdf/3.");
    assert(CONTEXT@.skip(8).take(15) =~= "spdx.org/rdf/3."@);
    assert(starts_with(CONTEXT@.skip(8), "spdx.org/rdf/3."@));
    assert(contains(CONTEXT@, "spdx.org/rdf/3."@));
}

/// What is written as SPDX 3 reads back, without losing a package, where the
/// source tells its components apart: every package under its new name with its
/// version, package URL, hashes and declared license, the first one as what the
/// document is about, and every edge between packages that are listed, in
/// canonical order. Reading it loses nothing more.
pub proof fn documents_read_back(doc: SbomDocView, writing: CtxView, reading_ctx: CtxView)
    requires
        forall|i: int, j: int|
            0 <= i < j < all_components(doc).len() ==> source_of(
                #[trigger] all_components(doc)[i],
            ) != source_of(#[trigger] all_components(doc)[j]),
    ensures
        match written(DocView::Sbom(doc), writing).0 {
            Ok(json) => read_spec(json, reading_ctx) == (
                Ok::<DocView, ErrorView>(DocView::Sbom(sort_doc(kept_doc(doc)))),
                reading_ctx,
            ),
            Err(_) => false,
        },
{
    sources_are_named_apart(doc);
    graph_is_gathered(doc);
    file_reads(doc);
    let all = all_components(doc);
    let ids = names_of(doc);
    let ns = namespace_of(doc);
    let graph = graph_items(doc).map_values(reading());
    creation_is(ns, created_of(doc));
    assert(first_of_type(graph, "CreationInfo"@) == graph[0]);
    let n = all.len() as int;
    let pairs = licensed_pairs(all, ids, ns, n);
    let kept = all.map_values(|c: ComponentView| kept_component(c, ids.label_of(c), ns));
    if n == 0 {
        assert(pairs =~= Seq::empty());
        assert(others(pairs, None) =~= Seq::empty());
    } else {
        assert forall|i: int, j: int| 0 <= i < j < pairs.len() implies (#[trigger] pairs[i]).0 != (
        #[trigger] pairs[j]).0 by {
            assert(ids.label_of(all[i]) != ids.label_of(all[j]));
        }
        others_are_the_rest(pairs);
        assert(pairs.skip(1).map_values(|p: (Seq<char>, ComponentView)| p.1) =~= kept.skip(1));
        assert(roots_of(doc)[0] == pairs[0].0);
        assert(lookup(pairs, pairs[0].0) == Some(kept[0]));
    }
    assert(read_document(graph) == sort_doc(kept_doc(doc)));
}

} // verus!
