//! What reading an SPDX 2 document promises.

use vstd::prelude::*;

use crate::formats::sbom::identifiers::IdentifiersView;
use crate::formats::sbom::spdx_json::{
    actor_of, checksum_hash, component_at, cpe_in, declared_license, described_by, document_item,
    edge_item, edges_of, expression_in, graph_of, is_other, license_of, other_in, package_component,
    package_item, purl_in, purpose_of_kind, read_document, subject_ref, tool_of, with_edges,
};
use crate::json::JsonView;
use crate::model::sbom::{
    canonical, dependency_at, dependency_at_props, has_edge, Component, ComponentKind,
    ComponentView, DependencyView, LicenseView, SbomDocView,
};
use crate::order::sorted_props;
use crate::text::{contains_char, is_digit, rsplit_once, starts_with, strip_prefix, trim};
use crate::value::kept_items_are_listed;

verus! {

// ---------------------------------------------------------------------------
// Packages
// ---------------------------------------------------------------------------

/// Whether a text says something: it is not empty and states neither that nothing
/// is asserted nor that there is nothing.
pub open spec fn says_something(text: Seq<char>) -> bool {
    text.len() > 0 && text != "NOASSERTION"@ && text != "NONE"@
}

/// A text that says something.
pub open spec fn said(raw: JsonView) -> Option<Seq<char>> {
    match raw.text() {
        Some(text) => if says_something(text) {
            Some(text)
        } else {
            None
        },
        None => None,
    }
}

/// A package has what each of its fields says, under that field's name. What is
/// not asserted, or said to be nothing, is missing.
pub proof fn packages_have_their_fields(package: JsonView)
    ensures
        ({
            let c = package_component(package);
            &&& c.bom_ref == package.get("SPDXID"@).text()
            &&& c.name == match package.get("name"@).text() {
                Some(name) => name,
                None => ""@,
            }
            &&& c.version == package.get("versionInfo"@).text()
            &&& c.copyright == said(package.get("copyrightText"@))
            &&& c.supplier == actor_of(package.get("supplier"@).text())
            &&& c.author == actor_of(package.get("originator"@).text())
            &&& c.licenses == match (
                said(package.get("licenseDeclared"@)),
                said(package.get("licenseConcluded"@)),
            ) {
                (Some(declared), _) => seq![license_of(declared)],
                (None, Some(concluded)) => seq![license_of(concluded)],
                (None, None) => Seq::empty(),
            }
            &&& (package.get("description"@).text() matches Some(text) ==> text.len() > 0 && text
                != "NOASSERTION"@ ==> c.description == Some(text))
            &&& c.kind == match package.get("primaryPackagePurpose"@).text() {
                Some(purpose) => if purpose == "APPLICATION"@ {
                    ComponentKind::Application
                } else if purpose == "FRAMEWORK"@ {
                    ComponentKind::Framework
                } else if purpose == "CONTAINER"@ {
                    ComponentKind::Container
                } else if purpose == "OPERATING_SYSTEM"@ {
                    ComponentKind::OperatingSystem
                } else if purpose == "DEVICE"@ {
                    ComponentKind::Device
                } else if purpose == "FIRMWARE"@ {
                    ComponentKind::Firmware
                } else if purpose == "FILE"@ {
                    ComponentKind::File
                } else {
                    ComponentKind::Library
                },
                None => ComponentKind::Library,
            }
            &&& c.group is None && c.scope is None && c.publisher is None
        }),
{
    purposes_differ();
}

proof fn purposes_differ()
    ensures
        "APPLICATION"@ != "FRAMEWORK"@ && "APPLICATION"@ != "LIBRARY"@
            && "APPLICATION"@ != "CONTAINER"@ && "APPLICATION"@ != "OPERATING_SYSTEM"@
            && "APPLICATION"@ != "DEVICE"@ && "APPLICATION"@ != "FIRMWARE"@
            && "APPLICATION"@ != "FILE"@,
        "FRAMEWORK"@ != "LIBRARY"@ && "FRAMEWORK"@ != "CONTAINER"@
            && "FRAMEWORK"@ != "OPERATING_SYSTEM"@ && "FRAMEWORK"@ != "DEVICE"@
            && "FRAMEWORK"@ != "FIRMWARE"@ && "FRAMEWORK"@ != "FILE"@,
        "LIBRARY"@ != "CONTAINER"@ && "LIBRARY"@ != "OPERATING_SYSTEM"@
            && "LIBRARY"@ != "DEVICE"@ && "LIBRARY"@ != "FIRMWARE"@ && "LIBRARY"@ != "FILE"@,
        "CONTAINER"@ != "OPERATING_SYSTEM"@ && "CONTAINER"@ != "DEVICE"@
            && "CONTAINER"@ != "FIRMWARE"@ && "CONTAINER"@ != "FILE"@,
        "OPERATING_SYSTEM"@ != "DEVICE"@ && "OPERATING_SYSTEM"@ != "FIRMWARE"@
            && "OPERATING_SYSTEM"@ != "FILE"@,
        "DEVICE"@ != "FIRMWARE"@ && "DEVICE"@ != "FILE"@,
        "FIRMWARE"@ != "FILE"@,
{
    reveal_strlit("APPLICATION");
    reveal_strlit("FRAMEWORK");
    reveal_strlit("LIBRARY");
    reveal_strlit("CONTAINER");
    reveal_strlit("OPERATING_SYSTEM");
    reveal_strlit("DEVICE");
    reveal_strlit("FIRMWARE");
    reveal_strlit("FILE");
    assert("APPLICATION"@.len() == 11);
    assert("FRAMEWORK"@.len() == 9);
    assert("LIBRARY"@.len() == 7);
    assert("CONTAINER"@.len() == 9);
    assert("OPERATING_SYSTEM"@.len() == 16);
    assert("DEVICE"@.len() == 6);
    assert("FIRMWARE"@.len() == 8);
    assert("FILE"@.len() == 4);
    assert("CONTAINER"@[0] == 'C');
    assert("FRAMEWORK"@[0] == 'F');
}

/// A licence with a space in it is an expression, any other an identifier.
pub proof fn expressions_have_spaces(text: Seq<char>)
    ensures
        contains_char(text, ' ') ==> license_of(text) == LicenseView::Expression(text),
        !contains_char(text, ' ') ==> license_of(text) == LicenseView::Id(text),
{
}

/// A package address among the references is that of the package, a CPE its CPE;
/// any other reference is one of the package's.
pub proof fn references_are_told_by_their_type(reference: JsonView)
    ensures
        match (
            reference.get("referenceType"@).text(),
            reference.get("referenceLocator"@).text(),
        ) {
            (Some(kind), Some(locator)) => {
                &&& kind == "purl"@ ==> purl_in(reference) == Some(locator) && cpe_in(
                    reference,
                ) is None && other_in(reference) is None
                &&& kind != "purl"@ && starts_with(kind, "cpe"@) ==> cpe_in(reference) == Some(
                    locator,
                ) && purl_in(reference) is None && other_in(reference) is None
                &&& kind != "purl"@ && !starts_with(kind, "cpe"@) ==> {
                    &&& purl_in(reference) is None
                    &&& cpe_in(reference) is None
                    &&& other_in(reference) is Some
                    &&& other_in(reference)->0.url == locator
                    &&& other_in(reference)->0.kind == match reference.get(
                        "referenceCategory"@,
                    ).text() {
                        Some(category) => category,
                        None => kind,
                    }
                }
            },
            _ => purl_in(reference) is None && cpe_in(reference) is None && other_in(
                reference,
            ) is None,
        },
{
}

/// A package lists the hash of each of its checksums, with the algorithm spelled in
/// the usual way.
pub proof fn packages_list_their_checksums(package: JsonView, i: int)
    requires
        0 <= i < package.get("checksums"@).items().len(),
    ensures
        ({
            let raw = package.get("checksums"@).items()[i];
            match (raw.get("algorithm"@).text(), raw.get("checksumValue"@).text()) {
                (Some(algorithm), Some(value)) => exists|k: int|
                    0 <= k < package_component(package).hashes.len() && {
                        let h = #[trigger] package_component(package).hashes[k];
                        h.algorithm == canonical(algorithm) && h.value == value
                    },
                _ => true,
            }
        }),
{
    let all = package.get("checksums"@).items();
    let g = |checksum: JsonView| checksum_hash(checksum);
    if checksum_hash(all[i]) is Some {
        assert(g(all[i]) == checksum_hash(all[i]));
        kept_items_are_listed(all, g, i);
        let h = checksum_hash(all[i])->0;
        let list = package_component(package).hashes;
        let k = choose|k: int| 0 <= k < list.len() && list[k] == h;
        assert(list[k].value == h.value);
    }
}

// ---------------------------------------------------------------------------
// The graph
// ---------------------------------------------------------------------------

/// Whether a relationship says that one element depends on another.
pub open spec fn is_edge(relationship: JsonView, from: Seq<char>, to: Seq<char>) -> bool {
    &&& relationship.get("relationshipType"@).text() == Some("DEPENDS_ON"@)
    &&& relationship.get("spdxElementId"@).text() == Some(from)
    &&& relationship.get("relatedSpdxElement"@).text() == Some(to)
}

proof fn one_more_edge(
    graph: Seq<DependencyView>,
    from: Seq<char>,
    to: Seq<char>,
    a: Seq<char>,
    b: Seq<char>,
)
    ensures
        has_edge(with_edges(graph, from, seq![to]), a, b) <==> has_edge(graph, a, b) || (a == from
            && b == to),
{
    let after = with_edges(graph, from, seq![to]);
    let at = dependency_at(graph, from);
    dependency_at_props(graph, from);
    if at < graph.len() {
        let list = graph[at].depends_on + seq![to];
        assert(list[graph[at].depends_on.len() as int] == to);
        if graph[at].depends_on.contains(b) {
            let k = choose|k: int|
                0 <= k < graph[at].depends_on.len() && graph[at].depends_on[k] == b;
            assert(list[k] == b);
        }
        if list.contains(b) {
            let k = choose|k: int| 0 <= k < list.len() && list[k] == b;
            if k < graph[at].depends_on.len() {
                assert(graph[at].depends_on[k] == b);
            }
        }
        assert(after[at].depends_on == list);
    } else {
        assert(after[at].depends_on[0] == to);
    }
    if has_edge(graph, a, b) {
        let i = choose|i: int|
            #![trigger graph[i]]
            0 <= i < graph.len() && graph[i].bom_ref == a && graph[i].depends_on.contains(b);
        assert(after[i].bom_ref == a && after[i].depends_on.contains(b));
    }
    if a == from && b == to {
        assert(after[at].bom_ref == a && after[at].depends_on.contains(b));
    }
    if has_edge(after, a, b) {
        let i = choose|i: int|
            #![trigger after[i]]
            0 <= i < after.len() && after[i].bom_ref == a && after[i].depends_on.contains(b);
        if i != at {
            assert(graph[i] == after[i]);
        } else if at < graph.len() {
            assert(graph[at].bom_ref == a);
        }
    }
}

/// The graph has an edge exactly where a relationship says that one element
/// depends on the other.
pub proof fn edges_are_the_dependencies(
    relationships: Seq<JsonView>,
    from: Seq<char>,
    to: Seq<char>,
)
    ensures
        has_edge(graph_of(relationships), from, to) <==> exists|i: int|
            0 <= i < relationships.len() && #[trigger] is_edge(relationships[i], from, to),
    decreases relationships.len(),
{
    if relationships.len() > 0 {
        let head = relationships.drop_last();
        let n = relationships.len() - 1;
        let last = relationships.last();
        edges_are_the_dependencies(head, from, to);
        if let (Some(a), Some(b)) = (
            last.get("spdxElementId"@).text(),
            last.get("relatedSpdxElement"@).text(),
        ) {
            one_more_edge(graph_of(head), a, b, from, to);
        }
        assert(relationships[n] == last);
        if exists|i: int| 0 <= i < head.len() && #[trigger] is_edge(head[i], from, to) {
            let i = choose|i: int| 0 <= i < head.len() && #[trigger] is_edge(head[i], from, to);
            assert(is_edge(relationships[i], from, to));
        }
        if exists|i: int|
            0 <= i < relationships.len() && #[trigger] is_edge(relationships[i], from, to) {
            let i = choose|i: int|
                0 <= i < relationships.len() && #[trigger] is_edge(relationships[i], from, to);
            if i < n {
                assert(is_edge(head[i], from, to));
            }
        }
        if is_edge(last, from, to) {
            assert(is_edge(relationships[n], from, to));
        }
    }
}

/// The document describes what its own relationship says, and any other
/// relationship between elements than a dependency or a description is lost.
pub proof fn relationships_are_told_by_their_type(r: JsonView, document: Seq<char>)
    ensures
        described_by(r, document) is Some ==> r.get("relationshipType"@).text() == Some(
            "DESCRIBES"@,
        ) && r.get("spdxElementId"@).text() == Some(document) && described_by(r, document)
            == r.get("relatedSpdxElement"@).text(),
        r.get("relationshipType"@).text() == Some("DESCRIBES"@) && r.get("spdxElementId"@).text()
            == Some(document) ==> described_by(r, document) == r.get("relatedSpdxElement"@).text(),
        is_other(r) <==> match r.get("relationshipType"@).text() {
            Some(kind) => !(kind == "DEPENDS_ON"@ || kind == "DESCRIBES"@ || kind
                == "DESCRIBED_BY"@),
            None => false,
        },
{
}

proof fn component_at_props(components: Seq<ComponentView>, id: Seq<char>)
    ensures
        0 <= component_at(components, id) <= components.len(),
        component_at(components, id) < components.len() ==> components[component_at(
            components,
            id,
        )].bom_ref == Some(id),
        forall|i: int|
            0 <= i < component_at(components, id) ==> (#[trigger] components[i]).bom_ref != Some(
                id,
            ),
    decreases components.len(),
{
    if components.len() > 0 && components[0].bom_ref != Some(id) {
        let tail = components.skip(1);
        component_at_props(tail, id);
        assert forall|i: int| 0 <= i < component_at(components, id) implies (
        #[trigger] components[i]).bom_ref != Some(id) by {
            if i > 0 {
                assert(components[i] == tail[i - 1]);
            }
        }
        let at = component_at(tail, id);
        if at < tail.len() {
            assert(components[at + 1] == tail[at]);
        }
    }
}

/// The subject of a document is the first package of the name that it describes,
/// and every other package is one of its components.
pub proof fn subjects_are_what_is_described(document: JsonView, version: Seq<char>)
    ensures
        ({
            let doc = read_document(document, version);
            let packages = document.get("packages"@).items();
            &&& (doc.spec matches Some(origin) && origin.version == version)
            &&& doc.document_id == document.get("documentNamespace"@).text()
            &&& doc.timestamp == document.get("creationInfo"@).get("created"@).text()
            &&& match doc.subject {
                Some(subject) => {
                    &&& subject.bom_ref == subject_ref(document)
                    &&& subject_ref(document) is Some
                    &&& doc.components.len() == packages.len() - 1
                    &&& exists|i: int|
                        0 <= i < packages.len() && subject == package_component(
                            #[trigger] packages[i],
                        )
                },
                None => doc.components.len() == packages.len() && forall|i: int|
                    0 <= i < packages.len() ==> subject_ref(document) is None
                        || package_component(#[trigger] packages[i]).bom_ref != subject_ref(
                        document,
                    ),
            }
        }),
{
    let raw = document.get("packages"@).items();
    let packages = raw.map_values(|p: JsonView| package_component(p));
    if let Some(id) = subject_ref(document) {
        component_at_props(packages, id);
        let at = component_at(packages, id);
        if at < packages.len() {
            assert(packages[at] == package_component(raw[at]));
            sorted_props::<Component>(packages.remove(at));
        } else {
            assert forall|i: int| 0 <= i < raw.len() implies package_component(
                #[trigger] raw[i],
            ).bom_ref != Some(id) by {
                assert(packages[i].bom_ref != Some(id));
            }
            sorted_props::<Component>(packages);
        }
    } else {
        sorted_props::<Component>(packages);
    }
}

/// The licence that is written is the first that is an expression or an identifier.
pub proof fn names_are_no_expressions(c: ComponentView, i: int)
    requires
        0 <= i < c.licenses.len(),
    ensures
        declared_license(c) is None ==> c.licenses[i] is Name,
{
    let g = |l: LicenseView| expression_in(l);
    if !(c.licenses[i] is Name) {
        assert(g(c.licenses[i]) is Some);
        kept_items_are_listed(c.licenses, g, i);
    }
}

/// A tool is the creator that says so; what stands behind its last hyphen is its
/// version where it begins with a digit.
pub proof fn tools_are_named_with_their_version(creator: Seq<char>)
    ensures
        match (strip_prefix(creator, "Tool:"@), tool_of(creator)) {
            (Some(rest), Some(tool)) => match (rsplit_once(trim(rest), '-'), tool.version) {
                (Some((name, version)), Some(stated)) => tool.name == name && stated == version
                    && version.len() > 0 && is_digit(version[0]),
                (Some((_, version)), None) => tool.name == trim(rest) && !(version.len() > 0
                    && is_digit(version[0])),
                (None, None) => tool.name == trim(rest),
                _ => false,
            },
            (None, None) => true,
            _ => false,
        },
{
}

/// A package's homepage, where it says something, is one of its references.
pub proof fn homepages_are_references(package: JsonView)
    ensures
        said(package.get("homepage"@)) matches Some(url) ==> exists|k: int|
            0 <= k < package_component(package).external_references.len() && {
                let r = #[trigger] package_component(package).external_references[k];
                r.kind == "website"@ && r.url == url
            },
{
    let list = package_component(package).external_references;
    if said(package.get("homepage"@)) is Some {
        assert(list[list.len() - 1].kind == "website"@);
    }
}

// ---------------------------------------------------------------------------
// Writing
// ---------------------------------------------------------------------------

/// Whether an object has this text under this key.
pub open spec fn states(object: JsonView, key: Seq<char>, text: Seq<char>) -> bool {
    object.members().contains((key, JsonView::Text(text)))
}

/// A package is written with its name, version, licence, copyright, supplier and
/// author; what it does not know is not asserted, and its purpose is told where
/// the version has a field for it.
pub proof fn packages_are_written_whole(c: ComponentView, id: Seq<char>, target: Seq<char>)
    ensures
        ({
            let item = package_item(c, id, target);
            &&& states(item, "SPDXID"@, id)
            &&& states(item, "name"@, c.name)
            &&& (c.version matches Some(version) ==> states(item, "versionInfo"@, version))
            &&& states(item, "downloadLocation"@, "NOASSERTION"@)
            &&& item.members().contains(("filesAnalyzed"@, JsonView::Bool(false)))
            &&& states(item, "licenseConcluded"@, "NOASSERTION"@)
            &&& states(
                item,
                "licenseDeclared"@,
                match declared_license(c) {
                    Some(license) => license,
                    None => "NOASSERTION"@,
                },
            )
            &&& states(
                item,
                "copyrightText"@,
                match c.copyright {
                    Some(text) => text,
                    None => "NOASSERTION"@,
                },
            )
            &&& (c.description matches Some(text) ==> states(item, "description"@, text))
            &&& (c.supplier matches Some(name) ==> states(
                item,
                "supplier"@,
                "Organization: "@ + name,
            ))
            &&& (c.author matches Some(name) ==> states(item, "originator"@, "Person: "@ + name))
            &&& target != "SPDX-2.2"@ ==> (purpose_of_kind(c.kind) matches Some(purpose)
                ==> states(item, "primaryPackagePurpose"@, purpose))
        }),
{
    let list = package_item(c, id, target).members();
    assert(list[0].0 == "SPDXID"@ && list[1].0 == "name"@);
    let mut n: int = 2;
    if c.version is Some {
        assert(list[n].0 == "versionInfo"@);
        n = n + 1;
    }
    assert(list[n].0 == "downloadLocation"@ && list[n + 1].0 == "filesAnalyzed"@);
    assert(list[n + 2].0 == "licenseConcluded"@ && list[n + 3].0 == "licenseDeclared"@);
    assert(list[n + 4].0 == "copyrightText"@);
    n = n + 5;
    if c.description is Some {
        assert(list[n].0 == "description"@);
        n = n + 1;
    }
    if c.supplier is Some {
        assert(list[n].0 == "supplier"@);
        n = n + 1;
    }
    if c.author is Some {
        assert(list[n].0 == "originator"@);
        n = n + 1;
    }
    if target != "SPDX-2.2"@ && purpose_of_kind(c.kind) is Some {
        assert(list[n].0 == "primaryPackagePurpose"@);
    }
}

/// A document is written with its version, its identity, its name and a package
/// for its subject and each of its components.
pub proof fn documents_are_written_whole(doc: SbomDocView, target: Seq<char>)
    ensures
        ({
            let item = document_item(doc, target);
            let list = item.members();
            &&& states(item, "spdxVersion"@, target)
            &&& states(item, "dataLicense"@, "CC0-1.0"@)
            &&& states(item, "SPDXID"@, "SPDXRef-DOCUMENT"@)
            &&& (doc.subject matches Some(subject) ==> subject.name.len() > 0 ==> states(
                item,
                "name"@,
                subject.name,
            ))
            &&& (doc.document_id matches Some(id) ==> states(item, "documentNamespace"@, id))
            &&& list[5].0 == "creationInfo"@
            &&& states(
                list[5].1,
                "created"@,
                match doc.timestamp {
                    Some(time) => time,
                    None => "1970-01-01T00:00:00Z"@,
                },
            )
            &&& list[6].0 == "packages"@
            &&& list[6].1.items().len() == doc.components.len() + if doc.subject is Some {
                1int
            } else {
                0
            }
        }),
{
    let list = document_item(doc, target).members();
    assert(list[0].0 == "spdxVersion"@ && list[1].0 == "dataLicense"@ && list[2].0 == "SPDXID"@);
    assert(list[3].0 == "name"@ && list[4].0 == "documentNamespace"@);
    assert(list[5].1.members()[0].0 == "created"@);
}

/// The document describes its subject, and what depends on something is related to
/// it where both are listed.
pub proof fn relationships_are_written_between_listed_elements(
    ids: IdentifiersView,
    d: DependencyView,
    j: int,
)
    requires
        0 <= j < d.depends_on.len(),
    ensures
        match (ids.name_of(d.bom_ref), ids.name_of(d.depends_on[j])) {
            (Some(from), Some(to)) => edges_of(ids, d).contains(
                JsonView::Object(
                    seq![
                        ("spdxElementId"@, JsonView::Text(from)),
                        ("relatedSpdxElement"@, JsonView::Text(to)),
                        ("relationshipType"@, JsonView::Text("DEPENDS_ON"@)),
                    ],
                ),
            ),
            (None, _) => edges_of(ids, d).len() == 0,
            _ => true,
        },
{
    if let (Some(from), Some(to)) = (ids.name_of(d.bom_ref), ids.name_of(d.depends_on[j])) {
        let g = |target: Seq<char>| edge_item(ids, from, target);
        let item = edge_item(ids, from, d.depends_on[j])->0;
        assert(g(d.depends_on[j]) == Some(item));
        kept_items_are_listed(d.depends_on, g, j);
        assert(item.members() =~= seq![
            ("spdxElementId"@, JsonView::Text(from)),
            ("relatedSpdxElement"@, JsonView::Text(to)),
            ("relationshipType"@, JsonView::Text("DEPENDS_ON"@)),
        ]);
    }
}

} // verus!
