//! What reading an SPDX 3 document promises.

use vstd::prelude::*;

use crate::formats::sbom::spdx3_json::{
    agent_iri, id_of, integrity_hash, license_of_element, licensed, linked, others,
    package_component, package_item, purpose_of_kind, LinksView,
};
use crate::formats::sbom::spdx_json::with_edges;
use crate::json::JsonView;
use crate::model::sbom::{canonical, ComponentKind, ComponentView, LicenseView};
use crate::value::{key_at, key_at_props, non_empty};

verus! {

/// An element is known by its SPDX identifier, and without one by its own.
pub proof fn elements_are_known_by_their_identifier(element: JsonView)
    ensures
        id_of(element) == match element.get("spdxId"@).text() {
            Some(id) => Some(id),
            None => element.get("@id"@).text(),
        },
{
}

/// A package has what each of its fields says, under that field's name, and is a
/// library where its purpose is none that is known.
pub proof fn packages_have_their_fields(element: JsonView)
    ensures
        ({
            let c = package_component(element);
            let authors = element.get("originatedBy"@).texts();
            &&& c.bom_ref == id_of(element)
            &&& c.name == match element.get("name"@).text() {
                Some(name) => name,
                None => ""@,
            }
            &&& c.version == element.get("software_packageVersion"@).text()
            &&& c.purl == element.get("software_packageUrl"@).text()
            &&& c.copyright == non_empty(element.get("software_copyrightText"@).text())
            &&& c.supplier == element.get("suppliedBy"@).text()
            &&& c.author == if authors.len() > 0 {
                Some(authors[0])
            } else {
                None
            }
            &&& c.description == non_empty(
                match element.get("description"@).text() {
                    Some(text) => Some(text),
                    None => element.get("summary"@).text(),
                },
            )
            &&& c.kind == match element.get("software_primaryPurpose"@).text() {
                Some(purpose) => if purpose == "application"@ {
                    ComponentKind::Application
                } else if purpose == "framework"@ {
                    ComponentKind::Framework
                } else if purpose == "container"@ {
                    ComponentKind::Container
                } else if purpose == "operatingSystem"@ {
                    ComponentKind::OperatingSystem
                } else if purpose == "device"@ {
                    ComponentKind::Device
                } else if purpose == "firmware"@ {
                    ComponentKind::Firmware
                } else if purpose == "file"@ {
                    ComponentKind::File
                } else {
                    ComponentKind::Library
                },
                None => ComponentKind::Library,
            }
            &&& c.licenses.len() == 0
        }),
{
    purposes_differ();
}

proof fn purposes_differ()
    ensures
        "application"@ != "framework"@ && "application"@ != "library"@
            && "application"@ != "container"@ && "application"@ != "operatingSystem"@
            && "application"@ != "device"@ && "application"@ != "firmware"@
            && "application"@ != "file"@,
        "framework"@ != "library"@ && "framework"@ != "container"@
            && "framework"@ != "operatingSystem"@ && "framework"@ != "device"@
            && "framework"@ != "firmware"@ && "framework"@ != "file"@,
        "library"@ != "container"@ && "library"@ != "operatingSystem"@
            && "library"@ != "device"@ && "library"@ != "firmware"@ && "library"@ != "file"@,
        "container"@ != "operatingSystem"@ && "container"@ != "device"@
            && "container"@ != "firmware"@ && "container"@ != "file"@,
        "operatingSystem"@ != "device"@ && "operatingSystem"@ != "firmware"@
            && "operatingSystem"@ != "file"@,
        "device"@ != "firmware"@ && "device"@ != "file"@,
        "firmware"@ != "file"@,
{
    reveal_strlit("application");
    reveal_strlit("framework");
    reveal_strlit("library");
    reveal_strlit("container");
    reveal_strlit("operatingSystem");
    reveal_strlit("device");
    reveal_strlit("firmware");
    reveal_strlit("file");
    assert("application"@.len() == 11);
    assert("framework"@.len() == 9);
    assert("library"@.len() == 7);
    assert("container"@.len() == 9);
    assert("operatingSystem"@.len() == 15);
    assert("device"@.len() == 6);
    assert("firmware"@.len() == 8);
    assert("file"@.len() == 4);
    assert("container"@[0] == 'c');
    assert("framework"@[0] == 'f');
}

/// A hash has an algorithm, spelled in the usual way, and a value; a licence an
/// identifier and an expression.
pub proof fn elements_are_told_by_their_type(element: JsonView)
    ensures
        match integrity_hash(element) {
            Some(h) => {
                &&& element.get("type"@).text() == Some("Hash"@)
                &&& Some(h.value) == element.get("hashValue"@).text()
                &&& element.get("algorithm"@).text() is Some
                &&& h.algorithm == canonical(element.get("algorithm"@).text()->0)
            },
            None => element.get("type"@).text() != Some("Hash"@) || element.get(
                "algorithm"@,
            ).text() is None || element.get("hashValue"@).text() is None,
        },
        match license_of_element(element) {
            Some((id, expression)) => {
                &&& element.get("type"@).text() == Some("simplelicensing_LicenseExpression"@)
                &&& id_of(element) == Some(id)
                &&& element.get("simplelicensing_licenseExpression"@).text() == Some(expression)
            },
            None => element.get("type"@).text() != Some("simplelicensing_LicenseExpression"@)
                || id_of(element) is None || element.get(
                "simplelicensing_licenseExpression"@,
            ).text() is None,
        },
{
}

proof fn links_differ()
    ensures
        "dependsOn"@ != "hasDeclaredLicense"@ && "dependsOn"@ != "hasConcludedLicense"@
            && "dependsOn"@ != "describes"@ && "dependsOn"@ != "SpdxDocument"@
            && "dependsOn"@ != "Relationship"@,
        "hasDeclaredLicense"@ != "hasConcludedLicense"@ && "hasDeclaredLicense"@ != "describes"@
            && "hasDeclaredLicense"@ != "SpdxDocument"@
            && "hasDeclaredLicense"@ != "Relationship"@,
        "hasConcludedLicense"@ != "describes"@ && "hasConcludedLicense"@ != "SpdxDocument"@
            && "hasConcludedLicense"@ != "Relationship"@,
        "describes"@ != "SpdxDocument"@ && "describes"@ != "Relationship"@,
        "SpdxDocument"@ != "Relationship"@,
{
    reveal_strlit("dependsOn");
    reveal_strlit("hasDeclaredLicense");
    reveal_strlit("hasConcludedLicense");
    reveal_strlit("describes");
    reveal_strlit("SpdxDocument");
    reveal_strlit("Relationship");
    assert("dependsOn"@.len() == 9);
    assert("hasDeclaredLicense"@.len() == 18);
    assert("hasConcludedLicense"@.len() == 19);
    assert("describes"@.len() == 9);
    assert("SpdxDocument"@.len() == 12);
    assert("Relationship"@.len() == 12);
    assert("Relationship"@[0] == 'R');
    assert("SpdxDocument"@[0] == 'S');
    assert("dependsOn"@[2] == 'p');
    assert("describes"@[2] == 's');
}

/// A relationship adds the dependencies it states, names the roots it describes,
/// or gives a licence; any other is counted as lost. A document names its own
/// roots, and nothing else is a relationship.
pub proof fn relationships_are_told_by_their_type(
    s: LinksView,
    element: JsonView,
    licenses: Seq<(Seq<char>, Seq<char>)>,
)
    ensures
        ({
            let after = linked(s, element, licenses);
            let to = element.get("to"@).texts();
            let from = element.get("from"@).text();
            let kind = element.get("relationshipType"@).text();
            let is_link = element.get("type"@).text() == Some("Relationship"@) && from is Some;
            &&& is_link && kind == Some("dependsOn"@) ==> after == (LinksView {
                dependencies: with_edges(s.dependencies, from->0, to),
                ..s
            })
            &&& is_link && kind == Some("describes"@) ==> after == (LinksView {
                roots: s.roots + to,
                ..s
            })
            &&& is_link && (kind == Some("hasDeclaredLicense"@) || kind == Some(
                "hasConcludedLicense"@,
            )) ==> after.dependencies == s.dependencies && after.roots == s.roots && after.ignored
                == s.ignored && after.packages.len() == s.packages.len()
            &&& is_link && kind is Some && kind != Some("dependsOn"@) && kind != Some(
                "describes"@,
            ) && kind != Some("hasDeclaredLicense"@) && kind != Some("hasConcludedLicense"@)
                ==> after == (LinksView { ignored: s.ignored + 1, ..s })
            &&& element.get("type"@).text() == Some("SpdxDocument"@) ==> after == (LinksView {
                roots: s.roots + element.get("rootElement"@).texts(),
                ..s
            })
            &&& element.get("type"@).text() != Some("SpdxDocument"@) && !is_link ==> after == s
        }),
{
    links_differ();
    if let Some(from) = element.get("from"@).text() {
        key_at_props(s.packages, from);
    }
}

/// Whether an object has this text under this key.
pub open spec fn states(object: JsonView, key: Seq<char>, text: Seq<char>) -> bool {
    object.members().contains((key, JsonView::Text(text)))
}

/// A package is written with its name, version, address, purpose and copyright,
/// and names the agents that supplied and made it.
pub proof fn packages_are_written_whole(c: ComponentView, iri: Seq<char>, namespace: Seq<char>)
    ensures
        ({
            let item = package_item(c, iri, namespace);
            &&& states(item, "type"@, "software_Package"@)
            &&& states(item, "spdxId"@, iri)
            &&& states(item, "name"@, c.name)
            &&& (c.description matches Some(text) ==> states(item, "description"@, text))
            &&& (c.copyright matches Some(text) ==> states(item, "software_copyrightText"@, text))
            &&& (c.purl matches Some(purl) ==> states(item, "software_packageUrl"@, purl))
            &&& (c.version matches Some(version) ==> states(
                item,
                "software_packageVersion"@,
                version,
            ))
            &&& (purpose_of_kind(c.kind) matches Some(purpose) ==> states(
                item,
                "software_primaryPurpose"@,
                purpose,
            ))
            &&& (c.supplier matches Some(name) ==> states(
                item,
                "suppliedBy"@,
                agent_iri(namespace, name),
            ))
            &&& (c.author matches Some(name) ==> item.members().contains(
                (
                    "originatedBy"@,
                    JsonView::Array(seq![JsonView::Text(agent_iri(namespace, name))]),
                ),
            ))
        }),
{
    let list = package_item(c, iri, namespace).members();
    let mut n: int = 1;
    if c.description is Some {
        assert(list[n].0 == "description"@);
        n = n + 1;
    }
    assert(list[n].0 == "name"@);
    n = n + 1;
    if c.author is Some {
        assert(list[n].0 == "originatedBy"@);
        n = n + 1;
    }
    if c.copyright is Some {
        assert(list[n].0 == "software_copyrightText"@);
        n = n + 1;
    }
    if c.purl is Some {
        assert(list[n].0 == "software_packageUrl"@);
        n = n + 1;
    }
    if c.version is Some {
        assert(list[n].0 == "software_packageVersion"@);
        n = n + 1;
    }
    if purpose_of_kind(c.kind) is Some {
        assert(list[n].0 == "software_primaryPurpose"@);
        n = n + 1;
    }
    assert(list[n].0 == "spdxId"@);
    n = n + 1;
    if c.supplier is Some {
        assert(list[n].0 == "suppliedBy"@);
        n = n + 1;
    }
    assert(list[n].0 == "type"@);
}

/// A licence goes to the package that has it, unless one was given to it before,
/// and to no other.
pub proof fn the_first_license_counts(
    packages: Seq<(Seq<char>, ComponentView)>,
    from: Seq<char>,
    found: Seq<LicenseView>,
    i: int,
)
    requires
        0 <= i < packages.len(),
    ensures
        ({
            let after = licensed(packages, from, found);
            let mine = i == key_at(packages, from) && packages[i].1.licenses.len() == 0;
            &&& after.len() == packages.len()
            &&& after[i].0 == packages[i].0
            &&& mine ==> after[i].1 == (ComponentView { licenses: found, ..packages[i].1 })
            &&& !mine ==> after[i] == packages[i]
        }),
{
    key_at_props(packages, from);
}

/// The components of a document are its packages but for the subject.
pub proof fn components_are_the_other_packages(
    packages: Seq<(Seq<char>, ComponentView)>,
    subject: Option<Seq<char>>,
    i: int,
)
    requires
        0 <= i < packages.len(),
    ensures
        others(packages, subject).len() == packages.filter(
            |p: (Seq<char>, ComponentView)| Some(p.0) != subject,
        ).len(),
        Some(packages[i].0) != subject ==> others(packages, subject).contains(packages[i].1),
    decreases packages.len(),
{
    reveal(Seq::filter);
    let head = packages.drop_last();
    let all = others(packages, subject);
    let before = others(head, subject);
    if head.len() > 0 {
        components_are_the_other_packages(head, subject, if i < head.len() {
            i
        } else {
            0
        });
    } else {
        assert(head =~= Seq::empty());
        assert(head.filter(|p: (Seq<char>, ComponentView)| Some(p.0) != subject).len() == 0);
    }
    if Some(packages[i].0) != subject {
        if i == head.len() {
            assert(all[before.len() as int] == packages[i].1);
        } else {
            assert(head[i] == packages[i]);
            let k = choose|k: int| 0 <= k < before.len() && before[k] == packages[i].1;
            assert(all[k] == packages[i].1);
        }
    }
}

} // verus!
