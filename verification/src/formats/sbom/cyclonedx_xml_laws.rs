//! What reading a CycloneDX XML document promises.

use vstd::prelude::*;

use crate::formats::sbom::cyclonedx_xml::{
    bom_started, component_start, described, ended, namespace_version, place_of,
    reference_described, started, Place, StateView,
};
use crate::model::sbom::{
    an_edge_is_added, canonical, has_edge, parse_kind, ComponentKind, ComponentView,
    ExternalReferenceView, HashView, LicenseView, SbomDocView,
};
use crate::text::parse_u32_spec;
use crate::xml::TagView;

verus! {

/// A component begins with the name and the kind that its tag states, which is a
/// library where it states none that is known.
pub proof fn components_begin_with_their_tag(tag: TagView)
    ensures
        component_start(tag).bom_ref == tag.attr("bom-ref"@),
        component_start(tag).kind == match tag.attr("type"@) {
            Some(word) => match parse_kind(word) {
                Some(kind) => kind,
                None => ComponentKind::Library,
            },
            None => ComponentKind::Library,
        },
        component_start(tag).licenses.len() == 0,
        component_start(tag).hashes.len() == 0,
        component_start(tag).external_references.len() == 0,
{
}

proof fn parts_differ()
    ensures
        "name"@ != "version"@ && "name"@ != "group"@ && "name"@ != "purl"@ && "name"@ != "cpe"@
            && "name"@ != "description"@ && "name"@ != "scope"@ && "name"@ != "author"@
            && "name"@ != "publisher"@ && "name"@ != "copyright"@ && "name"@ != "expression"@
            && "name"@ != "id"@,
        "version"@ != "group"@ && "version"@ != "purl"@ && "version"@ != "cpe"@
            && "version"@ != "description"@ && "version"@ != "scope"@ && "version"@ != "author"@
            && "version"@ != "publisher"@ && "version"@ != "copyright"@
            && "version"@ != "expression"@ && "version"@ != "id"@,
        "group"@ != "purl"@ && "group"@ != "cpe"@ && "group"@ != "description"@
            && "group"@ != "scope"@ && "group"@ != "author"@ && "group"@ != "publisher"@
            && "group"@ != "copyright"@ && "group"@ != "expression"@ && "group"@ != "id"@,
        "purl"@ != "cpe"@ && "purl"@ != "description"@ && "purl"@ != "scope"@
            && "purl"@ != "author"@ && "purl"@ != "publisher"@ && "purl"@ != "copyright"@
            && "purl"@ != "expression"@ && "purl"@ != "id"@,
        "cpe"@ != "description"@ && "cpe"@ != "scope"@ && "cpe"@ != "author"@
            && "cpe"@ != "publisher"@ && "cpe"@ != "copyright"@ && "cpe"@ != "expression"@
            && "cpe"@ != "id"@,
        "description"@ != "scope"@ && "description"@ != "author"@
            && "description"@ != "publisher"@ && "description"@ != "copyright"@
            && "description"@ != "expression"@ && "description"@ != "id"@,
        "scope"@ != "author"@ && "scope"@ != "publisher"@ && "scope"@ != "copyright"@
            && "scope"@ != "expression"@ && "scope"@ != "id"@,
        "author"@ != "publisher"@ && "author"@ != "copyright"@ && "author"@ != "expression"@
            && "author"@ != "id"@,
        "publisher"@ != "copyright"@ && "publisher"@ != "expression"@ && "publisher"@ != "id"@,
        "copyright"@ != "expression"@ && "copyright"@ != "id"@,
        "expression"@ != "id"@,
{
    reveal_strlit("name");
    reveal_strlit("version");
    reveal_strlit("group");
    reveal_strlit("purl");
    reveal_strlit("cpe");
    reveal_strlit("description");
    reveal_strlit("scope");
    reveal_strlit("author");
    reveal_strlit("publisher");
    reveal_strlit("copyright");
    reveal_strlit("expression");
    reveal_strlit("id");
    assert("name"@.len() == 4);
    assert("version"@.len() == 7);
    assert("group"@.len() == 5);
    assert("purl"@.len() == 4);
    assert("cpe"@.len() == 3);
    assert("description"@.len() == 11);
    assert("scope"@.len() == 5);
    assert("author"@.len() == 6);
    assert("publisher"@.len() == 9);
    assert("copyright"@.len() == 9);
    assert("expression"@.len() == 10);
    assert("id"@.len() == 2);
    assert("copyright"@[0] == 'c');
    assert("group"@[0] == 'g');
    assert("name"@[0] == 'n');
    assert("publisher"@[0] == 'p');
    assert("purl"@[0] == 'p');
    assert("scope"@[0] == 's');
}

proof fn parents_differ()
    ensures
        "component"@ != "supplier"@ && "component"@ != "license"@ && "component"@ != "licenses"@,
        "supplier"@ != "license"@ && "supplier"@ != "licenses"@,
        "license"@ != "licenses"@,
{
    reveal_strlit("component");
    reveal_strlit("supplier");
    reveal_strlit("license");
    reveal_strlit("licenses");
    assert("component"@.len() == 9);
    assert("supplier"@.len() == 8);
    assert("license"@.len() == 7);
    assert("licenses"@.len() == 8);
    assert("licenses"@[0] == 'l');
    assert("supplier"@[0] == 's');
}

/// The text of each child of a component is what that child is named for, and
/// changes nothing else of the component. A name below the supplier is the
/// supplier's, below a licence the licence's.
pub proof fn children_describe_the_component(c: ComponentView, text: Seq<char>)
    ensures
        ({
            let own = "component"@;
            &&& described(c, "name"@, own, text) == (ComponentView { name: text, ..c })
            &&& described(c, "version"@, own, text) == (ComponentView {
                version: Some(text),
                ..c
            })
            &&& described(c, "group"@, own, text) == (ComponentView { group: Some(text), ..c })
            &&& described(c, "purl"@, own, text) == (ComponentView { purl: Some(text), ..c })
            &&& described(c, "cpe"@, own, text) == (ComponentView { cpe: Some(text), ..c })
            &&& described(c, "description"@, own, text) == (ComponentView {
                description: Some(text),
                ..c
            })
            &&& described(c, "scope"@, own, text) == (ComponentView { scope: Some(text), ..c })
            &&& described(c, "author"@, own, text) == (ComponentView { author: Some(text), ..c })
            &&& described(c, "publisher"@, own, text) == (ComponentView {
                publisher: Some(text),
                ..c
            })
            &&& described(c, "copyright"@, own, text) == (ComponentView {
                copyright: Some(text),
                ..c
            })
            &&& described(c, "name"@, "supplier"@, text) == (ComponentView {
                supplier: Some(text),
                ..c
            })
            &&& described(c, "name"@, "license"@, text) == (ComponentView {
                licenses: c.licenses.push(LicenseView::Name(text)),
                ..c
            })
            &&& described(c, "id"@, "license"@, text) == (ComponentView {
                licenses: c.licenses.push(LicenseView::Id(text)),
                ..c
            })
            &&& described(c, "expression"@, "licenses"@, text) == (ComponentView {
                licenses: c.licenses.push(LicenseView::Expression(text)),
                ..c
            })
        }),
{
    parts_differ();
    parents_differ();
}

proof fn names_differ()
    ensures
        "bom"@ != "component"@ && "bom"@ != "hash"@ && "bom"@ != "reference"@
            && "bom"@ != "dependency"@ && "bom"@ != "evidence"@ && "bom"@ != "pedigree"@
            && "bom"@ != "formulation"@,
        "component"@ != "hash"@ && "component"@ != "reference"@ && "component"@ != "dependency"@
            && "component"@ != "evidence"@ && "component"@ != "pedigree"@
            && "component"@ != "formulation"@,
        "hash"@ != "reference"@ && "hash"@ != "dependency"@ && "hash"@ != "evidence"@
            && "hash"@ != "pedigree"@ && "hash"@ != "formulation"@,
        "reference"@ != "dependency"@ && "reference"@ != "evidence"@
            && "reference"@ != "pedigree"@ && "reference"@ != "formulation"@,
        "dependency"@ != "evidence"@ && "dependency"@ != "pedigree"@
            && "dependency"@ != "formulation"@,
        "evidence"@ != "pedigree"@ && "evidence"@ != "formulation"@,
        "pedigree"@ != "formulation"@,
{
    reveal_strlit("bom");
    reveal_strlit("component");
    reveal_strlit("hash");
    reveal_strlit("reference");
    reveal_strlit("dependency");
    reveal_strlit("evidence");
    reveal_strlit("pedigree");
    reveal_strlit("formulation");
    assert("bom"@.len() == 3);
    assert("component"@.len() == 9);
    assert("hash"@.len() == 4);
    assert("reference"@.len() == 9);
    assert("dependency"@.len() == 10);
    assert("evidence"@.len() == 8);
    assert("pedigree"@.len() == 8);
    assert("formulation"@.len() == 11);
    assert("component"@[0] == 'c');
    assert("evidence"@[0] == 'e');
    assert("pedigree"@[0] == 'p');
    assert("reference"@[0] == 'r');
}

/// A hash of a component has the algorithm of its tag and the value that is its
/// text, and stands behind those the component has.
pub proof fn hashes_are_their_tag_and_text(s: StateView, tag: TagView)
    requires
        s.pending_hash is Some,
        s.component is Some,
        s.pending_reference is None,
    ensures
        tag.name == "hash"@ ==> started(s, tag, false).pending_hash == tag.attr("alg"@),
        ({
            let after = ended(s, "hash"@);
            &&& after.component is Some
            &&& after.component->0 == (ComponentView {
                hashes: s.component->0.hashes.push(
                    HashView { algorithm: canonical(s.pending_hash->0), value: s.text },
                ),
                ..s.component->0
            })
            &&& after.pending_hash is None
        }),
{
    names_differ();
}

/// A reference has the type of its tag, the address and the comment that it holds,
/// and belongs to the component it is in, unless it has no address.
pub proof fn references_are_their_tag_and_text(s: StateView, tag: TagView, text: Seq<char>)
    requires
        tag.name == "reference"@,
        s.component is Some,
    ensures
        ({
            let open = started(s, tag, false);
            let r = open.pending_reference;
            &&& r is Some
            &&& r->0.kind == match tag.attr("type"@) {
                Some(kind) => kind,
                None => "other"@,
            }
            &&& r->0.url.len() == 0 && r->0.comment is None
            &&& open.component == s.component
            &&& reference_described(r->0, "url"@, text) == (ExternalReferenceView {
                url: text,
                ..r->0
            })
            &&& reference_described(r->0, "comment"@, text) == (ExternalReferenceView {
                comment: Some(text),
                ..r->0
            })
        }),
        s.pending_reference matches Some(r) ==> {
            let after = ended(s, "reference"@);
            &&& after.pending_reference is None
            &&& after.component is Some
            &&& after.component->0 == (ComponentView {
                external_references: if r.url.len() > 0 {
                    s.component->0.external_references.push(r)
                } else {
                    s.component->0.external_references
                },
                ..s.component->0
            })
        },
{
    names_differ();
    reveal_strlit("url");
    reveal_strlit("comment");
    assert("url"@.len() == 3 && "comment"@.len() == 7);
}

/// A dependency inside another is what that one depends on; one inside no other
/// depends on nothing yet. While it is open, those inside it are its own.
pub proof fn inner_dependencies_are_depended_on(s: StateView, tag: TagView)
    requires
        tag.name == "dependency"@,
        tag.attr("ref"@) is Some,
    ensures
        ({
            let to = tag.attr("ref"@)->0;
            let open = started(s, tag, false);
            let bare = started(s, tag, true);
            &&& open.dependency_stack == s.dependency_stack.push(to)
            &&& bare.dependency_stack == s.dependency_stack
            &&& open.doc.dependencies == bare.doc.dependencies
            &&& s.dependency_stack.len() > 0 ==> has_edge(
                open.doc.dependencies,
                s.dependency_stack.last(),
                to,
            )
            &&& s.dependency_stack.len() == 0 ==> open.doc.dependencies == s.doc.dependencies
            &&& ended(open, "dependency"@).dependency_stack == s.dependency_stack
            &&& open.component == s.component
        }),
{
    names_differ();
    let to = tag.attr("ref"@)->0;
    if s.dependency_stack.len() > 0 {
        an_edge_is_added(s.doc.dependencies, s.dependency_stack.last(), to);
    }
    assert(s.dependency_stack.push(to).drop_last() =~= s.dependency_stack);
}

/// The root states the identity and the version of the document, and its namespace
/// the version of the format.
pub proof fn roots_state_the_document(doc: SbomDocView, tag: TagView)
    ensures
        ({
            let after = bom_started(doc, tag);
            &&& after.document_id == tag.attr("serialNumber"@)
            &&& after.version == match tag.attr("version"@) {
                Some(version) => parse_u32_spec(version),
                None => None,
            }
            &&& (tag.attr("xmlns"@) matches Some(namespace) ==> match namespace_version(namespace) {
                Some(version) => after.spec matches Some(origin) && origin.version == version,
                None => after.spec is None,
            })
            &&& after.components == doc.components
            &&& after.dependencies == doc.dependencies
        }),
{
}

/// A component in the metadata is what the document is about; one in the list of
/// the document, or in the list of a component that counts, is listed; any other
/// is neither.
pub proof fn components_count_where_they_stand(s: StateView, path: Seq<Seq<char>>)
    requires
        path.len() >= 2,
    ensures
        ({
            let inner = path[path.len() - 1];
            let outer = path[path.len() - 2];
            let place = place_of(s, path);
            &&& s.component is None && inner == "metadata"@ ==> place == Place::Subject
            &&& s.component is None && inner == "components"@ && outer == "bom"@ ==> place
                == Place::Listed
            &&& s.component is Some && inner == "components"@ && outer == "component"@ && (s.place
                == Place::Subject || s.place == Place::Listed) ==> place == Place::Listed
            &&& s.component is Some && !(inner == "components"@ && outer == "component"@) ==> place
                == Place::Elsewhere
            &&& s.component is Some && s.place == Place::Elsewhere ==> place == Place::Elsewhere
            &&& s.component is None && inner != "metadata"@ && !(inner == "components"@ && outer
                == "bom"@) ==> place == Place::Elsewhere
        }),
{
    reveal_strlit("metadata");
    reveal_strlit("components");
    assert("metadata"@.len() == 8 && "components"@.len() == 10);
}

} // verus!
