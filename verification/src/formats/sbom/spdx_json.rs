//! SPDX JSON, spec versions 2.2 and 2.3.
//!
//! Three things separate SPDX from CycloneDX, and each one costs something:
//!
//! - Identifiers are constrained, so writing renames every element and rewrites
//!   the relationship graph against the new names.
//! - Licences are expressions, not free text. A licence recorded only by name
//!   becomes `NOASSERTION` and is reported.
//! - `creationInfo.created` is required. It comes from the source and otherwise
//!   falls back to a fixed epoch, with a notice.
//!
//! `copyrightText`, `licenseConcluded` and `licenseDeclared` are always
//! written, which 2.2 requires and 2.3 allows. `primaryPackagePurpose` only
//! exists from 2.3 and is left out of a 2.2 document, whose schema forbids
//! unknown properties.

use vstd::prelude::*;

use crate::error::{parse_error, Error, ErrorView};
use crate::formats::sbom::identifiers::{
    assignment_keeps_names_apart, different_sources_have_different_names, every_component_is_named,
    reserved_names_stay_reserved, source_of, Identifiers, IdentifiersView,
};

use crate::hash::{fingerprint, fingerprint_of};
use crate::json::{
    decode, decoded, field, filter_map_items, json_result, list_of, map_items, maybe, members,
    text_field, Fields, Json, JsonView, Members, Shape,
};
use crate::model::sbom::{
    dependency_at, find_dependency, sort_doc, version_in, Component, ComponentKind, ComponentView,
    Dependency, DependencyView, ExternalReference, ExternalReferenceView, HashView, License,
    LicenseView, SbomDoc, SbomDocView, SpecOrigin, SpecOriginView, Tool, ToolView,
};
use crate::registry::{read_result, wrong_kind, Doc, DocView};
use crate::text::{
    begins, chars, concat, concat3, concat4, contains_char, cut, decimal, digit, has_char, is_digit,
    number, number_wide, owned, rcut, rsplit_once, same, split_once, starts_with, strip_prefix,
    trim, trimmed, without_prefix,
};
use crate::value::{
    any_in, append_all, append_one, count_in, count_values, either, empty_list, filter_map_list,
    filter_mapped, map_list, non_empty, or_else, or_text, replace_at, text_or, Value,
};
use crate::warn::{CtxView, FormatCtx};

verus! {

pub const FORMAT: &'static str = "spdx-json";

pub const FAMILY: &'static str = "spdx";

pub const FALLBACK_VERSION: &'static str = "SPDX-2.3";

/// SPDX's stand-in for "nobody has determined this".
pub const NOASSERTION: &'static str = "NOASSERTION";

/// Used when the source carries no creation time. Deliberately recognizable:
/// 1970 reads as "not measured", where a plausible date would pass for real.
pub const UNKNOWN_TIME: &'static str = "1970-01-01T00:00:00Z";

pub const DOCUMENT_ID: &'static str = "SPDXRef-DOCUMENT";

/// What the writer signs with.
pub const WRITER: &'static str = "udc-0.1.0";

// ---------------------------------------------------------------------------
// The shape of a document
// ---------------------------------------------------------------------------

#[verifier::allow_in_spec]
pub fn package_shape() -> Shape
    returns
        Shape::Record(
            text_field("SPDXID", text_field("name", text_field("versionInfo", text_field(
                "description",
                text_field("summary", text_field("supplier", text_field("originator", text_field(
                    "copyrightText",
                    text_field("licenseDeclared", text_field("licenseConcluded", field(
                        "checksums",
                        list_of(checksum_shape()),
                        field(
                            "externalRefs",
                            list_of(reference_shape()),
                            text_field("primaryPackagePurpose", text_field(
                                "downloadLocation",
                                text_field("homepage", Fields::End),
                            )),
                        ),
                    ))),
                )))),
            )))),
        ),
{
    Shape::Record(
        text_field("SPDXID", text_field("name", text_field("versionInfo", text_field(
            "description",
            text_field("summary", text_field("supplier", text_field("originator", text_field(
                "copyrightText",
                text_field("licenseDeclared", text_field("licenseConcluded", field(
                    "checksums",
                    list_of(checksum_shape()),
                    field(
                        "externalRefs",
                        list_of(reference_shape()),
                        text_field("primaryPackagePurpose", text_field(
                            "downloadLocation",
                            text_field("homepage", Fields::End),
                        )),
                    ),
                ))),
            )))),
        )))),
    )
}

#[verifier::allow_in_spec]
pub fn checksum_shape() -> Shape
    returns
        Shape::Record(text_field("algorithm", text_field("checksumValue", Fields::End))),
{
    Shape::Record(text_field("algorithm", text_field("checksumValue", Fields::End)))
}

#[verifier::allow_in_spec]
pub fn reference_shape() -> Shape
    returns
        Shape::Record(
            text_field(
                "referenceCategory",
                text_field("referenceType", text_field("referenceLocator", Fields::End)),
            ),
        ),
{
    Shape::Record(
        text_field(
            "referenceCategory",
            text_field("referenceType", text_field("referenceLocator", Fields::End)),
        ),
    )
}

#[verifier::allow_in_spec]
pub fn relationship_shape() -> Shape
    returns
        Shape::Record(
            text_field(
                "spdxElementId",
                text_field("relatedSpdxElement", text_field("relationshipType", Fields::End)),
            ),
        ),
{
    Shape::Record(
        text_field(
            "spdxElementId",
            text_field("relatedSpdxElement", text_field("relationshipType", Fields::End)),
        ),
    )
}

#[verifier::allow_in_spec]
pub fn creation_shape() -> Shape
    returns
        Shape::Record(text_field("created", field("creators", list_of(Shape::Text), Fields::End))),
{
    Shape::Record(text_field("created", field("creators", list_of(Shape::Text), Fields::End)))
}

#[verifier::allow_in_spec]
pub fn document_shape() -> Shape
    returns
        Shape::Record(
            text_field("spdxVersion", text_field("SPDXID", text_field("name", text_field(
                "documentNamespace",
                field("creationInfo", maybe(creation_shape()), field(
                    "packages",
                    list_of(package_shape()),
                    field("relationships", list_of(relationship_shape()), field(
                        "files",
                        list_of(Shape::Any),
                        field("snippets", list_of(Shape::Any), field(
                            "documentDescribes",
                            list_of(Shape::Text),
                            Fields::End,
                        )),
                    )),
                )),
            )))),
        ),
{
    Shape::Record(
        text_field("spdxVersion", text_field("SPDXID", text_field("name", text_field(
            "documentNamespace",
            field("creationInfo", maybe(creation_shape()), field(
                "packages",
                list_of(package_shape()),
                field("relationships", list_of(relationship_shape()), field(
                    "files",
                    list_of(Shape::Any),
                    field("snippets", list_of(Shape::Any), field(
                        "documentDescribes",
                        list_of(Shape::Text),
                        Fields::End,
                    )),
                )),
            )),
        )))),
    )
}

// ---------------------------------------------------------------------------
// Vocabulary
// ---------------------------------------------------------------------------

pub open spec fn kind_of_purpose(purpose: Seq<char>) -> Option<ComponentKind> {
    if purpose == "APPLICATION"@ {
        Some(ComponentKind::Application)
    } else if purpose == "FRAMEWORK"@ {
        Some(ComponentKind::Framework)
    } else if purpose == "LIBRARY"@ {
        Some(ComponentKind::Library)
    } else if purpose == "CONTAINER"@ {
        Some(ComponentKind::Container)
    } else if purpose == "OPERATING_SYSTEM"@ {
        Some(ComponentKind::OperatingSystem)
    } else if purpose == "DEVICE"@ {
        Some(ComponentKind::Device)
    } else if purpose == "FIRMWARE"@ {
        Some(ComponentKind::Firmware)
    } else if purpose == "FILE"@ {
        Some(ComponentKind::File)
    } else {
        None
    }
}

pub fn purpose_to_kind(purpose: &str) -> (r: Option<ComponentKind>)
    ensures
        r == kind_of_purpose(purpose@),
{
    if same(purpose, "APPLICATION") {
        Some(ComponentKind::Application)
    } else if same(purpose, "FRAMEWORK") {
        Some(ComponentKind::Framework)
    } else if same(purpose, "LIBRARY") {
        Some(ComponentKind::Library)
    } else if same(purpose, "CONTAINER") {
        Some(ComponentKind::Container)
    } else if same(purpose, "OPERATING_SYSTEM") {
        Some(ComponentKind::OperatingSystem)
    } else if same(purpose, "DEVICE") {
        Some(ComponentKind::Device)
    } else if same(purpose, "FIRMWARE") {
        Some(ComponentKind::Firmware)
    } else if same(purpose, "FILE") {
        Some(ComponentKind::File)
    } else {
        None
    }
}

pub open spec fn purpose_of_kind(kind: ComponentKind) -> Option<Seq<char>> {
    match kind {
        ComponentKind::Application => Some("APPLICATION"@),
        ComponentKind::Framework => Some("FRAMEWORK"@),
        ComponentKind::Library => Some("LIBRARY"@),
        ComponentKind::Container => Some("CONTAINER"@),
        ComponentKind::OperatingSystem => Some("OPERATING_SYSTEM"@),
        ComponentKind::Device => Some("DEVICE"@),
        ComponentKind::Firmware => Some("FIRMWARE"@),
        ComponentKind::File => Some("FILE"@),
        _ => None,
    }
}

pub fn kind_to_purpose(kind: ComponentKind) -> (r: Option<&'static str>)
    ensures
        r.deep_view() == purpose_of_kind(kind),
{
    match kind {
        ComponentKind::Application => Some("APPLICATION"),
        ComponentKind::Framework => Some("FRAMEWORK"),
        ComponentKind::Library => Some("LIBRARY"),
        ComponentKind::Container => Some("CONTAINER"),
        ComponentKind::OperatingSystem => Some("OPERATING_SYSTEM"),
        ComponentKind::Device => Some("DEVICE"),
        ComponentKind::Firmware => Some("FIRMWARE"),
        ComponentKind::File => Some("FILE"),
        _ => None,
    }
}

/// A kind that SPDX can express reads back as that kind.
pub proof fn purposes_read_back(kind: ComponentKind)
    ensures
        purpose_of_kind(kind) matches Some(purpose) ==> kind_of_purpose(purpose) == Some(kind),
{
    reveal_strlit("APPLICATION");
    reveal_strlit("FRAMEWORK");
    reveal_strlit("LIBRARY");
    reveal_strlit("CONTAINER");
    reveal_strlit("OPERATING_SYSTEM");
    reveal_strlit("DEVICE");
    reveal_strlit("FIRMWARE");
    reveal_strlit("FILE");
    assert("APPLICATION"@[0] == 'A');
    assert("FRAMEWORK"@[1] == 'R');
    assert("LIBRARY"@[0] == 'L');
    assert("CONTAINER"@[0] == 'C');
    assert("OPERATING_SYSTEM"@[0] == 'O');
    assert("DEVICE"@[0] == 'D');
    assert("FIRMWARE"@.len() == 8);
    assert("FIRMWARE"@[1] == 'I');
    assert("FIRMWARE"@[0] == 'F');
    assert("FRAMEWORK"@[0] == 'F');
    assert("FILE"@[0] == 'F');
    assert("FILE"@.len() == 4);
    assert("FILE"@[1] == 'I');
}

/// Neither empty nor one of SPDX's ways of saying nothing.
pub open spec fn usable(raw: Seq<char>) -> bool {
    raw.len() > 0 && raw != NOASSERTION@ && raw != "NONE"@
}

pub fn usable_license(raw: &str) -> (r: bool)
    ensures
        r == usable(raw@),
{
    !raw.is_empty() && !same(raw, NOASSERTION) && !same(raw, "NONE")
}

pub open spec fn if_usable(raw: Option<Seq<char>>) -> Option<Seq<char>> {
    match raw {
        Some(r) => if usable(r) {
            Some(r)
        } else {
            None
        },
        None => None,
    }
}

fn usable_only(raw: Option<String>) -> (r: Option<String>)
    ensures
        r.deep_view() == if_usable(raw.deep_view()),
{
    match raw {
        Some(text) => if usable_license(text.as_str()) {
            Some(text)
        } else {
            None
        },
        None => None,
    }
}

/// SPDX writes actors as `Organization: Acme` or `Person: Ada`.
pub open spec fn actor_of(raw: Option<Seq<char>>) -> Option<Seq<char>> {
    match raw {
        None => None,
        Some(text) => {
            let bare = trim(text);
            if bare.len() == 0 || bare == NOASSERTION@ {
                None
            } else {
                match split_once(bare, ':') {
                    Some((prefix, rest)) => if trim(prefix) == "Organization"@ || trim(prefix)
                        == "Person"@ || trim(prefix) == "Tool"@ {
                        Some(trim(rest))
                    } else {
                        Some(bare)
                    },
                    None => Some(bare),
                }
            }
        },
    }
}

pub fn strip_actor(raw: &Option<String>) -> (r: Option<String>)
    ensures
        r.deep_view() == actor_of(raw.deep_view()),
{
    let text = match raw {
        Some(text) => text,
        None => {
            return None;
        },
    };
    let bare = trimmed(text.as_str());
    if bare.as_str().is_empty() || same(bare.as_str(), NOASSERTION) {
        return None;
    }
    match cut(bare.as_str(), ':') {
        Some((prefix, rest)) => {
            let word = trimmed(prefix.as_str());
            if same(word.as_str(), "Organization") || same(word.as_str(), "Person") || same(
                word.as_str(),
                "Tool",
            ) {
                Some(trimmed(rest.as_str()))
            } else {
                Some(bare)
            }
        },
        None => Some(bare),
    }
}

/// A bare identifier is an id; anything with an operator is an expression.
pub open spec fn license_of(text: Seq<char>) -> LicenseView {
    if contains_char(text, ' ') {
        LicenseView::Expression(text)
    } else {
        LicenseView::Id(text)
    }
}

pub fn as_license(text: &str) -> (r: License)
    ensures
        r.deep_view() == license_of(text@),
{
    if has_char(text, ' ') {
        License::Expression(owned(text))
    } else {
        License::Id(owned(text))
    }
}

/// A creator such as `Tool: syft-1.4.1`; none for a person.
pub open spec fn tool_of(creator: Seq<char>) -> Option<ToolView> {
    match strip_prefix(creator, "Tool:"@) {
        None => None,
        Some(raw) => {
            let rest = trim(raw);
            match rsplit_once(rest, '-') {
                Some((name, version)) => if version.len() > 0 && is_digit(version[0]) {
                    Some(ToolView { name, version: Some(version), vendor: None })
                } else {
                    Some(ToolView { name: rest, version: None, vendor: None })
                },
                None => Some(ToolView { name: rest, version: None, vendor: None }),
            }
        },
    }
}

fn read_tool(creator: &Json) -> (r: Option<Tool>)
    ensures
        r.deep_view() == tool_in(creator.deep_view()),
{
    let text = match creator.text() {
        Some(text) => text,
        None => {
            return None;
        },
    };
    match without_prefix(text.as_str(), "Tool:") {
        None => None,
        Some(raw) => {
            let rest = trimmed(raw.as_str());
            if let Some((name, version)) = rcut(rest.as_str(), '-') {
                let cs = chars(version.as_str());
                if cs.len() > 0 && digit(cs[0]) {
                    return Some(Tool { name, version: Some(version), vendor: None });
                }
            }
            Some(Tool { name: rest, version: None, vendor: None })
        },
    }
}

pub open spec fn tool_in(creator: JsonView) -> Option<ToolView> {
    match creator.text() {
        Some(text) => tool_of(text),
        None => None,
    }
}

/// The tools among the creators.
pub fn read_tools(creators: &Json) -> (r: Vec<Tool>)
    ensures
        r.deep_view() == filter_mapped(
            creators.deep_view().items(),
            |creator: JsonView| tool_in(creator),
        ),
{
    filter_map_items(
        creators,
        |creator: &Json| -> (r: Option<Tool>)
            ensures
                r.deep_view() == tool_in(creator.deep_view())
            { read_tool(creator) },
        Ghost(|creator: JsonView| tool_in(creator)),
    )
}

// ---------------------------------------------------------------------------
// Packages
// ---------------------------------------------------------------------------

pub open spec fn checksum_hash(checksum: JsonView) -> Option<HashView> {
    match (checksum.get("algorithm"@).text(), checksum.get("checksumValue"@).text()) {
        (Some(algorithm), Some(value)) => Some(HashView::of(algorithm, value)),
        _ => None,
    }
}

/// What an external reference says: its type and its locator.
pub open spec fn reference_parts(reference: JsonView) -> Option<(Seq<char>, Seq<char>)> {
    match (reference.get("referenceType"@).text(), reference.get("referenceLocator"@).text()) {
        (Some(kind), Some(locator)) => Some((kind, locator)),
        _ => None,
    }
}

pub open spec fn purl_in(reference: JsonView) -> Option<Seq<char>> {
    match reference_parts(reference) {
        Some((kind, locator)) => if kind == "purl"@ {
            Some(locator)
        } else {
            None
        },
        None => None,
    }
}

pub open spec fn cpe_in(reference: JsonView) -> Option<Seq<char>> {
    match reference_parts(reference) {
        Some((kind, locator)) => if kind != "purl"@ && starts_with(kind, "cpe"@) {
            Some(locator)
        } else {
            None
        },
        None => None,
    }
}

pub open spec fn other_in(reference: JsonView) -> Option<ExternalReferenceView> {
    match reference_parts(reference) {
        Some((kind, locator)) => if kind != "purl"@ && !starts_with(kind, "cpe"@) {
            Some(
                ExternalReferenceView {
                    kind: or_text(reference.get("referenceCategory"@).text(), kind),
                    url: locator,
                    comment: None,
                },
            )
        } else {
            None
        },
        None => None,
    }
}

/// The last of the texts.
pub open spec fn last_text(list: Seq<Seq<char>>) -> Option<Seq<char>> {
    if list.len() == 0 {
        None
    } else {
        Some(list.last())
    }
}

pub open spec fn website(homepage: Option<Seq<char>>) -> Seq<ExternalReferenceView> {
    match homepage {
        Some(url) => seq![ExternalReferenceView { kind: "website"@, url, comment: None }],
        None => Seq::empty(),
    }
}

pub open spec fn license_list(license: Option<Seq<char>>) -> Seq<LicenseView> {
    match license {
        Some(text) => seq![license_of(text)],
        None => Seq::empty(),
    }
}

pub open spec fn stated(text: Option<Seq<char>>) -> Option<Seq<char>> {
    match non_empty(text) {
        Some(t) => if t == NOASSERTION@ {
            None
        } else {
            Some(t)
        },
        None => None,
    }
}

/// The component that a package is. `licenseDeclared` is what the package says
/// about itself; `licenseConcluded`, the auditor's verdict, comes second.
pub open spec fn package_component(package: JsonView) -> ComponentView {
    let refs = package.get("externalRefs"@).items();
    ComponentView {
        bom_ref: package.get("SPDXID"@).text(),
        kind: match package.get("primaryPackagePurpose"@).text() {
            Some(purpose) => match kind_of_purpose(purpose) {
                Some(kind) => kind,
                None => ComponentView::empty().kind,
            },
            None => ComponentView::empty().kind,
        },
        version: package.get("versionInfo"@).text(),
        purl: last_text(filter_mapped(refs, |r: JsonView| purl_in(r))),
        cpe: last_text(filter_mapped(refs, |r: JsonView| cpe_in(r))),
        description: stated(
            or_else(package.get("description"@).text(), package.get("summary"@).text()),
        ),
        author: actor_of(package.get("originator"@).text()),
        supplier: actor_of(package.get("supplier"@).text()),
        copyright: if_usable(package.get("copyrightText"@).text()),
        licenses: license_list(
            or_else(
                if_usable(package.get("licenseDeclared"@).text()),
                if_usable(package.get("licenseConcluded"@).text()),
            ),
        ),
        hashes: filter_mapped(
            package.get("checksums"@).items(),
            |checksum: JsonView| checksum_hash(checksum),
        ),
        external_references: filter_mapped(refs, |r: JsonView| other_in(r)) + website(
            if_usable(package.get("homepage"@).text()),
        ),
        ..ComponentView::of(or_text(package.get("name"@).text(), ""@))
    }
}

fn checksum_of(checksum: &Json) -> (r: Option<crate::model::sbom::Hash>)
    ensures
        r.deep_view() == checksum_hash(checksum.deep_view()),
{
    match (checksum.get("algorithm").text(), checksum.get("checksumValue").text()) {
        (Some(algorithm), Some(value)) => Some(crate::model::sbom::Hash::new(algorithm.as_str(), value.as_str())),
        _ => None,
    }
}

fn parts_of(reference: &Json) -> (r: Option<(String, String)>)
    ensures
        r.deep_view() == reference_parts(reference.deep_view()),
{
    match (reference.get("referenceType").text(), reference.get("referenceLocator").text()) {
        (Some(kind), Some(locator)) => Some((kind, locator)),
        _ => None,
    }
}

fn purl_of(reference: &Json) -> (r: Option<String>)
    ensures
        r.deep_view() == purl_in(reference.deep_view()),
{
    match parts_of(reference) {
        Some((kind, locator)) => if same(kind.as_str(), "purl") {
            Some(locator)
        } else {
            None
        },
        None => None,
    }
}

fn cpe_of(reference: &Json) -> (r: Option<String>)
    ensures
        r.deep_view() == cpe_in(reference.deep_view()),
{
    match parts_of(reference) {
        Some((kind, locator)) => if !same(kind.as_str(), "purl") && begins(kind.as_str(), "cpe") {
            Some(locator)
        } else {
            None
        },
        None => None,
    }
}

fn other_of(reference: &Json) -> (r: Option<ExternalReference>)
    ensures
        r.deep_view() == other_in(reference.deep_view()),
{
    match parts_of(reference) {
        Some((kind, locator)) => if !same(kind.as_str(), "purl") && !begins(kind.as_str(), "cpe") {
            let category = reference.get("referenceCategory").text();
            Some(
                ExternalReference {
                    kind: owned(text_or(&category, kind.as_str())),
                    url: locator,
                    comment: None,
                },
            )
        } else {
            None
        },
        None => None,
    }
}

fn last_one(list: Vec<String>) -> (r: Option<String>)
    ensures
        r.deep_view() == last_text(list.deep_view()),
{
    if list.len() == 0 {
        None
    } else {
        Some(list[list.len() - 1].clone())
    }
}

fn stated_only(text: Option<String>) -> (r: Option<String>)
    ensures
        r.deep_view() == stated(text.deep_view()),
{
    match text {
        Some(t) => if t.as_str().is_empty() || same(t.as_str(), NOASSERTION) {
            None
        } else {
            Some(t)
        },
        None => None,
    }
}

fn purpose_kind(purpose: &Option<String>) -> (r: ComponentKind)
    ensures
        r == match purpose.deep_view() {
            Some(purpose) => match kind_of_purpose(purpose) {
                Some(kind) => kind,
                None => ComponentView::empty().kind,
            },
            None => ComponentView::empty().kind,
        },
{
    if let Some(purpose) = purpose {
        if let Some(kind) = purpose_to_kind(purpose.as_str()) {
            return kind;
        }
    }
    Component::default().kind
}

fn references_of(package: &Json) -> (r: Vec<ExternalReference>)
    ensures
        r.deep_view() == package_component(package.deep_view()).external_references,
{
    let mut references = filter_map_items(
        package.get("externalRefs"),
        |r: &Json| -> (o: Option<ExternalReference>)
            ensures
                o.deep_view() == other_in(r.deep_view())
            { other_of(r) },
        Ghost(|r: JsonView| other_in(r)),
    );
    let mut site: Vec<ExternalReference> = empty_list();
    if let Some(url) = usable_only(package.get("homepage").text()) {
        append_one(&mut site, ExternalReference { kind: owned("website"), url, comment: None });
    }
    assert(site.deep_view() =~= website(
        if_usable(package.deep_view().get("homepage"@).text()),
    ));
    append_all(&mut references, site);
    references
}

pub fn read_package(package: &Json) -> (r: Component)
    ensures
        r.deep_view() == package_component(package.deep_view()),
{
    let refs = package.get("externalRefs");
    let purls = filter_map_items(
        refs,
        |r: &Json| -> (o: Option<String>)
            ensures
                o.deep_view() == purl_in(r.deep_view())
            { purl_of(r) },
        Ghost(|r: JsonView| purl_in(r)),
    );
    let cpes = filter_map_items(
        refs,
        |r: &Json| -> (o: Option<String>)
            ensures
                o.deep_view() == cpe_in(r.deep_view())
            { cpe_of(r) },
        Ghost(|r: JsonView| cpe_in(r)),
    );
    let hashes = filter_map_items(
        package.get("checksums"),
        |checksum: &Json| -> (o: Option<crate::model::sbom::Hash>)
            ensures
                o.deep_view() == checksum_hash(checksum.deep_view())
            { checksum_of(checksum) },
        Ghost(|checksum: JsonView| checksum_hash(checksum)),
    );
    let mut licenses: Vec<License> = empty_list();
    let license = either(
        usable_only(package.get("licenseDeclared").text()),
        usable_only(package.get("licenseConcluded").text()),
    );
    if let Some(text) = &license {
        append_one(&mut licenses, as_license(text.as_str()));
    }
    assert(licenses.deep_view() =~= license_list(license.deep_view()));
    let name = package.get("name").text();
    let mut component = Component::new(text_or(&name, ""));
    component.bom_ref = package.get("SPDXID").text();
    component.version = package.get("versionInfo").text();
    component.description = stated_only(
        either(package.get("description").text(), package.get("summary").text()),
    );
    component.supplier = strip_actor(&package.get("supplier").text());
    component.author = strip_actor(&package.get("originator").text());
    component.copyright = usable_only(package.get("copyrightText").text());
    component.kind = purpose_kind(&package.get("primaryPackagePurpose").text());
    component.licenses = licenses;
    component.hashes = hashes;
    component.purl = last_one(purls);
    component.cpe = last_one(cpes);
    component.external_references = references_of(package);
    component
}

// ---------------------------------------------------------------------------
// Relationships
// ---------------------------------------------------------------------------

/// The graph with more edges from one element.
pub open spec fn with_edges(
    dependencies: Seq<DependencyView>,
    from: Seq<char>,
    targets: Seq<Seq<char>>,
) -> Seq<DependencyView> {
    let at = dependency_at(dependencies, from);
    if at < dependencies.len() {
        dependencies.update(
            at,
            DependencyView { depends_on: dependencies[at].depends_on + targets, ..dependencies[at] },
        )
    } else {
        dependencies.push(DependencyView { bom_ref: from, depends_on: targets })
    }
}

pub fn add_edges(dependencies: &mut Vec<Dependency>, from: &str, targets: Vec<String>)
    ensures
        final(dependencies).deep_view() == with_edges(
            old(dependencies).deep_view(),
            from@,
            targets.deep_view(),
        ),
{
    let at = find_dependency(dependencies, from);
    if at < dependencies.len() {
        let mut slot = dependencies[at].copy();
        append_all(&mut slot.depends_on, targets);
        replace_at(dependencies, at, slot);
    } else {
        append_one(dependencies, Dependency { bom_ref: owned(from), depends_on: targets });
    }
}

/// The graph that the relationships state.
pub open spec fn graph_of(relationships: Seq<JsonView>) -> Seq<DependencyView>
    decreases relationships.len(),
{
    if relationships.len() == 0 {
        Seq::empty()
    } else {
        let before = graph_of(relationships.drop_last());
        let last = relationships.last();
        if last.get("relationshipType"@).text() == Some("DEPENDS_ON"@) {
            match (last.get("spdxElementId"@).text(), last.get("relatedSpdxElement"@).text()) {
                (Some(from), Some(to)) => with_edges(before, from, seq![to]),
                _ => before,
            }
        } else {
            before
        }
    }
}

/// A relationship that the dependency graph has no place for.
pub open spec fn is_other(relationship: JsonView) -> bool {
    match relationship.get("relationshipType"@).text() {
        Some(kind) => kind != "DEPENDS_ON"@ && kind != "DESCRIBES"@ && kind != "DESCRIBED_BY"@,
        None => false,
    }
}

/// What a relationship says the document is about.
pub open spec fn described_by(relationship: JsonView, document: Seq<char>) -> Option<Seq<char>> {
    if relationship.get("relationshipType"@).text() == Some("DESCRIBES"@) && relationship.get(
        "spdxElementId"@,
    ).text() == Some(document) {
        relationship.get("relatedSpdxElement"@).text()
    } else {
        None
    }
}

/// The position of the first component with this reference, or the length.
pub open spec fn component_at(components: Seq<ComponentView>, bom_ref: Seq<char>) -> int
    decreases components.len(),
{
    if components.len() == 0 || components[0].bom_ref == Some(bom_ref) {
        0
    } else {
        1 + component_at(components.skip(1), bom_ref)
    }
}

fn find_component(components: &Vec<Component>, bom_ref: &str) -> (r: usize)
    ensures
        r <= components@.len(),
        r == component_at(components.deep_view(), bom_ref@),
{
    let ghost all = components.deep_view();
    let mut at: usize = 0;
    assert(all.skip(0) =~= all);
    while at < components.len()
        invariant
            at <= components@.len(),
            all == components.deep_view(),
            component_at(all, bom_ref@) == at + component_at(all.skip(at as int), bom_ref@),
        decreases components@.len() - at,
    {
        assert(all.skip(at as int)[0] == all[at as int]);
        assert(all.skip(at as int).skip(1) =~= all.skip(at as int + 1));
        if let Some(own) = &components[at].bom_ref {
            if same(own.as_str(), bom_ref) {
                return at;
            }
        }
        at = at + 1;
    }
    at
}

fn read_graph(relationships: &Json) -> (r: Vec<Dependency>)
    ensures
        r.deep_view() == graph_of(relationships.deep_view().items()),
{
    let ghost all = relationships.deep_view().items();
    let mut out: Vec<Dependency> = empty_list();
    let mut i: usize = 0;
    assert(all.take(0) =~= Seq::empty());
    while i < relationships.count()
        invariant
            i <= all.len(),
            all == relationships.deep_view().items(),
            out.deep_view() == graph_of(all.take(i as int)),
        decreases all.len() - i,
    {
        assert(all.take(i as int + 1).drop_last() =~= all.take(i as int));
        let relationship = relationships.item(i);
        if is_kind(relationship, "DEPENDS_ON") {
            if let (Some(from), Some(to)) = (
                relationship.get("spdxElementId").text(),
                relationship.get("relatedSpdxElement").text(),
            ) {
                let mut targets: Vec<String> = empty_list();
                append_one(&mut targets, to);
                assert(targets.deep_view() =~= seq![to@]);
                add_edges(&mut out, from.as_str(), targets);
            }
        }
        i = i + 1;
    }
    assert(all.take(i as int) =~= all);
    out
}

fn is_kind(relationship: &Json, kind: &str) -> (r: bool)
    ensures
        r == (relationship.deep_view().get("relationshipType"@).text() == Some(kind@)),
{
    match relationship.get("relationshipType").text() {
        Some(own) => same(own.as_str(), kind),
        None => false,
    }
}

fn described(relationship: &Json, document: &str) -> (r: Option<String>)
    ensures
        r.deep_view() == described_by(relationship.deep_view(), document@),
{
    if !is_kind(relationship, "DESCRIBES") {
        return None;
    }
    match relationship.get("spdxElementId").text() {
        Some(from) => if same(from.as_str(), document) {
            relationship.get("relatedSpdxElement").text()
        } else {
            None
        },
        None => None,
    }
}

fn other_relationship(relationship: &Json) -> (r: bool)
    ensures
        r == is_other(relationship.deep_view()),
{
    match relationship.get("relationshipType").text() {
        Some(kind) => !same(kind.as_str(), "DEPENDS_ON") && !same(kind.as_str(), "DESCRIBES")
            && !same(kind.as_str(), "DESCRIBED_BY"),
        None => false,
    }
}

// ---------------------------------------------------------------------------
// Reading
// ---------------------------------------------------------------------------

/// What the document is about: the first element that it describes.
pub open spec fn subject_ref(document: JsonView) -> Option<Seq<char>> {
    let own = or_text(document.get("SPDXID"@).text(), DOCUMENT_ID@);
    let all = filter_mapped(
        document.get("relationships"@).items(),
        |r: JsonView| described_by(r, own),
    ) + document.get("documentDescribes"@).texts();
    if all.len() == 0 {
        None
    } else {
        Some(all[0])
    }
}

/// The number of relationships that are dropped.
pub open spec fn other_count(document: JsonView) -> nat {
    count_in(document.get("relationships"@).items(), |r: JsonView| is_other(r))
}

pub open spec fn read_document(document: JsonView, version: Seq<char>) -> SbomDocView {
    let packages = document.get("packages"@).items().map_values(
        |p: JsonView| package_component(p),
    );
    let at = match subject_ref(document) {
        Some(id) => component_at(packages, id),
        None => packages.len() as int,
    };
    sort_doc(
        SbomDocView {
            spec: Some(SpecOriginView { family: FAMILY@, version }),
            document_id: document.get("documentNamespace"@).text(),
            timestamp: document.get("creationInfo"@).get("created"@).text(),
            tools: filter_mapped(
                document.get("creationInfo"@).get("creators"@).items(),
                |creator: JsonView| tool_in(creator),
            ),
            subject: if at < packages.len() {
                Some(packages[at])
            } else {
                None
            },
            components: if at < packages.len() {
                packages.remove(at)
            } else {
                packages
            },
            dependencies: graph_of(document.get("relationships"@).items()),
            ..SbomDocView::empty()
        },
    )
}

pub open spec fn read_notices(document: JsonView, ctx: CtxView) -> CtxView {
    ctx.lossy_if(
        other_count(document) > 0,
        "spdx-json: "@ + decimal(other_count(document))
            + " relationship(s) other than DEPENDS_ON were dropped; the pivot models a dependency graph, not SPDX's full relationship vocabulary"@,
    ).lossy_if(
        document.get("files"@).items().len() > 0,
        "spdx-json: "@ + decimal(document.get("files"@).items().len())
            + " file entr(ies) were dropped; the pivot lists packages"@,
    ).lossy_if(
        document.get("snippets"@).items().len() > 0,
        "spdx-json: snippets were dropped"@,
    )
}

pub open spec fn has_notes(element: JsonView) -> bool {
    element.get("annotations"@).items().len() > 0
}

/// The document, or a package of it, carries annotations.
pub open spec fn annotated(json: JsonView) -> bool {
    has_notes(json) || any_in(json.get("packages"@).items(), |p: JsonView| has_notes(p))
}

/// The document and notices that reading gives, or the refusal.
pub open spec fn read_spec(json: JsonView, ctx: CtxView) -> (
    Result<DocView, ErrorView>,
    CtxView,
) {
    match decoded(json, document_shape()) {
        None => (Err(parse_error(FORMAT@, "not the structure of an SPDX document"@)), ctx),
        Some(document) => match document.get("spdxVersion"@).text() {
            None => (
                Err(
                    parse_error(
                        FORMAT@,
                        "no `spdxVersion` — this does not look like an SPDX document"@,
                    ),
                ),
                ctx,
            ),
            Some(version) => if !starts_with(version, "SPDX-2"@) {
                (
                    Err(
                        parse_error(
                            FORMAT@,
                            "`"@ + version
                                + "` is not SPDX 2.x. SPDX 3 replaced the flat document with an RDF graph and is a different format, not a newer version of this one"@,
                        ),
                    ),
                    ctx,
                )
            } else {
                (
                    Ok(DocView::Sbom(read_document(document, version))),
                    read_notices(document, ctx).lossy_if(
                        annotated(json),
                        "spdx-json: annotations were dropped"@,
                    ),
                )
            },
        },
    }
}

fn find_subject(document: &Json) -> (r: Option<String>)
    ensures
        r.deep_view() == subject_ref(document.deep_view()),
{
    let id = document.get("SPDXID").text();
    let own = text_or(&id, DOCUMENT_ID);
    let mut all = filter_map_items(
        document.get("relationships"),
        |r: &Json| -> (o: Option<String>)
            ensures
                o.deep_view() == described_by(r.deep_view(), own@)
            { described(r, own) },
        Ghost(|r: JsonView| described_by(r, own@)),
    );
    append_all(&mut all, document.get("documentDescribes").texts());
    if all.len() == 0 {
        None
    } else {
        Some(all[0].clone())
    }
}

fn count_other(document: &Json) -> (r: usize)
    ensures
        r == other_count(document.deep_view()),
{
    let relationships = document.get("relationships");
    let ghost all = relationships.deep_view().items();
    let mut n: usize = 0;
    let mut i: usize = 0;
    assert(all.take(0) =~= Seq::empty());
    while i < relationships.count()
        invariant
            n <= i <= all.len(),
            all == relationships.deep_view().items(),
            n == count_in(all.take(i as int), |r: JsonView| is_other(r)),
        decreases all.len() - i,
    {
        assert(all.take(i as int + 1).drop_last() =~= all.take(i as int));
        if other_relationship(relationships.item(i)) {
            n = n + 1;
        }
        i = i + 1;
    }
    assert(all.take(i as int) =~= all);
    n
}

fn is_annotated(json: &Json) -> (r: bool)
    ensures
        r == annotated(json.deep_view()),
{
    if json.get("annotations").count() > 0 {
        return true;
    }
    let packages = json.get("packages");
    let ghost all = packages.deep_view().items();
    let mut i: usize = 0;
    while i < packages.count()
        invariant
            i <= all.len(),
            all == packages.deep_view().items(),
            all == json.deep_view().get("packages"@).items(),
            forall|j: int| 0 <= j < i ==> !has_notes(#[trigger] all[j]),
        decreases all.len() - i,
    {
        if packages.item(i).get("annotations").count() > 0 {
            assert(has_notes(all[i as int]));
            return true;
        }
        i = i + 1;
    }
    false
}

fn build_document(document: &Json, version: &str) -> (r: SbomDoc)
    ensures
        r.deep_view() == read_document(document.deep_view(), version@),
{
    let mut components = map_items(
        document.get("packages"),
        |p: &Json| -> (o: Component)
            ensures
                o.deep_view() == package_component(p.deep_view())
            { read_package(p) },
        Ghost(|p: JsonView| package_component(p)),
    );
    let at = match find_subject(document) {
        Some(id) => find_component(&components, id.as_str()),
        None => components.len(),
    };
    let mut doc = SbomDoc::default();
    doc.spec = Some(SpecOrigin::new(FAMILY, version));
    doc.document_id = document.get("documentNamespace").text();
    doc.timestamp = document.get("creationInfo").get("created").text();
    doc.tools = read_tools(document.get("creationInfo").get("creators"));
    if at < components.len() {
        let ghost before = components;
        let subject = components.remove(at);
        assert(components.deep_view() =~= before.deep_view().remove(at as int));
        doc.subject = Some(subject);
    }
    doc.components = components;
    doc.dependencies = read_graph(document.get("relationships"));
    doc.sort();
    doc
}

pub fn read(json: &Json, ctx: &mut FormatCtx) -> (r: Result<Doc, Error>)
    ensures
        (read_result(r), final(ctx)@) == read_spec(json.deep_view(), old(ctx)@),
{
    let document = match decode(json, &document_shape()) {
        Some(document) => document,
        None => {
            return Err(Error::parse(FORMAT, "not the structure of an SPDX document"));
        },
    };
    let version = match document.get("spdxVersion").text() {
        Some(version) => version,
        None => {
            return Err(
                Error::parse(
                    FORMAT,
                    "no `spdxVersion` — this does not look like an SPDX document",
                ),
            );
        },
    };
    if !begins(version.as_str(), "SPDX-2") {
        return Err(
            Error::parse(
                FORMAT,
                concat3(
                    "`",
                    version.as_str(),
                    "` is not SPDX 2.x. SPDX 3 replaced the flat document with an RDF graph and is a different format, not a newer version of this one",
                ).as_str(),
            ),
        );
    }
    let doc = build_document(&document, version.as_str());
    let others = count_other(&document);
    if others > 0 {
        ctx.lossy(
            concat3(
                "spdx-json: ",
                number(others as u64).as_str(),
                " relationship(s) other than DEPENDS_ON were dropped; the pivot models a dependency graph, not SPDX's full relationship vocabulary",
            ).as_str(),
        );
    }
    let files = document.get("files").count();
    if files > 0 {
        ctx.lossy(
            concat3(
                "spdx-json: ",
                number(files as u64).as_str(),
                " file entr(ies) were dropped; the pivot lists packages",
            ).as_str(),
        );
    }
    if document.get("snippets").count() > 0 {
        ctx.lossy("spdx-json: snippets were dropped");
    }
    if is_annotated(json) {
        ctx.lossy("spdx-json: annotations were dropped");
    }
    Ok(Doc::Sbom(Box::new(doc)))
}

// ---------------------------------------------------------------------------
// Writing
// ---------------------------------------------------------------------------

/// `2.3` is accepted as well as `SPDX-2.3`, since the selector reads better
/// without the prefix.
pub open spec fn full_version(raw: Seq<char>) -> Seq<char> {
    if starts_with(raw, "SPDX-"@) {
        raw
    } else {
        "SPDX-"@ + raw
    }
}

pub fn normalize_version(raw: &str) -> (r: String)
    ensures
        r@ == full_version(raw@),
{
    if begins(raw, "SPDX-") {
        owned(raw)
    } else {
        concat("SPDX-", raw)
    }
}

/// The version to write: the one asked for, else the source's own within this
/// family, else the format's default.
pub open spec fn target_of(doc: SbomDocView, ctx: CtxView) -> Seq<char> {
    let default = full_version(or_text(ctx.version, FALLBACK_VERSION@));
    if ctx.version_requested {
        default
    } else {
        match version_in(doc, FAMILY@) {
            Some(version) => full_version(version),
            None => default,
        }
    }
}

/// The version of an SPDX source survives unless the caller asks for another.
pub proof fn source_version_is_kept(doc: SbomDocView, version: Seq<char>, ctx: CtxView)
    requires
        !ctx.version_requested,
        version_in(doc, FAMILY@) == Some(version),
        starts_with(version, "SPDX-"@),
    ensures
        target_of(doc, ctx) == version,
{
}

/// The subject, if any, and the components.
pub open spec fn all_components(doc: SbomDocView) -> Seq<ComponentView> {
    (match doc.subject {
        Some(subject) => seq![subject],
        None => Seq::empty(),
    }) + doc.components
}

pub fn list_components(doc: &SbomDoc) -> (r: Vec<Component>)
    ensures
        r.deep_view() == all_components(doc.deep_view()),
{
    let mut all: Vec<Component> = empty_list();
    if let Some(subject) = &doc.subject {
        append_one(&mut all, subject.copy());
    }
    append_all(&mut all, doc.components.copy());
    assert(all.deep_view() =~= all_components(doc.deep_view()));
    all
}

/// A licence as an expression; none for one known only by name.
pub open spec fn expression_in(license: LicenseView) -> Option<Seq<char>> {
    match license {
        LicenseView::Id(id) => Some(id),
        LicenseView::Expression(expression) => Some(expression),
        LicenseView::Name(_) => None,
    }
}

/// The first licence that is an expression.
pub open spec fn declared_license(component: ComponentView) -> Option<Seq<char>> {
    let all = filter_mapped(component.licenses, |l: LicenseView| expression_in(l));
    if all.len() == 0 {
        None
    } else {
        Some(all[0])
    }
}

/// Licences, but none that is an expression.
pub open spec fn named_only(component: ComponentView) -> bool {
    declared_license(component) is None && component.licenses.len() > 0
}

fn expression_of(license: &License) -> (r: Option<String>)
    ensures
        r.deep_view() == expression_in(license.deep_view()),
{
    match license {
        License::Id(id) => Some(id.clone()),
        License::Expression(expression) => Some(expression.clone()),
        License::Name(_) => None,
    }
}

pub fn find_license(component: &Component) -> (r: Option<String>)
    ensures
        r.deep_view() == declared_license(component.deep_view()),
{
    let all = filter_map_list(
        &component.licenses,
        |l: &License| -> (o: Option<String>)
            ensures
                o.deep_view() == expression_in(l.deep_view())
            { expression_of(l) },
        Ghost(|l: LicenseView| expression_in(l)),
    );
    if all.len() == 0 {
        None
    } else {
        Some(all[0].clone())
    }
}

pub fn is_named_only(component: &Component) -> (r: bool)
    ensures
        r == named_only(component.deep_view()),
{
    find_license(component).is_none() && component.licenses.len() > 0
}

pub open spec fn external_ref(
    category: Seq<char>,
    kind: Seq<char>,
    locator: Option<Seq<char>>,
) -> Seq<JsonView> {
    match locator {
        Some(l) => seq![
            members().text("referenceCategory"@, category).text("referenceType"@, kind).text(
                "referenceLocator"@,
                l,
            ).done(),
        ],
        None => Seq::empty(),
    }
}

fn add_ref(list: &mut Vec<Json>, category: &str, kind: &str, locator: &Option<String>)
    ensures
        final(list).deep_view() == old(list).deep_view() + external_ref(
            category@,
            kind@,
            locator.deep_view(),
        ),
{
    if let Some(l) = locator {
        let mut m = Members::new();
        m.text("referenceCategory", category);
        m.text("referenceType", kind);
        m.text("referenceLocator", l.as_str());
        append_one(list, m.done());
    }
    assert(list.deep_view() =~= old(list).deep_view() + external_ref(
        category@,
        kind@,
        locator.deep_view(),
    ));
}

/// The text without its dashes.
pub open spec fn dashless(s: Seq<char>) -> Seq<char>
    decreases s.len(),
{
    if s.len() == 0 {
        s
    } else if s.last() == '-' {
        dashless(s.drop_last())
    } else {
        dashless(s.drop_last()).push(s.last())
    }
}

fn without_dashes(s: &str) -> (r: String)
    ensures
        r@ == dashless(s@),
{
    let cs = chars(s);
    let mut out = String::new();
    let mut i: usize = 0;
    assert(cs@.take(0) =~= Seq::empty());
    while i < cs.len()
        invariant
            i <= cs@.len(),
            cs@ == s@,
            out@ == dashless(cs@.take(i as int)),
        decreases cs@.len() - i,
    {
        assert(cs@.take(i as int + 1).drop_last() =~= cs@.take(i as int));
        if cs[i] != '-' {
            out.push(cs[i]);
        }
        i = i + 1;
    }
    assert(cs@.take(i as int) =~= cs@);
    out
}

/// SPDX spells algorithms without the dash: SHA256, not SHA-256.
pub open spec fn checksum_item(hash: HashView) -> JsonView {
    members().text("algorithm"@, dashless(hash.algorithm)).text("checksumValue"@, hash.value).done()
}

fn checksum_json(hash: &crate::model::sbom::Hash) -> (r: Json)
    ensures
        r.deep_view() == checksum_item(hash.deep_view()),
{
    let mut m = Members::new();
    m.text("algorithm", without_dashes(hash.algorithm.as_str()).as_str());
    m.text("checksumValue", hash.value.as_str());
    m.done()
}

pub open spec fn prefixed(prefix: Seq<char>, name: Option<Seq<char>>) -> Option<Seq<char>> {
    match name {
        Some(n) => Some(prefix + n),
        None => None,
    }
}

fn with_prefix(prefix: &str, name: &Option<String>) -> (r: Option<String>)
    ensures
        r.deep_view() == prefixed(prefix@, name.deep_view()),
{
    match name {
        Some(n) => Some(concat(prefix, n.as_str())),
        None => None,
    }
}

pub open spec fn package_item(
    component: ComponentView,
    id: Seq<char>,
    target: Seq<char>,
) -> JsonView {
    members().text("SPDXID"@, id).text("name"@, component.name).opt_text(
        "versionInfo"@,
        component.version,
    ).text("downloadLocation"@, NOASSERTION@).flag("filesAnalyzed"@, false).text(
        "licenseConcluded"@,
        NOASSERTION@,
    ).text("licenseDeclared"@, or_text(declared_license(component), NOASSERTION@)).text(
        "copyrightText"@,
        or_text(component.copyright, NOASSERTION@),
    ).opt_text("description"@, component.description).opt_text(
        "supplier"@,
        prefixed("Organization: "@, component.supplier),
    ).opt_text("originator"@, prefixed("Person: "@, component.author)).opt_text(
        "primaryPackagePurpose"@,
        if target == "SPDX-2.2"@ {
            None
        } else {
            purpose_of_kind(component.kind)
        },
    ).some_list(
        "checksums"@,
        component.hashes.map_values(|h: HashView| checksum_item(h)),
    ).some_list(
        "externalRefs"@,
        external_ref("PACKAGE-MANAGER"@, "purl"@, component.purl) + external_ref(
            "SECURITY"@,
            "cpe23Type"@,
            component.cpe,
        ),
    ).done()
}

pub fn write_package(component: &Component, spdx_id: &str, target: &str) -> (r: Json)
    ensures
        r.deep_view() == package_item(component.deep_view(), spdx_id@, target@),
{
    let mut m = Members::new();
    m.text("SPDXID", spdx_id);
    m.text("name", component.name.as_str());
    m.opt_text("versionInfo", &component.version);
    m.text("downloadLocation", NOASSERTION);
    m.flag("filesAnalyzed", false);
    m.text("licenseConcluded", NOASSERTION);
    m.text("licenseDeclared", text_or(&find_license(component), NOASSERTION));
    m.text("copyrightText", text_or(&component.copyright, NOASSERTION));
    m.opt_text("description", &component.description);
    m.opt_text("supplier", &with_prefix("Organization: ", &component.supplier));
    m.opt_text("originator", &with_prefix("Person: ", &component.author));
    if !same(target, "SPDX-2.2") {
        if let Some(purpose) = kind_to_purpose(component.kind) {
            m.text("primaryPackagePurpose", purpose);
        }
    }
    let checksums = map_list(
        &component.hashes,
        |h: &crate::model::sbom::Hash| -> (o: Json)
            ensures
                o.deep_view() == checksum_item(h.deep_view())
            { checksum_json(h) },
        Ghost(|h: HashView| checksum_item(h)),
    );
    m.some_list("checksums", checksums);
    let mut refs: Vec<Json> = empty_list();
    add_ref(&mut refs, "PACKAGE-MANAGER", "purl", &component.purl);
    add_ref(&mut refs, "SECURITY", "cpe23Type", &component.cpe);
    assert(refs.deep_view() =~= external_ref(
        "PACKAGE-MANAGER"@,
        "purl"@,
        component.purl.deep_view(),
    ) + external_ref("SECURITY"@, "cpe23Type"@, component.cpe.deep_view()));
    m.some_list("externalRefs", refs);
    m.done()
}

pub open spec fn relation_item(from: Seq<char>, to: Seq<char>, kind: Seq<char>) -> JsonView {
    members().text("spdxElementId"@, from).text("relatedSpdxElement"@, to).text(
        "relationshipType"@,
        kind,
    ).done()
}

fn relation_json(from: &str, to: &str, kind: &str) -> (r: Json)
    ensures
        r.deep_view() == relation_item(from@, to@, kind@),
{
    let mut m = Members::new();
    m.text("spdxElementId", from);
    m.text("relatedSpdxElement", to);
    m.text("relationshipType", kind);
    m.done()
}

/// The edge to a target that the document lists.
pub open spec fn edge_item(ids: IdentifiersView, from: Seq<char>, target: Seq<char>) -> Option<
    JsonView,
> {
    match ids.name_of(target) {
        Some(to) => Some(relation_item(from, to, "DEPENDS_ON"@)),
        None => None,
    }
}

/// The edges of one element of the graph.
pub open spec fn edges_of(ids: IdentifiersView, dependency: DependencyView) -> Seq<JsonView> {
    match ids.name_of(dependency.bom_ref) {
        Some(from) => filter_mapped(
            dependency.depends_on,
            |target: Seq<char>| edge_item(ids, from, target),
        ),
        None => Seq::empty(),
    }
}

/// The edges of the graph, rewritten against the new names.
pub open spec fn edge_items(
    ids: IdentifiersView,
    dependencies: Seq<DependencyView>,
) -> Seq<JsonView>
    decreases dependencies.len(),
{
    if dependencies.len() == 0 {
        Seq::empty()
    } else {
        edge_items(ids, dependencies.drop_last()) + edges_of(ids, dependencies.last())
    }
}

/// How much of one element of the graph points at something not listed.
pub open spec fn dangling_in(ids: IdentifiersView, dependency: DependencyView) -> nat {
    match ids.name_of(dependency.bom_ref) {
        Some(_) => count_in(
            dependency.depends_on,
            |target: Seq<char>| ids.name_of(target) is None,
        ),
        None => 1,
    }
}

/// How much of the graph points at something not listed.
pub open spec fn dangling_of(ids: IdentifiersView, dependencies: Seq<DependencyView>) -> nat
    decreases dependencies.len(),
{
    if dependencies.len() == 0 {
        0
    } else {
        dangling_of(ids, dependencies.drop_last()) + dangling_in(ids, dependencies.last())
    }
}

fn edges_json(ids: &Identifiers, dependency: &Dependency) -> (r: Vec<Json>)
    ensures
        r.deep_view() == edges_of(ids@, dependency.deep_view()),
{
    match ids.resolve(dependency.bom_ref.as_str()) {
        Some(from) => {
            let ghost known = ids@;
            filter_map_list(
                &dependency.depends_on,
                |target: &String| -> (o: Option<Json>)
                    ensures
                        o.deep_view() == edge_item(ids@, from@, target@)
                    {
                        match ids.resolve(target.as_str()) {
                            Some(to) => Some(
                                relation_json(from.as_str(), to.as_str(), "DEPENDS_ON"),
                            ),
                            None => None,
                        }
                    },
                Ghost(|target: Seq<char>| edge_item(known, from@, target)),
            )
        },
        None => empty_list(),
    }
}

fn count_dangling(ids: &Identifiers, dependency: &Dependency) -> (r: usize)
    ensures
        r == dangling_in(ids@, dependency.deep_view()),
{
    match ids.resolve(dependency.bom_ref.as_str()) {
        Some(_) => {
            let ghost known = ids@;
            count_values(
                &dependency.depends_on,
                |target: &String| -> (o: bool)
                    ensures
                        o == (ids@.name_of(target@) is None)
                    { ids.resolve(target.as_str()).is_none() },
                Ghost(|target: Seq<char>| known.name_of(target) is None),
            )
        },
        None => 1,
    }
}

pub fn all_dangling(ids: &Identifiers, dependencies: &Vec<Dependency>) -> (r: u128)
    ensures
        r == dangling_of(ids@, dependencies.deep_view()),
{
    let ghost all = dependencies.deep_view();
    let mut n: u128 = 0;
    let mut i: usize = 0;
    assert(all.take(0) =~= Seq::empty());
    while i < dependencies.len()
        invariant
            i <= dependencies@.len(),
            all == dependencies.deep_view(),
            n == dangling_of(ids@, all.take(i as int)),
            n <= i * 18446744073709551615,
        decreases dependencies@.len() - i,
    {
        assert(all.take(i as int + 1).drop_last() =~= all.take(i as int));
        let more = count_dangling(ids, &dependencies[i]);
        n = n + more as u128;
        i = i + 1;
    }
    assert(all.take(i as int) =~= all);
    n
}

/// The names of a document's elements.
pub open spec fn names_of(doc: SbomDocView) -> IdentifiersView {
    IdentifiersView::reserving(seq![DOCUMENT_ID@]).assigned_all(
        all_components(doc),
        "SPDXRef-"@,
        "Package"@,
    )
}

pub open spec fn describes_items(doc: SbomDocView, ids: IdentifiersView) -> Seq<JsonView> {
    match doc.subject {
        Some(subject) => seq![
            relation_item(DOCUMENT_ID@, ids.label_of(subject), "DESCRIBES"@),
        ],
        None => Seq::empty(),
    }
}

pub open spec fn created_of(doc: SbomDocView) -> Seq<char> {
    or_text(doc.timestamp, UNKNOWN_TIME@)
}

pub open spec fn title_of(doc: SbomDocView, fallback: Seq<char>) -> Seq<char> {
    match doc.subject {
        Some(subject) => or_text(non_empty(Some(subject.name)), fallback),
        None => fallback,
    }
}

pub fn find_title<'a>(doc: &'a SbomDoc, fallback: &'a str) -> (r: &'a str)
    ensures
        r@ == title_of(doc.deep_view(), fallback@),
{
    match &doc.subject {
        Some(subject) => if subject.name.as_str().is_empty() {
            fallback
        } else {
            subject.name.as_str()
        },
        None => fallback,
    }
}

pub open spec fn document_item(doc: SbomDocView, target: Seq<char>) -> JsonView {
    let ids = names_of(doc);
    let name = title_of(doc, "SBOM"@);
    members().text("spdxVersion"@, target).text("dataLicense"@, "CC0-1.0"@).text(
        "SPDXID"@,
        DOCUMENT_ID@,
    ).text("name"@, name).text(
        "documentNamespace"@,
        or_text(
            doc.document_id,
            "https://spdx.org/spdxdocs/"@ + name + "-"@ + fingerprint_of(
                seq![name, created_of(doc)],
            ),
        ),
    ).value(
        "creationInfo"@,
        members().text("created"@, created_of(doc)).list(
            "creators"@,
            seq![JsonView::Text("Tool: "@ + WRITER@)],
        ).done(),
    ).list(
        "packages"@,
        all_components(doc).map_values(
            |c: ComponentView| package_item(c, ids.label_of(c), target),
        ),
    ).some_list(
        "relationships"@,
        describes_items(doc, ids) + edge_items(ids, doc.dependencies),
    ).done()
}

pub open spec fn write_notices(doc: SbomDocView, ctx: CtxView) -> CtxView {
    let named = count_in(all_components(doc), |c: ComponentView| named_only(c));
    let dangling = dangling_of(names_of(doc), doc.dependencies);
    ctx.degraded_if(
        doc.timestamp is None,
        "spdx-json: the document requires a creation time and the source carried none; 1970-01-01T00:00:00Z is emitted so the output stays reproducible"@,
    ).degraded_if(
        named > 0,
        "spdx-json: "@ + decimal(named)
            + " licence(s) were recorded only by name, which is not a valid SPDX expression, and became NOASSERTION"@,
    ).lossy_if(
        dangling > 0,
        "spdx-json: "@ + decimal(dangling)
            + " dependency edge(s) pointed at something the document does not list and were dropped"@,
    )
}

pub open spec fn written(doc: DocView, ctx: CtxView) -> (Result<JsonView, ErrorView>, CtxView) {
    match doc {
        DocView::Sbom(doc) => (
            Ok(document_item(doc, target_of(doc, ctx))),
            write_notices(doc, ctx),
        ),
        _ => (Err(wrong_kind("expected a bill of materials"@)), ctx),
    }
}

fn pick_target(doc: &SbomDoc, ctx: &FormatCtx) -> (r: String)
    ensures
        r@ == target_of(doc.deep_view(), ctx@),
{
    let default = match ctx.version() {
        Some(version) => normalize_version(version),
        None => normalize_version(FALLBACK_VERSION),
    };
    if ctx.version_requested() {
        return default;
    }
    match doc.version_within(FAMILY) {
        Some(version) => normalize_version(version),
        None => default,
    }
}

pub fn count_named(components: &Vec<Component>) -> (r: usize)
    ensures
        r == count_in(components.deep_view(), |c: ComponentView| named_only(c)),
{
    count_values(
        components,
        |c: &Component| -> (o: bool)
            ensures
                o == named_only(c.deep_view())
            { is_named_only(c) },
        Ghost(|c: ComponentView| named_only(c)),
    )
}

fn relations_json(doc: &SbomDoc, ids: &Identifiers) -> (r: Vec<Json>)
    ensures
        r.deep_view() == describes_items(doc.deep_view(), ids@) + edge_items(
            ids@,
            doc.deep_view().dependencies,
        ),
{
    let mut out: Vec<Json> = empty_list();
    if let Some(subject) = &doc.subject {
        append_one(
            &mut out,
            relation_json(DOCUMENT_ID, ids.label(subject).as_str(), "DESCRIBES"),
        );
    }
    let ghost head = describes_items(doc.deep_view(), ids@);
    assert(out.deep_view() =~= head);
    let ghost all = doc.deep_view().dependencies;
    let mut i: usize = 0;
    assert(all.take(0) =~= Seq::empty());
    assert(head + edge_items(ids@, all.take(0)) =~= head);
    while i < doc.dependencies.len()
        invariant
            i <= doc.dependencies@.len(),
            all == doc.dependencies.deep_view(),
            out.deep_view() == head + edge_items(ids@, all.take(i as int)),
        decreases doc.dependencies@.len() - i,
    {
        assert(all.take(i as int + 1).drop_last() =~= all.take(i as int));
        append_all(&mut out, edges_json(ids, &doc.dependencies[i]));
        i = i + 1;
        assert(out.deep_view() =~= head + edge_items(ids@, all.take(i as int)));
    }
    assert(all.take(i as int) =~= all);
    out
}

fn give_notices(doc: &SbomDoc, components: &Vec<Component>, ids: &Identifiers, ctx: &mut FormatCtx)
    requires
        components.deep_view() == all_components(doc.deep_view()),
        ids@ == names_of(doc.deep_view()),
    ensures
        final(ctx)@ == write_notices(doc.deep_view(), old(ctx)@),
{
    if doc.timestamp.is_none() {
        ctx.degraded(
            "spdx-json: the document requires a creation time and the source carried none; 1970-01-01T00:00:00Z is emitted so the output stays reproducible",
        );
    }
    let named = count_named(components);
    if named > 0 {
        ctx.degraded(
            concat3(
                "spdx-json: ",
                number(named as u64).as_str(),
                " licence(s) were recorded only by name, which is not a valid SPDX expression, and became NOASSERTION",
            ).as_str(),
        );
    }
    let dangling = all_dangling(ids, &doc.dependencies);
    if dangling > 0 {
        ctx.lossy(
            concat3(
                "spdx-json: ",
                number_wide(dangling).as_str(),
                " dependency edge(s) pointed at something the document does not list and were dropped",
            ).as_str(),
        );
    }
}

fn document_json(
    doc: &SbomDoc,
    components: &Vec<Component>,
    ids: &Identifiers,
    target: &str,
) -> (r: Json)
    requires
        components.deep_view() == all_components(doc.deep_view()),
        ids@ == names_of(doc.deep_view()),
    ensures
        r.deep_view() == document_item(doc.deep_view(), target@),
{
    let name = find_title(doc, "SBOM");
    let created = text_or(&doc.timestamp, UNKNOWN_TIME);
    let namespace = match &doc.document_id {
        Some(id) => id.clone(),
        None => {
            let parts = [name, created];
            assert(parts@.map_values(|p: &str| p@) =~= seq![name@, created@]);
            concat4("https://spdx.org/spdxdocs/", name, "-", fingerprint(&parts).as_str())
        },
    };
    let mut creators: Vec<Json> = empty_list();
    append_one(&mut creators, Json::Text(concat("Tool: ", WRITER)));
    assert(creators.deep_view() =~= seq![JsonView::Text("Tool: "@ + WRITER@)]);
    let mut creation = Members::new();
    creation.text("created", created);
    creation.list("creators", creators);
    let ghost known = ids@;
    let packages = map_list(
        components,
        |c: &Component| -> (o: Json)
            ensures
                o.deep_view() == package_item(
                    c.deep_view(),
                    ids@.label_of(c.deep_view()),
                    target@,
                )
            { write_package(c, ids.label(c).as_str(), target) },
        Ghost(|c: ComponentView| package_item(c, known.label_of(c), target@)),
    );
    proof {
        assert(packages.deep_view() =~= all_components(doc.deep_view()).map_values(
            |c: ComponentView| package_item(c, names_of(doc.deep_view()).label_of(c), target@),
        ));
    }
    let mut m = Members::new();
    m.text("spdxVersion", target);
    m.text("dataLicense", "CC0-1.0");
    m.text("SPDXID", DOCUMENT_ID);
    m.text("name", name);
    m.text("documentNamespace", namespace.as_str());
    m.value("creationInfo", creation.done());
    m.list("packages", packages);
    m.some_list("relationships", relations_json(doc, ids));
    m.done()
}

pub fn write(doc: &Doc, ctx: &mut FormatCtx) -> (r: Result<Json, Error>)
    ensures
        (json_result(r), final(ctx)@) == written(doc.deep_view(), old(ctx)@),
{
    let doc = match doc.as_sbom() {
        Ok(doc) => doc,
        Err(e) => {
            return Err(e);
        },
    };
    let target = pick_target(doc, ctx);
    let components = list_components(doc);
    let mut reserved: Vec<String> = empty_list();
    append_one(&mut reserved, owned(DOCUMENT_ID));
    assert(reserved.deep_view() =~= seq![DOCUMENT_ID@]);
    let mut ids = Identifiers::new(reserved);
    ids.assign_all(&components, "SPDXRef-", "Package");
    give_notices(doc, &components, &ids, ctx);
    Ok(document_json(doc, &components, &ids, target.as_str()))
}

/// Every package of a written document has a name that no other component and
/// not the document itself has.
pub proof fn packages_are_named_apart(doc: SbomDocView, i: int, j: int)
    requires
        0 <= i < all_components(doc).len(),
        0 <= j < all_components(doc).len(),
        source_of(all_components(doc)[i]) != source_of(all_components(doc)[j]),
    ensures
        names_of(doc).label_of(all_components(doc)[i]) != names_of(doc).label_of(
            all_components(doc)[j],
        ),
        names_of(doc).label_of(all_components(doc)[i]) != DOCUMENT_ID@,
{
    let ids = names_of(doc);
    let start = IdentifiersView::reserving(seq![DOCUMENT_ID@]);
    let all = all_components(doc);
    every_component_is_named(start, all, "SPDXRef-"@, "Package"@, i);
    every_component_is_named(start, all, "SPDXRef-"@, "Package"@, j);
    assignment_keeps_names_apart(start, all, "SPDXRef-"@, "Package"@);
    different_sources_have_different_names(ids, source_of(all[i]), source_of(all[j]));
    reserved_names_stay_reserved(start, all, "SPDXRef-"@, "Package"@, source_of(all[i]), 0);
}

} // verus!
