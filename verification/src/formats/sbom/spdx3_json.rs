//! SPDX 3.0 JSON-LD.
//!
//! Not a newer version of SPDX 2 but a different format: a graph of elements,
//! each with its own IRI, in which almost everything that was a field is an
//! element or an edge.
//!
//! | SPDX 2 | SPDX 3 |
//! |---|---|
//! | `packages[]` | `software_Package` elements in `@graph` |
//! | `SPDXRef-Foo` | an IRI |
//! | `licenseDeclared: "MIT"` | a `simplelicensing_LicenseExpression` element, reached by a `hasDeclaredLicense` relationship |
//! | `checksums[]` | `Hash` elements under `verifiedUsing` |
//! | `relationshipType: "DEPENDS_ON"` | `relationshipType: "dependsOn"` |

use vstd::prelude::*;

use crate::error::{parse_error, Error, ErrorView};
use crate::formats::sbom::identifiers::{legal_name, make_legal, Identifiers, IdentifiersView};
use crate::formats::sbom::spdx_json::{
    add_edges, all_components, all_dangling, as_license, count_named, created_of, dangling_of,
    dashless, declared_license, find_license, find_title, license_of, list_components, named_only,
    title_of, with_edges, UNKNOWN_TIME, WRITER,
};
use crate::hash::{fingerprint, fingerprint_of};
use crate::json::{
    array_view, decode, decoded, field, filter_map_items, json_result, list_of, maybe, members,
    object_view, text_field, text_items, text_list, Fields, Json, JsonView, Members, Shape,
};
use crate::model::sbom::{
    canonical, sort_doc, spelled, upper, words_are_apart, Component, ComponentKind, ComponentView,
    Dependency, DependencyView, HashView, License, LicenseView, SbomDoc, SbomDocView, SpecOrigin,
    SpecOriginView,
};
use crate::registry::{read_result, wrong_kind, Doc, DocView};
use crate::text::{
    concat, concat3, concat5, contains, decimal, has, number, number_wide, owned, same,
};
use crate::value::{
    add_new, any_in, any_value, append_all, append_one, count_in, either, empty_list,
    filter_map_list, filter_mapped, find_key, key_at, map_list, non_empty, or_else, or_text,
    replace_at, text_or, with_new, Value,
};
use crate::warn::{CtxView, FormatCtx};

verus! {

pub const FORMAT: &'static str = "spdx3-json";

pub const FAMILY: &'static str = "spdx3";

pub const CONTEXT: &'static str = "https://spdx.org/rdf/3.0.1/spdx-context.jsonld";

pub const SPEC_VERSION: &'static str = "3.0.1";

/// Namespace for the IRIs this writer mints.
pub const IRI_BASE: &'static str = "https://spdx.org/spdxdocs";

/// The node every element gives as its origin.
pub const CREATION_INFO: &'static str = "_:creationInfo";

// ---------------------------------------------------------------------------
// The shape of a document
// ---------------------------------------------------------------------------

#[verifier::allow_in_spec]
pub fn integrity_shape() -> Shape
    returns
        Shape::Record(
            text_field("type", text_field("algorithm", text_field("hashValue", Fields::End))),
        ),
{
    Shape::Record(
        text_field("type", text_field("algorithm", text_field("hashValue", Fields::End))),
    )
}

#[verifier::allow_in_spec]
pub fn element_shape() -> Shape
    returns
        Shape::Record(
            text_field("type", text_field("spdxId", text_field("@id", text_field("name", text_field(
                "description",
                text_field("summary", text_field("software_packageVersion", text_field(
                    "software_packageUrl",
                    text_field("software_copyrightText", text_field(
                        "software_primaryPurpose",
                        field("verifiedUsing", list_of(integrity_shape()), field(
                            "originatedBy",
                            list_of(Shape::Text),
                            text_field("suppliedBy", text_field("from", field(
                                "to",
                                list_of(Shape::Text),
                                text_field("relationshipType", text_field(
                                    "simplelicensing_licenseExpression",
                                    text_field("created", text_field("specVersion", field(
                                        "rootElement",
                                        list_of(Shape::Text),
                                        Fields::End,
                                    ))),
                                )),
                            ))),
                        )),
                    )),
                ))),
            ))))),
        ),
{
    Shape::Record(
        text_field("type", text_field("spdxId", text_field("@id", text_field("name", text_field(
            "description",
            text_field("summary", text_field("software_packageVersion", text_field(
                "software_packageUrl",
                text_field("software_copyrightText", text_field(
                    "software_primaryPurpose",
                    field("verifiedUsing", list_of(integrity_shape()), field(
                        "originatedBy",
                        list_of(Shape::Text),
                        text_field("suppliedBy", text_field("from", field(
                            "to",
                            list_of(Shape::Text),
                            text_field("relationshipType", text_field(
                                "simplelicensing_licenseExpression",
                                text_field("created", text_field("specVersion", field(
                                    "rootElement",
                                    list_of(Shape::Text),
                                    Fields::End,
                                ))),
                            )),
                        ))),
                    )),
                )),
            ))),
        ))))),
    )
}

#[verifier::allow_in_spec]
pub fn file_shape() -> Shape
    returns
        Shape::Record(
            field(
                "@context",
                maybe(Shape::Any),
                field("@graph", list_of(element_shape()), Fields::End),
            ),
        ),
{
    Shape::Record(
        field(
            "@context",
            maybe(Shape::Any),
            field("@graph", list_of(element_shape()), Fields::End),
        ),
    )
}

// ---------------------------------------------------------------------------
// Vocabulary
// ---------------------------------------------------------------------------

pub open spec fn kind_of_purpose(purpose: Seq<char>) -> Option<ComponentKind> {
    if purpose == "application"@ {
        Some(ComponentKind::Application)
    } else if purpose == "framework"@ {
        Some(ComponentKind::Framework)
    } else if purpose == "library"@ {
        Some(ComponentKind::Library)
    } else if purpose == "container"@ {
        Some(ComponentKind::Container)
    } else if purpose == "operatingSystem"@ {
        Some(ComponentKind::OperatingSystem)
    } else if purpose == "device"@ {
        Some(ComponentKind::Device)
    } else if purpose == "firmware"@ {
        Some(ComponentKind::Firmware)
    } else if purpose == "file"@ {
        Some(ComponentKind::File)
    } else {
        None
    }
}

/// SPDX 3 spells purposes in lowerCamelCase, where SPDX 2 shouted them.
pub fn purpose_to_kind(purpose: &str) -> (r: Option<ComponentKind>)
    ensures
        r == kind_of_purpose(purpose@),
{
    if same(purpose, "application") {
        Some(ComponentKind::Application)
    } else if same(purpose, "framework") {
        Some(ComponentKind::Framework)
    } else if same(purpose, "library") {
        Some(ComponentKind::Library)
    } else if same(purpose, "container") {
        Some(ComponentKind::Container)
    } else if same(purpose, "operatingSystem") {
        Some(ComponentKind::OperatingSystem)
    } else if same(purpose, "device") {
        Some(ComponentKind::Device)
    } else if same(purpose, "firmware") {
        Some(ComponentKind::Firmware)
    } else if same(purpose, "file") {
        Some(ComponentKind::File)
    } else {
        None
    }
}

pub open spec fn purpose_of_kind(kind: ComponentKind) -> Option<Seq<char>> {
    match kind {
        ComponentKind::Application => Some("application"@),
        ComponentKind::Framework => Some("framework"@),
        ComponentKind::Library => Some("library"@),
        ComponentKind::Container => Some("container"@),
        ComponentKind::OperatingSystem => Some("operatingSystem"@),
        ComponentKind::Device => Some("device"@),
        ComponentKind::Firmware => Some("firmware"@),
        ComponentKind::File => Some("file"@),
        _ => None,
    }
}

pub fn kind_to_purpose(kind: ComponentKind) -> (r: Option<&'static str>)
    ensures
        r.deep_view() == purpose_of_kind(kind),
{
    match kind {
        ComponentKind::Application => Some("application"),
        ComponentKind::Framework => Some("framework"),
        ComponentKind::Library => Some("library"),
        ComponentKind::Container => Some("container"),
        ComponentKind::OperatingSystem => Some("operatingSystem"),
        ComponentKind::Device => Some("device"),
        ComponentKind::Firmware => Some("firmware"),
        ComponentKind::File => Some("file"),
        _ => None,
    }
}

/// A kind that SPDX 3 can express reads back as that kind.
pub proof fn purposes_read_back(kind: ComponentKind)
    ensures
        purpose_of_kind(kind) matches Some(purpose) ==> kind_of_purpose(purpose) == Some(kind),
{
    reveal_strlit("application");
    reveal_strlit("framework");
    reveal_strlit("library");
    reveal_strlit("container");
    reveal_strlit("operatingSystem");
    reveal_strlit("device");
    reveal_strlit("firmware");
    reveal_strlit("file");
    assert("application"@[0] == 'a');
    assert("framework"@[0] == 'f' && "framework"@[1] == 'r');
    assert("library"@[0] == 'l');
    assert("container"@[0] == 'c');
    assert("operatingSystem"@[0] == 'o');
    assert("device"@[0] == 'd');
    assert("firmware"@[0] == 'f' && "firmware"@[1] == 'i' && "firmware"@.len() == 8);
    assert("file"@[0] == 'f' && "file"@[1] == 'i' && "file"@.len() == 4);
}

/// The third spelling of one vocabulary: CycloneDX writes `SHA-256`, SPDX 2
/// `SHA256`, SPDX 3 `sha256`.
pub open spec fn algorithm_of(canonical: Seq<char>) -> Option<Seq<char>> {
    if canonical == "MD5"@ {
        Some("md5"@)
    } else if canonical == "SHA-1"@ {
        Some("sha1"@)
    } else if canonical == "SHA-224"@ {
        Some("sha224"@)
    } else if canonical == "SHA-256"@ {
        Some("sha256"@)
    } else if canonical == "SHA-384"@ {
        Some("sha384"@)
    } else if canonical == "SHA-512"@ {
        Some("sha512"@)
    } else if canonical == "SHA3-256"@ {
        Some("sha3_256"@)
    } else if canonical == "SHA3-384"@ {
        Some("sha3_384"@)
    } else if canonical == "SHA3-512"@ {
        Some("sha3_512"@)
    } else if canonical == "BLAKE2b-256"@ {
        Some("blake2b256"@)
    } else if canonical == "BLAKE2b-384"@ {
        Some("blake2b384"@)
    } else if canonical == "BLAKE2b-512"@ {
        Some("blake2b512"@)
    } else if canonical == "BLAKE3"@ {
        Some("blake3"@)
    } else {
        None
    }
}

pub fn hash_algorithm(canonical: &str) -> (r: Option<&'static str>)
    ensures
        r.deep_view() == algorithm_of(canonical@),
{
    if same(canonical, "MD5") {
        Some("md5")
    } else if same(canonical, "SHA-1") {
        Some("sha1")
    } else if same(canonical, "SHA-224") {
        Some("sha224")
    } else if same(canonical, "SHA-256") {
        Some("sha256")
    } else if same(canonical, "SHA-384") {
        Some("sha384")
    } else if same(canonical, "SHA-512") {
        Some("sha512")
    } else if same(canonical, "SHA3-256") {
        Some("sha3_256")
    } else if same(canonical, "SHA3-384") {
        Some("sha3_384")
    } else if same(canonical, "SHA3-512") {
        Some("sha3_512")
    } else if same(canonical, "BLAKE2b-256") {
        Some("blake2b256")
    } else if same(canonical, "BLAKE2b-384") {
        Some("blake2b384")
    } else if same(canonical, "BLAKE2b-512") {
        Some("blake2b512")
    } else if same(canonical, "BLAKE3") {
        Some("blake3")
    } else {
        None
    }
}

proof fn dashless_whole(s: Seq<char>)
    requires
        forall|i: int| 0 <= i < s.len() ==> #[trigger] s[i] != '-',
    ensures
        dashless(s) == s,
    decreases s.len(),
{
    if s.len() > 0 {
        assert(s[s.len() - 1] != '-');
        assert forall|i: int| 0 <= i < s.drop_last().len() implies #[trigger] s.drop_last()[i]
            != '-' by {
            assert(s.drop_last()[i] == s[i]);
        }
        dashless_whole(s.drop_last());
        assert(s.drop_last().push(s.last()) =~= s);
    }
}

/// Without the one dash that a text has.
proof fn dashless_but_one(s: Seq<char>, k: int)
    requires
        0 <= k < s.len(),
        s[k] == '-',
        forall|i: int| 0 <= i < s.len() && i != k ==> #[trigger] s[i] != '-',
    ensures
        dashless(s) == s.take(k) + s.skip(k + 1),
    decreases s.len(),
{
    let head = s.drop_last();
    if k == s.len() - 1 {
        assert forall|i: int| 0 <= i < head.len() implies #[trigger] head[i] != '-' by {
            assert(head[i] == s[i]);
        }
        dashless_whole(head);
        assert(s.take(k) + s.skip(k + 1) =~= head);
    } else {
        assert(s[s.len() - 1] != '-');
        assert forall|i: int| 0 <= i < head.len() && i != k implies #[trigger] head[i] != '-' by {
            assert(head[i] == s[i]);
        }
        dashless_but_one(head, k);
        assert((head.take(k) + head.skip(k + 1)).push(s.last()) =~= s.take(k) + s.skip(k + 1));
    }
}

proof fn sha_names_meet()
    ensures
        canonical("MD5"@) == "MD5"@,
        canonical(dashless("MD5"@)) == "MD5"@,
        canonical("md5"@) == "MD5"@,
        canonical("SHA-1"@) == "SHA-1"@,
        canonical(dashless("SHA-1"@)) == "SHA-1"@,
        canonical("sha1"@) == "SHA-1"@,
        canonical("SHA-224"@) == "SHA-224"@,
        canonical(dashless("SHA-224"@)) == "SHA-224"@,
        canonical("sha224"@) == "SHA-224"@,
        canonical("SHA-256"@) == "SHA-256"@,
        canonical(dashless("SHA-256"@)) == "SHA-256"@,
        canonical("sha256"@) == "SHA-256"@,
        canonical("SHA-384"@) == "SHA-384"@,
        canonical(dashless("SHA-384"@)) == "SHA-384"@,
        canonical("sha384"@) == "SHA-384"@,
        canonical("SHA-512"@) == "SHA-512"@,
        canonical(dashless("SHA-512"@)) == "SHA-512"@,
        canonical("sha512"@) == "SHA-512"@,
{
    words_are_apart();
    reveal_strlit("MD5");
    reveal_strlit("md5");
    reveal_strlit("SHA-1");
    reveal_strlit("SHA1");
    reveal_strlit("sha1");
    reveal_strlit("SHA-224");
    reveal_strlit("SHA224");
    reveal_strlit("sha224");
    reveal_strlit("SHA-256");
    reveal_strlit("SHA256");
    reveal_strlit("sha256");
    reveal_strlit("SHA-384");
    reveal_strlit("SHA384");
    reveal_strlit("sha384");
    reveal_strlit("SHA-512");
    reveal_strlit("SHA512");
    reveal_strlit("sha512");
    dashless_whole("MD5"@);
    assert(upper("MD5"@) =~= "MD5"@);
    spelled("MD5"@, "MD5"@);
    assert(upper("md5"@) =~= "MD5"@);
    spelled("md5"@, "MD5"@);
    dashless_but_one("SHA-1"@, 3);
    assert("SHA-1"@.take(3) + "SHA-1"@.skip(4) =~= "SHA1"@);
    assert(upper("SHA-1"@) =~= "SHA-1"@);
    spelled("SHA-1"@, "SHA-1"@);
    assert(upper("SHA1"@) =~= "SHA1"@);
    spelled("SHA1"@, "SHA1"@);
    assert(upper("sha1"@) =~= "SHA1"@);
    spelled("sha1"@, "SHA1"@);
    dashless_but_one("SHA-224"@, 3);
    assert("SHA-224"@.take(3) + "SHA-224"@.skip(4) =~= "SHA224"@);
    assert(upper("SHA-224"@) =~= "SHA-224"@);
    spelled("SHA-224"@, "SHA-224"@);
    assert(upper("SHA224"@) =~= "SHA224"@);
    spelled("SHA224"@, "SHA224"@);
    assert(upper("sha224"@) =~= "SHA224"@);
    spelled("sha224"@, "SHA224"@);
    dashless_but_one("SHA-256"@, 3);
    assert("SHA-256"@.take(3) + "SHA-256"@.skip(4) =~= "SHA256"@);
    assert(upper("SHA-256"@) =~= "SHA-256"@);
    spelled("SHA-256"@, "SHA-256"@);
    assert(upper("SHA256"@) =~= "SHA256"@);
    spelled("SHA256"@, "SHA256"@);
    assert(upper("sha256"@) =~= "SHA256"@);
    spelled("sha256"@, "SHA256"@);
    dashless_but_one("SHA-384"@, 3);
    assert("SHA-384"@.take(3) + "SHA-384"@.skip(4) =~= "SHA384"@);
    assert(upper("SHA-384"@) =~= "SHA-384"@);
    spelled("SHA-384"@, "SHA-384"@);
    assert(upper("SHA384"@) =~= "SHA384"@);
    spelled("SHA384"@, "SHA384"@);
    assert(upper("sha384"@) =~= "SHA384"@);
    spelled("sha384"@, "SHA384"@);
    dashless_but_one("SHA-512"@, 3);
    assert("SHA-512"@.take(3) + "SHA-512"@.skip(4) =~= "SHA512"@);
    assert(upper("SHA-512"@) =~= "SHA-512"@);
    spelled("SHA-512"@, "SHA-512"@);
    assert(upper("SHA512"@) =~= "SHA512"@);
    spelled("SHA512"@, "SHA512"@);
    assert(upper("sha512"@) =~= "SHA512"@);
    spelled("sha512"@, "SHA512"@);
}

proof fn sha3_names_meet()
    ensures
        canonical("SHA3-256"@) == "SHA3-256"@,
        canonical(dashless("SHA3-256"@)) == "SHA3-256"@,
        canonical("sha3_256"@) == "SHA3-256"@,
        canonical("SHA3-384"@) == "SHA3-384"@,
        canonical(dashless("SHA3-384"@)) == "SHA3-384"@,
        canonical("sha3_384"@) == "SHA3-384"@,
        canonical("SHA3-512"@) == "SHA3-512"@,
        canonical(dashless("SHA3-512"@)) == "SHA3-512"@,
        canonical("sha3_512"@) == "SHA3-512"@,
{
    words_are_apart();
    reveal_strlit("SHA3-256");
    reveal_strlit("SHA3256");
    reveal_strlit("sha3_256");
    reveal_strlit("SHA3_256");
    reveal_strlit("SHA3-384");
    reveal_strlit("SHA3384");
    reveal_strlit("sha3_384");
    reveal_strlit("SHA3_384");
    reveal_strlit("SHA3-512");
    reveal_strlit("SHA3512");
    reveal_strlit("sha3_512");
    reveal_strlit("SHA3_512");
    dashless_but_one("SHA3-256"@, 4);
    assert("SHA3-256"@.take(4) + "SHA3-256"@.skip(5) =~= "SHA3256"@);
    assert(upper("SHA3-256"@) =~= "SHA3-256"@);
    spelled("SHA3-256"@, "SHA3-256"@);
    assert(upper("SHA3256"@) =~= "SHA3256"@);
    spelled("SHA3256"@, "SHA3256"@);
    assert(upper("sha3_256"@) =~= "SHA3_256"@);
    spelled("sha3_256"@, "SHA3_256"@);
    dashless_but_one("SHA3-384"@, 4);
    assert("SHA3-384"@.take(4) + "SHA3-384"@.skip(5) =~= "SHA3384"@);
    assert(upper("SHA3-384"@) =~= "SHA3-384"@);
    spelled("SHA3-384"@, "SHA3-384"@);
    assert(upper("SHA3384"@) =~= "SHA3384"@);
    spelled("SHA3384"@, "SHA3384"@);
    assert(upper("sha3_384"@) =~= "SHA3_384"@);
    spelled("sha3_384"@, "SHA3_384"@);
    dashless_but_one("SHA3-512"@, 4);
    assert("SHA3-512"@.take(4) + "SHA3-512"@.skip(5) =~= "SHA3512"@);
    assert(upper("SHA3-512"@) =~= "SHA3-512"@);
    spelled("SHA3-512"@, "SHA3-512"@);
    assert(upper("SHA3512"@) =~= "SHA3512"@);
    spelled("SHA3512"@, "SHA3512"@);
    assert(upper("sha3_512"@) =~= "SHA3_512"@);
    spelled("sha3_512"@, "SHA3_512"@);
}

proof fn blake_names_meet()
    ensures
        canonical("BLAKE2b-256"@) == "BLAKE2b-256"@,
        canonical(dashless("BLAKE2b-256"@)) == "BLAKE2b-256"@,
        canonical("blake2b256"@) == "BLAKE2b-256"@,
        canonical("BLAKE2b-384"@) == "BLAKE2b-384"@,
        canonical(dashless("BLAKE2b-384"@)) == "BLAKE2b-384"@,
        canonical("blake2b384"@) == "BLAKE2b-384"@,
        canonical("BLAKE2b-512"@) == "BLAKE2b-512"@,
        canonical(dashless("BLAKE2b-512"@)) == "BLAKE2b-512"@,
        canonical("blake2b512"@) == "BLAKE2b-512"@,
        canonical("BLAKE3"@) == "BLAKE3"@,
        canonical(dashless("BLAKE3"@)) == "BLAKE3"@,
        canonical("blake3"@) == "BLAKE3"@,
{
    words_are_apart();
    reveal_strlit("BLAKE2b-256");
    reveal_strlit("BLAKE2B-256");
    reveal_strlit("BLAKE2b256");
    reveal_strlit("BLAKE2B256");
    reveal_strlit("blake2b256");
    reveal_strlit("BLAKE2b-384");
    reveal_strlit("BLAKE2B-384");
    reveal_strlit("BLAKE2b384");
    reveal_strlit("BLAKE2B384");
    reveal_strlit("blake2b384");
    reveal_strlit("BLAKE2b-512");
    reveal_strlit("BLAKE2B-512");
    reveal_strlit("BLAKE2b512");
    reveal_strlit("BLAKE2B512");
    reveal_strlit("blake2b512");
    reveal_strlit("BLAKE3");
    reveal_strlit("blake3");
    dashless_but_one("BLAKE2b-256"@, 7);
    assert("BLAKE2b-256"@.take(7) + "BLAKE2b-256"@.skip(8) =~= "BLAKE2b256"@);
    assert(upper("BLAKE2b-256"@) =~= "BLAKE2B-256"@);
    spelled("BLAKE2b-256"@, "BLAKE2B-256"@);
    assert(upper("BLAKE2b256"@) =~= "BLAKE2B256"@);
    spelled("BLAKE2b256"@, "BLAKE2B256"@);
    assert(upper("blake2b256"@) =~= "BLAKE2B256"@);
    spelled("blake2b256"@, "BLAKE2B256"@);
    dashless_but_one("BLAKE2b-384"@, 7);
    assert("BLAKE2b-384"@.take(7) + "BLAKE2b-384"@.skip(8) =~= "BLAKE2b384"@);
    assert(upper("BLAKE2b-384"@) =~= "BLAKE2B-384"@);
    spelled("BLAKE2b-384"@, "BLAKE2B-384"@);
    assert(upper("BLAKE2b384"@) =~= "BLAKE2B384"@);
    spelled("BLAKE2b384"@, "BLAKE2B384"@);
    assert(upper("blake2b384"@) =~= "BLAKE2B384"@);
    spelled("blake2b384"@, "BLAKE2B384"@);
    dashless_but_one("BLAKE2b-512"@, 7);
    assert("BLAKE2b-512"@.take(7) + "BLAKE2b-512"@.skip(8) =~= "BLAKE2b512"@);
    assert(upper("BLAKE2b-512"@) =~= "BLAKE2B-512"@);
    spelled("BLAKE2b-512"@, "BLAKE2B-512"@);
    assert(upper("BLAKE2b512"@) =~= "BLAKE2B512"@);
    spelled("BLAKE2b512"@, "BLAKE2B512"@);
    assert(upper("blake2b512"@) =~= "BLAKE2B512"@);
    spelled("blake2b512"@, "BLAKE2B512"@);
    dashless_whole("BLAKE3"@);
    assert(upper("BLAKE3"@) =~= "BLAKE3"@);
    spelled("BLAKE3"@, "BLAKE3"@);
    assert(upper("blake3"@) =~= "BLAKE3"@);
    spelled("blake3"@, "BLAKE3"@);
}

/// One spelling, whichever format a hash came from: the canonical name, the SPDX 2
/// and the SPDX 3 spelling of an algorithm are all read as its canonical name.
pub proof fn algorithm_names_read_back(name: Seq<char>)
    requires
        algorithm_of(name) is Some,
    ensures
        canonical(name) == name,
        canonical(dashless(name)) == name,
        canonical(algorithm_of(name)->0) == name,
{
    sha_names_meet();
    sha3_names_meet();
    blake_names_meet();
}

// ---------------------------------------------------------------------------
// The context
// ---------------------------------------------------------------------------

/// Whether some text or key in the value contains `word`.
pub open spec fn mentions(json: JsonView, word: Seq<char>) -> bool
    decreases json, 0nat,
{
    match json {
        JsonView::Text(s) => contains(s, word),
        JsonView::Array(items) => items_mention(items, items.len(), word),
        JsonView::Object(list) => members_mention(list, list.len(), word),
        _ => false,
    }
}

/// Whether one of the first `n` items mentions `word`.
pub open spec fn items_mention(items: Seq<JsonView>, n: nat, word: Seq<char>) -> bool
    decreases items, n,
{
    if n == 0 || n > items.len() {
        false
    } else {
        items_mention(items, (n - 1) as nat, word) || mentions(items[n - 1], word)
    }
}

/// Whether one of the first `n` members mentions `word`.
pub open spec fn members_mention(
    list: Seq<(Seq<char>, JsonView)>,
    n: nat,
    word: Seq<char>,
) -> bool
    decreases list, n,
{
    if n == 0 || n > list.len() {
        false
    } else {
        members_mention(list, (n - 1) as nat, word) || contains(list[n - 1].0, word) || mentions(
            list[n - 1].1,
            word,
        )
    }
}

fn has_mention(json: &Json, word: &str) -> (r: bool)
    ensures
        r == mentions(json.deep_view(), word@),
    decreases json,
{
    match json {
        Json::Text(s) => has(s.as_str(), word),
        Json::Array(items) => {
            proof {
                array_view(*items);
            }
            let ghost all = items.deep_view();
            let mut found = false;
            let mut i: usize = 0;
            while i < items.len()
                invariant
                    i <= items@.len(),
                    all == items.deep_view(),
                    *json == Json::Array(*items),
                    found == items_mention(all, i as nat, word@),
                decreases items@.len() - i,
            {
                proof {
                    assert(decreases_to!(json => json->Array_0));
                    assert(decreases_to!(*items => items[i as int]));
                }
                let more = has_mention(&items[i], word);
                found = found || more;
                i = i + 1;
            }
            found
        },
        Json::Object(list) => {
            proof {
                object_view(*list);
            }
            let ghost all = list.deep_view();
            let mut found = false;
            let mut i: usize = 0;
            while i < list.len()
                invariant
                    i <= list@.len(),
                    all == list.deep_view(),
                    *json == Json::Object(*list),
                    found == members_mention(all, i as nat, word@),
                decreases list@.len() - i,
            {
                proof {
                    assert(decreases_to!(json => json->Object_0));
                    assert(decreases_to!(*list => list[i as int]));
                    assert(decreases_to!(list[i as int] => list[i as int].1));
                }
                let more = has(list[i].0.as_str(), word) || has_mention(&list[i].1, word);
                found = found || more;
                i = i + 1;
            }
            found
        },
        _ => false,
    }
}

// ---------------------------------------------------------------------------
// Elements
// ---------------------------------------------------------------------------

pub open spec fn is_type(element: JsonView, kind: Seq<char>) -> bool {
    element.get("type"@).text() == Some(kind)
}

pub open spec fn id_of(element: JsonView) -> Option<Seq<char>> {
    or_else(element.get("spdxId"@).text(), element.get("@id"@).text())
}

fn has_type(element: &Json, kind: &str) -> (r: bool)
    ensures
        r == is_type(element.deep_view(), kind@),
{
    match element.get("type").text() {
        Some(own) => same(own.as_str(), kind),
        None => false,
    }
}

fn holds_type(graph: &Json, kind: &str) -> (r: bool)
    ensures
        r == any_in(graph.deep_view().items(), |e: JsonView| is_type(e, kind@)),
{
    let ghost all = graph.deep_view().items();
    let mut i: usize = 0;
    while i < graph.count()
        invariant
            i <= all.len(),
            all == graph.deep_view().items(),
            forall|j: int| 0 <= j < i ==> !is_type(#[trigger] all[j], kind@),
        decreases all.len() - i,
    {
        if has_type(graph.item(i), kind) {
            assert(is_type(all[i as int], kind@));
            return true;
        }
        i = i + 1;
    }
    false
}

fn element_id(element: &Json) -> (r: Option<String>)
    ensures
        r.deep_view() == id_of(element.deep_view()),
{
    either(element.get("spdxId").text(), element.get("@id").text())
}

/// Of several values for one key the last counts, at the place of the first.
pub open spec fn put<V>(pairs: Seq<(Seq<char>, V)>, key: Seq<char>, value: V) -> Seq<
    (Seq<char>, V),
> {
    let at = key_at(pairs, key);
    if at < pairs.len() {
        pairs.update(at, (key, value))
    } else {
        pairs.push((key, value))
    }
}

fn put_value<T: DeepView>(pairs: &mut Vec<(String, T)>, key: String, value: T)
    ensures
        final(pairs).deep_view() == put(old(pairs).deep_view(), key@, value.deep_view()),
{
    let at = find_key(pairs, key.as_str());
    if at < pairs.len() {
        replace_at(pairs, at, (key, value));
    } else {
        append_one(pairs, (key, value));
    }
}

pub open spec fn license_of_element(element: JsonView) -> Option<(Seq<char>, Seq<char>)> {
    if is_type(element, "simplelicensing_LicenseExpression"@) {
        match (id_of(element), element.get("simplelicensing_licenseExpression"@).text()) {
            (Some(id), Some(expression)) => Some((id, expression)),
            _ => None,
        }
    } else {
        None
    }
}

/// The licence expressions, which are elements that packages point at.
pub open spec fn licenses_in(graph: Seq<JsonView>) -> Seq<(Seq<char>, Seq<char>)>
    decreases graph.len(),
{
    if graph.len() == 0 {
        Seq::empty()
    } else {
        match license_of_element(graph.last()) {
            Some((id, expression)) => put(licenses_in(graph.drop_last()), id, expression),
            None => licenses_in(graph.drop_last()),
        }
    }
}

fn read_licenses(graph: &Json) -> (r: Vec<(String, String)>)
    ensures
        r.deep_view() == licenses_in(graph.deep_view().items()),
{
    let ghost all = graph.deep_view().items();
    let mut out: Vec<(String, String)> = empty_list();
    let mut i: usize = 0;
    assert(all.take(0) =~= Seq::empty());
    while i < graph.count()
        invariant
            i <= all.len(),
            all == graph.deep_view().items(),
            out.deep_view() == licenses_in(all.take(i as int)),
        decreases all.len() - i,
    {
        assert(all.take(i as int + 1).drop_last() =~= all.take(i as int));
        let element = graph.item(i);
        if has_type(element, "simplelicensing_LicenseExpression") {
            if let (Some(id), Some(expression)) = (
                element_id(element),
                element.get("simplelicensing_licenseExpression").text(),
            ) {
                put_value(&mut out, id, expression);
            }
        }
        i = i + 1;
    }
    assert(all.take(i as int) =~= all);
    out
}

pub open spec fn integrity_hash(integrity: JsonView) -> Option<HashView> {
    if is_type(integrity, "Hash"@) {
        match (integrity.get("algorithm"@).text(), integrity.get("hashValue"@).text()) {
            (Some(algorithm), Some(value)) => Some(HashView::of(algorithm, value)),
            _ => None,
        }
    } else {
        None
    }
}

/// The component that a package element is.
pub open spec fn package_component(element: JsonView) -> ComponentView {
    ComponentView {
        bom_ref: id_of(element),
        kind: match element.get("software_primaryPurpose"@).text() {
            Some(purpose) => match kind_of_purpose(purpose) {
                Some(kind) => kind,
                None => ComponentView::empty().kind,
            },
            None => ComponentView::empty().kind,
        },
        version: element.get("software_packageVersion"@).text(),
        purl: element.get("software_packageUrl"@).text(),
        description: non_empty(
            or_else(element.get("description"@).text(), element.get("summary"@).text()),
        ),
        copyright: non_empty(element.get("software_copyrightText"@).text()),
        supplier: element.get("suppliedBy"@).text(),
        author: {
            let authors = element.get("originatedBy"@).texts();
            if authors.len() == 0 {
                None
            } else {
                Some(authors[0])
            }
        },
        hashes: filter_mapped(
            element.get("verifiedUsing"@).items(),
            |integrity: JsonView| integrity_hash(integrity),
        ),
        ..ComponentView::of(or_text(element.get("name"@).text(), ""@))
    }
}

fn hash_of(integrity: &Json) -> (r: Option<crate::model::sbom::Hash>)
    ensures
        r.deep_view() == integrity_hash(integrity.deep_view()),
{
    if !has_type(integrity, "Hash") {
        return None;
    }
    match (integrity.get("algorithm").text(), integrity.get("hashValue").text()) {
        (Some(algorithm), Some(value)) => Some(
            crate::model::sbom::Hash::new(algorithm.as_str(), value.as_str()),
        ),
        _ => None,
    }
}

fn purpose_kind(purpose: &Option<String>) -> (r: ComponentKind)
    ensures
        r == match purpose.deep_view() {
            Some(purpose) => match kind_of_purpose(purpose) {
                Some(kind) => kind,
                None => ComponentView::empty().kind,
            },
            None => ComponentView::empty().kind,
        },
{
    if let Some(purpose) = purpose {
        if let Some(kind) = purpose_to_kind(purpose.as_str()) {
            return kind;
        }
    }
    Component::default().kind
}

pub fn read_package(element: &Json) -> (r: Component)
    ensures
        r.deep_view() == package_component(element.deep_view()),
{
    let name = element.get("name").text();
    let authors = element.get("originatedBy").texts();
    let mut component = Component::new(text_or(&name, ""));
    component.bom_ref = element_id(element);
    component.version = element.get("software_packageVersion").text();
    component.purl = element.get("software_packageUrl").text();
    component.description = crate::value::if_any(
        either(element.get("description").text(), element.get("summary").text()),
    );
    component.copyright = crate::value::if_any(element.get("software_copyrightText").text());
    component.supplier = element.get("suppliedBy").text();
    component.author = if authors.len() == 0 {
        None
    } else {
        Some(authors[0].clone())
    };
    component.kind = purpose_kind(&element.get("software_primaryPurpose").text());
    component.hashes = filter_map_items(
        element.get("verifiedUsing"),
        |integrity: &Json| -> (o: Option<crate::model::sbom::Hash>)
            ensures
                o.deep_view() == integrity_hash(integrity.deep_view())
            { hash_of(integrity) },
        Ghost(|integrity: JsonView| integrity_hash(integrity)),
    );
    component
}

/// The packages of the graph, by id.
pub open spec fn packages_in(graph: Seq<JsonView>) -> Seq<(Seq<char>, ComponentView)>
    decreases graph.len(),
{
    if graph.len() == 0 {
        Seq::empty()
    } else {
        let before = packages_in(graph.drop_last());
        let last = graph.last();
        match id_of(last) {
            Some(id) => if is_type(last, "software_Package"@) {
                put(before, id, package_component(last))
            } else {
                before
            },
            None => before,
        }
    }
}

fn read_packages(graph: &Json) -> (r: Vec<(String, Component)>)
    ensures
        r.deep_view() == packages_in(graph.deep_view().items()),
{
    let ghost all = graph.deep_view().items();
    let mut out: Vec<(String, Component)> = empty_list();
    let mut i: usize = 0;
    assert(all.take(0) =~= Seq::empty());
    while i < graph.count()
        invariant
            i <= all.len(),
            all == graph.deep_view().items(),
            out.deep_view() == packages_in(all.take(i as int)),
        decreases all.len() - i,
    {
        assert(all.take(i as int + 1).drop_last() =~= all.take(i as int));
        let element = graph.item(i);
        if has_type(element, "software_Package") {
            if let Some(id) = element_id(element) {
                put_value(&mut out, id, read_package(element));
            }
        }
        i = i + 1;
    }
    assert(all.take(i as int) =~= all);
    out
}

// ---------------------------------------------------------------------------
// Relationships
// ---------------------------------------------------------------------------

/// What the relationships add to the packages.
pub struct LinksView {
    pub packages: Seq<(Seq<char>, ComponentView)>,
    pub dependencies: Seq<DependencyView>,
    pub roots: Seq<Seq<char>>,
    pub ignored: nat,
}

pub struct Links {
    packages: Vec<(String, Component)>,
    dependencies: Vec<Dependency>,
    roots: Vec<String>,
    ignored: usize,
}

impl View for Links {
    type V = LinksView;

    closed spec fn view(&self) -> LinksView {
        LinksView {
            packages: self.packages.deep_view(),
            dependencies: self.dependencies.deep_view(),
            roots: self.roots.deep_view(),
            ignored: self.ignored as nat,
        }
    }
}

pub open spec fn license_at(
    licenses: Seq<(Seq<char>, Seq<char>)>,
    target: Seq<char>,
) -> Option<LicenseView> {
    match crate::value::lookup(licenses, target) {
        Some(expression) => Some(license_of(expression)),
        None => None,
    }
}

/// The packages once one of them has these licences, unless it has some.
pub open spec fn licensed(
    packages: Seq<(Seq<char>, ComponentView)>,
    from: Seq<char>,
    found: Seq<LicenseView>,
) -> Seq<(Seq<char>, ComponentView)> {
    let at = key_at(packages, from);
    if at < packages.len() && packages[at].1.licenses.len() == 0 {
        packages.update(
            at,
            (packages[at].0, ComponentView { licenses: found, ..packages[at].1 }),
        )
    } else {
        packages
    }
}

/// The state after one more element of the graph.
pub open spec fn linked(
    state: LinksView,
    element: JsonView,
    licenses: Seq<(Seq<char>, Seq<char>)>,
) -> LinksView {
    let to = element.get("to"@).texts();
    if is_type(element, "SpdxDocument"@) {
        LinksView { roots: state.roots + element.get("rootElement"@).texts(), ..state }
    } else if !is_type(element, "Relationship"@) {
        state
    } else {
        match (element.get("from"@).text(), element.get("relationshipType"@).text()) {
            (Some(from), Some(kind)) => if kind == "dependsOn"@ {
                LinksView { dependencies: with_edges(state.dependencies, from, to), ..state }
            } else if kind == "hasDeclaredLicense"@ || kind == "hasConcludedLicense"@ {
                LinksView {
                    packages: licensed(
                        state.packages,
                        from,
                        filter_mapped(to, |t: Seq<char>| license_at(licenses, t)),
                    ),
                    ..state
                }
            } else if kind == "describes"@ {
                LinksView { roots: state.roots + to, ..state }
            } else {
                LinksView { ignored: state.ignored + 1, ..state }
            },
            _ => state,
        }
    }
}

pub open spec fn links_of(
    packages: Seq<(Seq<char>, ComponentView)>,
    graph: Seq<JsonView>,
    licenses: Seq<(Seq<char>, Seq<char>)>,
) -> LinksView
    decreases graph.len(),
{
    if graph.len() == 0 {
        LinksView { packages, dependencies: Seq::empty(), roots: Seq::empty(), ignored: 0 }
    } else {
        linked(links_of(packages, graph.drop_last(), licenses), graph.last(), licenses)
    }
}

fn license_in(licenses: &Vec<(String, String)>, target: &str) -> (r: Option<License>)
    ensures
        r.deep_view() == license_at(licenses.deep_view(), target@),
{
    let at = find_key(licenses, target);
    if at < licenses.len() {
        assert(licenses.deep_view()[at as int].1 == licenses[at as int].1@);
        Some(as_license(licenses[at].1.as_str()))
    } else {
        None
    }
}

fn give_license(
    packages: &mut Vec<(String, Component)>,
    from: &str,
    to: &Vec<String>,
    licenses: &Vec<(String, String)>,
)
    ensures
        final(packages).deep_view() == licensed(
            old(packages).deep_view(),
            from@,
            filter_mapped(to.deep_view(), |t: Seq<char>| license_at(licenses.deep_view(), t)),
        ),
{
    let at = find_key(packages, from);
    if at < packages.len() {
        assert(packages.deep_view()[at as int].1 == packages[at as int].1.deep_view());
        if packages[at].1.licenses.len() == 0 {
            let ghost known = licenses.deep_view();
            let found = filter_map_list(
                to,
                |t: &String| -> (o: Option<License>)
                    ensures
                        o.deep_view() == license_at(licenses.deep_view(), t@)
                    { license_in(licenses, t.as_str()) },
                Ghost(|t: Seq<char>| license_at(known, t)),
            );
            let key = packages[at].0.clone();
            let mut component = packages[at].1.copy();
            component.licenses = found;
            replace_at(packages, at, (key, component));
        }
    }
}

impl Links {
    fn new(packages: Vec<(String, Component)>) -> (r: Self)
        ensures
            r@ == links_of(packages.deep_view(), Seq::empty(), Seq::empty()),
    {
        Links { packages, dependencies: empty_list(), roots: empty_list(), ignored: 0 }
    }

    fn take(&mut self, element: &Json, licenses: &Vec<(String, String)>)
        requires
            old(self)@.ignored < usize::MAX,
        ensures
            final(self)@ == linked(old(self)@, element.deep_view(), licenses.deep_view()),
    {
        if has_type(element, "SpdxDocument") {
            append_all(&mut self.roots, element.get("rootElement").texts());
            return;
        }
        if !has_type(element, "Relationship") {
            return;
        }
        if let (Some(from), Some(kind)) = (
            element.get("from").text(),
            element.get("relationshipType").text(),
        ) {
            let to = element.get("to").texts();
            if same(kind.as_str(), "dependsOn") {
                add_edges(&mut self.dependencies, from.as_str(), to);
            } else if same(kind.as_str(), "hasDeclaredLicense") || same(
                kind.as_str(),
                "hasConcludedLicense",
            ) {
                give_license(&mut self.packages, from.as_str(), &to, licenses);
            } else if same(kind.as_str(), "describes") {
                append_all(&mut self.roots, to);
            } else {
                self.ignored = self.ignored + 1;
            }
        }
    }
}

fn read_links(graph: &Json) -> (r: Links)
    ensures
        r@ == links_of(
            packages_in(graph.deep_view().items()),
            graph.deep_view().items(),
            licenses_in(graph.deep_view().items()),
        ),
{
    let licenses = read_licenses(graph);
    let ghost all = graph.deep_view().items();
    let ghost known = licenses.deep_view();
    let ghost packages = packages_in(all);
    let mut links = Links::new(read_packages(graph));
    let mut i: usize = 0;
    assert(all.take(0) =~= Seq::empty());
    assert(links_of(packages, all.take(0), known) == links@);
    while i < graph.count()
        invariant
            i <= all.len(),
            all == graph.deep_view().items(),
            known == licenses.deep_view(),
            links@ == links_of(packages, all.take(i as int), known),
            links@.ignored <= i,
        decreases all.len() - i,
    {
        assert(all.take(i as int + 1).drop_last() =~= all.take(i as int));
        links.take(graph.item(i), &licenses);
        i = i + 1;
    }
    assert(all.take(i as int) =~= all);
    links
}

// ---------------------------------------------------------------------------
// Reading
// ---------------------------------------------------------------------------

/// The first element of this type; null without one.
pub open spec fn first_of_type(graph: Seq<JsonView>, kind: Seq<char>) -> JsonView
    decreases graph.len(),
{
    if graph.len() == 0 {
        JsonView::Null
    } else if is_type(graph[0], kind) {
        graph[0]
    } else {
        first_of_type(graph.skip(1), kind)
    }
}

fn find_type<'a>(graph: &'a Json, kind: &str) -> (r: &'a Json)
    ensures
        r.deep_view() == first_of_type(graph.deep_view().items(), kind@),
{
    let ghost all = graph.deep_view().items();
    let mut i: usize = 0;
    assert(all.skip(0) =~= all);
    while i < graph.count()
        invariant
            i <= all.len(),
            all == graph.deep_view().items(),
            first_of_type(all, kind@) == first_of_type(all.skip(i as int), kind@),
        decreases all.len() - i,
    {
        assert(all.skip(i as int)[0] == all[i as int]);
        assert(all.skip(i as int).skip(1) =~= all.skip(i as int + 1));
        if has_type(graph.item(i), kind) {
            return graph.item(i);
        }
        i = i + 1;
    }
    &Json::Null
}

/// The packages but one.
pub open spec fn others(
    packages: Seq<(Seq<char>, ComponentView)>,
    subject: Option<Seq<char>>,
) -> Seq<ComponentView>
    decreases packages.len(),
{
    if packages.len() == 0 {
        Seq::empty()
    } else if Some(packages.last().0) == subject {
        others(packages.drop_last(), subject)
    } else {
        others(packages.drop_last(), subject).push(packages.last().1)
    }
}

pub open spec fn read_document(graph: Seq<JsonView>) -> SbomDocView {
    let links = links_of(packages_in(graph), graph, licenses_in(graph));
    let info = first_of_type(graph, "CreationInfo"@);
    let subject = if links.roots.len() == 0 {
        None
    } else {
        Some(links.roots[0])
    };
    sort_doc(
        SbomDocView {
            spec: Some(
                SpecOriginView {
                    family: FAMILY@,
                    version: or_text(info.get("specVersion"@).text(), SPEC_VERSION@),
                },
            ),
            timestamp: info.get("created"@).text(),
            subject: match subject {
                Some(id) => crate::value::lookup(links.packages, id),
                None => None,
            },
            components: others(links.packages, subject),
            dependencies: links.dependencies,
            ..SbomDocView::empty()
        },
    )
}

/// The document and notices that reading gives, or the refusal.
pub open spec fn read_spec(json: JsonView, ctx: CtxView) -> (
    Result<DocView, ErrorView>,
    CtxView,
) {
    match decoded(json, file_shape()) {
        None => (Err(parse_error(FORMAT@, "not the structure of an SPDX 3 document"@)), ctx),
        Some(file) => {
            let graph = file.get("@graph"@).items();
            let ignored = links_of(packages_in(graph), graph, licenses_in(graph)).ignored;
            if !mentions(file.get("@context"@), "spdx.org/rdf/3."@) {
                (
                    Err(
                        parse_error(
                            FORMAT@,
                            "no SPDX 3 `@context` — this does not look like an SPDX 3 document"@,
                        ),
                    ),
                    ctx,
                )
            } else if graph.len() == 0 {
                (Err(parse_error(FORMAT@, "the `@graph` is empty"@)), ctx)
            } else {
                (
                    Ok(DocView::Sbom(read_document(graph))),
                    ctx.lossy_if(
                        ignored > 0,
                        "spdx3-json: "@ + decimal(ignored)
                            + " relationship(s) other than dependsOn and the licence ones were dropped; the pivot models a dependency graph, not SPDX 3's full relationship vocabulary"@,
                    ).lossy_if(
                        any_in(graph, |e: JsonView| is_type(e, "Annotation"@)),
                        "spdx3-json: annotations were dropped"@,
                    ),
                )
            }
        },
    }
}

fn take_others(packages: &Vec<(String, Component)>, subject: &Option<String>) -> (r: Vec<Component>)
    ensures
        r.deep_view() == others(packages.deep_view(), subject.deep_view()),
{
    let ghost all = packages.deep_view();
    let mut out: Vec<Component> = empty_list();
    let mut i: usize = 0;
    assert(all.take(0) =~= Seq::empty());
    while i < packages.len()
        invariant
            i <= packages@.len(),
            all == packages.deep_view(),
            out.deep_view() == others(all.take(i as int), subject.deep_view()),
        decreases packages@.len() - i,
    {
        assert(all.take(i as int + 1).drop_last() =~= all.take(i as int));
        let is_subject = match subject {
            Some(id) => same(id.as_str(), packages[i].0.as_str()),
            None => false,
        };
        if !is_subject {
            append_one(&mut out, packages[i].1.copy());
        }
        i = i + 1;
    }
    assert(all.take(i as int) =~= all);
    out
}

pub fn read(json: &Json, ctx: &mut FormatCtx) -> (r: Result<Doc, Error>)
    ensures
        (read_result(r), final(ctx)@) == read_spec(json.deep_view(), old(ctx)@),
{
    let file = match decode(json, &file_shape()) {
        Some(file) => file,
        None => {
            return Err(Error::parse(FORMAT, "not the structure of an SPDX 3 document"));
        },
    };
    if !has_mention(file.get("@context"), "spdx.org/rdf/3.") {
        return Err(
            Error::parse(
                FORMAT,
                "no SPDX 3 `@context` — this does not look like an SPDX 3 document",
            ),
        );
    }
    let graph = file.get("@graph");
    if graph.count() == 0 {
        return Err(Error::parse(FORMAT, "the `@graph` is empty"));
    }
    let links = read_links(graph);
    let info = find_type(graph, "CreationInfo");
    let subject: Option<String> = if links.roots.len() == 0 {
        None
    } else {
        Some(links.roots[0].clone())
    };
    let version = info.get("specVersion").text();
    let mut doc = SbomDoc::default();
    doc.spec = Some(SpecOrigin::new(FAMILY, text_or(&version, SPEC_VERSION)));
    doc.timestamp = info.get("created").text();
    if let Some(id) = &subject {
        let at = find_key(&links.packages, id.as_str());
        if at < links.packages.len() {
            assert(links@.packages[at as int].1 == links.packages[at as int].1.deep_view());
            doc.subject = Some(links.packages[at].1.copy());
        }
    }
    doc.components = take_others(&links.packages, &subject);
    doc.dependencies = links.dependencies;
    doc.sort();
    if links.ignored > 0 {
        ctx.lossy(
            concat3(
                "spdx3-json: ",
                number(links.ignored as u64).as_str(),
                " relationship(s) other than dependsOn and the licence ones were dropped; the pivot models a dependency graph, not SPDX 3's full relationship vocabulary",
            ).as_str(),
        );
    }
    if holds_type(graph, "Annotation") {
        ctx.lossy("spdx3-json: annotations were dropped");
    }
    Ok(Doc::Sbom(Box::new(doc)))
}

// ---------------------------------------------------------------------------
// Writing
// ---------------------------------------------------------------------------

/// An IRI segment: letters, digits, dots and dashes.
pub fn sanitize(raw: &str) -> (r: String)
    ensures
        r@ == legal_name(raw@, "element"@),
{
    make_legal(raw, "element")
}

/// The namespace of a document's elements.
pub open spec fn namespace_of(doc: SbomDocView) -> Seq<char> {
    let name = title_of(doc, "sbom"@);
    IRI_BASE@ + "/"@ + legal_name(name, "element"@) + "-"@ + fingerprint_of(
        seq![name, created_of(doc)],
    )
}

pub open spec fn names_of(doc: SbomDocView) -> IdentifiersView {
    IdentifiersView::reserving(Seq::empty()).assigned_all(
        all_components(doc),
        namespace_of(doc) + "/"@,
        "element"@,
    )
}

pub open spec fn creation_item(namespace: Seq<char>, created: Seq<char>) -> JsonView {
    members().text("@id"@, CREATION_INFO@).text("created"@, created).list(
        "createdBy"@,
        seq![JsonView::Text(namespace + "/Agent-udc"@)],
    ).text("specVersion"@, SPEC_VERSION@).text("type"@, "CreationInfo"@).done()
}

pub open spec fn agent_item(iri: Seq<char>, name: Seq<char>) -> JsonView {
    members().text("creationInfo"@, CREATION_INFO@).text("name"@, name).text("spdxId"@, iri).text(
        "type"@,
        "Agent"@,
    ).done()
}

/// The IRI of a person or organization, which has to be an element before
/// anything can point at it.
pub open spec fn agent_iri(namespace: Seq<char>, name: Seq<char>) -> Seq<char> {
    namespace + "/Agent-"@ + legal_name(name, "element"@)
}

fn creation_json(namespace: &str, created: &str) -> (r: Json)
    ensures
        r.deep_view() == creation_item(namespace@, created@),
{
    let mut by: Vec<Json> = empty_list();
    append_one(&mut by, Json::Text(concat(namespace, "/Agent-udc")));
    assert(by.deep_view() =~= seq![JsonView::Text(namespace@ + "/Agent-udc"@)]);
    let mut m = Members::new();
    m.text("@id", CREATION_INFO);
    m.text("created", created);
    m.list("createdBy", by);
    m.text("specVersion", SPEC_VERSION);
    m.text("type", "CreationInfo");
    m.done()
}

fn agent_json(iri: &str, name: &str) -> (r: Json)
    ensures
        r.deep_view() == agent_item(iri@, name@),
{
    let mut m = Members::new();
    m.text("creationInfo", CREATION_INFO);
    m.text("name", name);
    m.text("spdxId", iri);
    m.text("type", "Agent");
    m.done()
}

fn iri_of_agent(namespace: &str, name: &str) -> (r: String)
    ensures
        r@ == agent_iri(namespace@, name@),
{
    concat3(namespace, "/Agent-", sanitize(name).as_str())
}

/// The names of suppliers and authors, each once, as they come.
pub open spec fn agents_of(components: Seq<ComponentView>) -> Seq<Seq<char>>
    decreases components.len(),
{
    if components.len() == 0 {
        Seq::empty()
    } else {
        let c = components.last();
        let before = agents_of(components.drop_last());
        let supplied = match c.supplier {
            Some(name) => with_new(before, name),
            None => before,
        };
        match c.author {
            Some(name) => with_new(supplied, name),
            None => supplied,
        }
    }
}

fn list_agents(components: &Vec<Component>) -> (r: Vec<String>)
    ensures
        r.deep_view() == agents_of(components.deep_view()),
{
    let ghost all = components.deep_view();
    let mut out: Vec<String> = empty_list();
    let mut i: usize = 0;
    assert(all.take(0) =~= Seq::empty());
    while i < components.len()
        invariant
            i <= components@.len(),
            all == components.deep_view(),
            out.deep_view() == agents_of(all.take(i as int)),
        decreases components@.len() - i,
    {
        assert(all.take(i as int + 1).drop_last() =~= all.take(i as int));
        if let Some(name) = &components[i].supplier {
            add_new(&mut out, name.clone());
        }
        if let Some(name) = &components[i].author {
            add_new(&mut out, name.clone());
        }
        i = i + 1;
    }
    assert(all.take(i as int) =~= all);
    out
}

/// A hash, where SPDX 3 defines its algorithm.
pub open spec fn hash_item(hash: HashView) -> Option<JsonView> {
    match algorithm_of(hash.algorithm) {
        Some(algorithm) => Some(
            members().text("algorithm"@, algorithm).text("hashValue"@, hash.value).text(
                "type"@,
                "Hash"@,
            ).done(),
        ),
        None => None,
    }
}

fn hash_json(hash: &crate::model::sbom::Hash) -> (r: Option<Json>)
    ensures
        r.deep_view() == hash_item(hash.deep_view()),
{
    match hash_algorithm(hash.algorithm.as_str()) {
        Some(algorithm) => {
            let mut m = Members::new();
            m.text("algorithm", algorithm);
            m.text("hashValue", hash.value.as_str());
            m.text("type", "Hash");
            Some(m.done())
        },
        None => None,
    }
}

pub open spec fn opt_iri(namespace: Seq<char>, name: Option<Seq<char>>) -> Option<Seq<char>> {
    match name {
        Some(n) => Some(agent_iri(namespace, n)),
        None => None,
    }
}

pub open spec fn package_item(
    component: ComponentView,
    iri: Seq<char>,
    namespace: Seq<char>,
) -> JsonView {
    members().text("creationInfo"@, CREATION_INFO@).opt_text(
        "description"@,
        component.description,
    ).text("name"@, component.name).opt_value(
        "originatedBy"@,
        match opt_iri(namespace, component.author) {
            Some(agent) => Some(JsonView::Array(seq![JsonView::Text(agent)])),
            None => None,
        },
    ).opt_text("software_copyrightText"@, component.copyright).opt_text(
        "software_packageUrl"@,
        component.purl,
    ).opt_text("software_packageVersion"@, component.version).opt_text(
        "software_primaryPurpose"@,
        purpose_of_kind(component.kind),
    ).text("spdxId"@, iri).opt_text("suppliedBy"@, opt_iri(namespace, component.supplier)).text(
        "type"@,
        "software_Package"@,
    ).some_list(
        "verifiedUsing"@,
        filter_mapped(component.hashes, |h: HashView| hash_item(h)),
    ).done()
}

fn package_json(component: &Component, iri: &str, namespace: &str) -> (r: Json)
    ensures
        r.deep_view() == package_item(component.deep_view(), iri@, namespace@),
{
    let hashes = filter_map_list(
        &component.hashes,
        |h: &crate::model::sbom::Hash| -> (o: Option<Json>)
            ensures
                o.deep_view() == hash_item(h.deep_view())
            { hash_json(h) },
        Ghost(|h: HashView| hash_item(h)),
    );
    let mut m = Members::new();
    m.text("creationInfo", CREATION_INFO);
    m.opt_text("description", &component.description);
    m.text("name", component.name.as_str());
    if let Some(author) = &component.author {
        let agent = iri_of_agent(namespace, author.as_str());
        let mut by: Vec<Json> = empty_list();
        append_one(&mut by, Json::Text(agent));
        assert(by.deep_view() =~= seq![JsonView::Text(agent_iri(namespace@, author@))]);
        m.list("originatedBy", by);
    }
    m.opt_text("software_copyrightText", &component.copyright);
    m.opt_text("software_packageUrl", &component.purl);
    m.opt_text("software_packageVersion", &component.version);
    if let Some(purpose) = kind_to_purpose(component.kind) {
        m.text("software_primaryPurpose", purpose);
    }
    m.text("spdxId", iri);
    if let Some(supplier) = &component.supplier {
        m.text("suppliedBy", iri_of_agent(namespace, supplier.as_str()).as_str());
    }
    m.text("type", "software_Package");
    m.some_list("verifiedUsing", hashes);
    m.done()
}

pub open spec fn relationship_item(
    iri: Seq<char>,
    from: Seq<char>,
    kind: Seq<char>,
    to: Seq<Seq<char>>,
) -> JsonView {
    members().text("creationInfo"@, CREATION_INFO@).text("from"@, from).text(
        "relationshipType"@,
        kind,
    ).text("spdxId"@, iri).list("to"@, text_items(to)).text("type"@, "Relationship"@).done()
}

fn relationship_json(iri: &str, from: &str, kind: &str, to: &Vec<String>) -> (r: Json)
    ensures
        r.deep_view() == relationship_item(iri@, from@, kind@, to.deep_view()),
{
    let mut m = Members::new();
    m.text("creationInfo", CREATION_INFO);
    m.text("from", from);
    m.text("relationshipType", kind);
    m.text("spdxId", iri);
    m.list("to", text_list(to));
    m.text("type", "Relationship");
    m.done()
}

pub open spec fn numbered(namespace: Seq<char>, kind: Seq<char>, index: nat) -> Seq<char> {
    namespace + "/"@ + kind + "-"@ + decimal(index)
}

fn numbered_iri(namespace: &str, kind: &str, index: usize) -> (r: String)
    ensures
        r@ == numbered(namespace@, kind@, index as nat),
{
    concat5(namespace, "/", kind, "-", number(index as u64).as_str())
}

/// The licence elements: a licence is an element, not a field.
pub open spec fn license_items(components: Seq<ComponentView>, namespace: Seq<char>) -> Seq<
    JsonView,
>
    decreases components.len(),
{
    if components.len() == 0 {
        Seq::empty()
    } else {
        let before = license_items(components.drop_last(), namespace);
        let index = (components.len() - 1) as nat;
        match declared_license(components.last()) {
            Some(expression) => before.push(
                members().text("creationInfo"@, CREATION_INFO@).text(
                    "simplelicensing_licenseExpression"@,
                    expression,
                ).text("spdxId"@, numbered(namespace, "License"@, index)).text(
                    "type"@,
                    "simplelicensing_LicenseExpression"@,
                ).done(),
            ),
            None => before,
        }
    }
}

/// The relationships by which the licences are reached.
pub open spec fn license_links(
    components: Seq<ComponentView>,
    ids: IdentifiersView,
    namespace: Seq<char>,
) -> Seq<JsonView>
    decreases components.len(),
{
    if components.len() == 0 {
        Seq::empty()
    } else {
        let before = license_links(components.drop_last(), ids, namespace);
        let index = (components.len() - 1) as nat;
        match declared_license(components.last()) {
            Some(_) => before.push(
                relationship_item(
                    numbered(namespace, "Relationship-license"@, index),
                    ids.label_of(components.last()),
                    "hasDeclaredLicense"@,
                    seq![numbered(namespace, "License"@, index)],
                ),
            ),
            None => before,
        }
    }
}

fn license_lists(
    components: &Vec<Component>,
    ids: &Identifiers,
    namespace: &str,
) -> (r: (Vec<Json>, Vec<Json>))
    ensures
        r.0.deep_view() == license_items(components.deep_view(), namespace@),
        r.1.deep_view() == license_links(components.deep_view(), ids@, namespace@),
{
    let ghost all = components.deep_view();
    let mut elements: Vec<Json> = empty_list();
    let mut links: Vec<Json> = empty_list();
    let mut i: usize = 0;
    assert(all.take(0) =~= Seq::empty());
    while i < components.len()
        invariant
            i <= components@.len(),
            all == components.deep_view(),
            elements.deep_view() == license_items(all.take(i as int), namespace@),
            links.deep_view() == license_links(all.take(i as int), ids@, namespace@),
        decreases components@.len() - i,
    {
        assert(all.take(i as int + 1).drop_last() =~= all.take(i as int));
        if let Some(expression) = find_license(&components[i]) {
            let iri = numbered_iri(namespace, "License", i);
            let mut m = Members::new();
            m.text("creationInfo", CREATION_INFO);
            m.text("simplelicensing_licenseExpression", expression.as_str());
            m.text("spdxId", iri.as_str());
            m.text("type", "simplelicensing_LicenseExpression");
            append_one(&mut elements, m.done());
            let mut to: Vec<String> = empty_list();
            append_one(&mut to, iri);
            assert(to.deep_view() =~= seq![numbered(namespace@, "License"@, i as nat)]);
            append_one(
                &mut links,
                relationship_json(
                    numbered_iri(namespace, "Relationship-license", i).as_str(),
                    ids.label(&components[i]).as_str(),
                    "hasDeclaredLicense",
                    &to,
                ),
            );
        }
        i = i + 1;
    }
    assert(all.take(i as int) =~= all);
    (elements, links)
}

/// The targets that the document lists, by their new names.
pub open spec fn targets_of(ids: IdentifiersView, dependency: DependencyView) -> Seq<Seq<char>> {
    filter_mapped(dependency.depends_on, |target: Seq<char>| ids.name_of(target))
}

/// The edges of the graph, rewritten against the new names.
pub open spec fn depends_items(
    dependencies: Seq<DependencyView>,
    ids: IdentifiersView,
    namespace: Seq<char>,
) -> Seq<JsonView>
    decreases dependencies.len(),
{
    if dependencies.len() == 0 {
        Seq::empty()
    } else {
        let before = depends_items(dependencies.drop_last(), ids, namespace);
        let index = (dependencies.len() - 1) as nat;
        let targets = targets_of(ids, dependencies.last());
        match ids.name_of(dependencies.last().bom_ref) {
            Some(from) => if targets.len() == 0 {
                before
            } else {
                before.push(
                    relationship_item(
                        numbered(namespace, "Relationship-depends"@, index),
                        from,
                        "dependsOn"@,
                        targets,
                    ),
                )
            },
            None => before,
        }
    }
}

fn named_targets(ids: &Identifiers, dependency: &Dependency) -> (r: Vec<String>)
    ensures
        r.deep_view() == targets_of(ids@, dependency.deep_view()),
{
    let ghost known = ids@;
    filter_map_list(
        &dependency.depends_on,
        |target: &String| -> (o: Option<String>)
            ensures
                o.deep_view() == ids@.name_of(target@)
            {
                match ids.resolve(target.as_str()) {
                    Some(name) => Some(name.clone()),
                    None => None,
                }
            },
        Ghost(|target: Seq<char>| known.name_of(target)),
    )
}

fn depends_json(dependencies: &Vec<Dependency>, ids: &Identifiers, namespace: &str) -> (r: Vec<
    Json,
>)
    ensures
        r.deep_view() == depends_items(dependencies.deep_view(), ids@, namespace@),
{
    let ghost all = dependencies.deep_view();
    let mut out: Vec<Json> = empty_list();
    let mut i: usize = 0;
    assert(all.take(0) =~= Seq::empty());
    while i < dependencies.len()
        invariant
            i <= dependencies@.len(),
            all == dependencies.deep_view(),
            out.deep_view() == depends_items(all.take(i as int), ids@, namespace@),
        decreases dependencies@.len() - i,
    {
        assert(all.take(i as int + 1).drop_last() =~= all.take(i as int));
        if let Some(from) = ids.resolve(dependencies[i].bom_ref.as_str()) {
            let targets = named_targets(ids, &dependencies[i]);
            if targets.len() > 0 {
                append_one(
                    &mut out,
                    relationship_json(
                        numbered_iri(namespace, "Relationship-depends", i).as_str(),
                        from.as_str(),
                        "dependsOn",
                        &targets,
                    ),
                );
            }
        }
        i = i + 1;
    }
    assert(all.take(i as int) =~= all);
    out
}

pub open spec fn document_element(
    name: Seq<char>,
    namespace: Seq<char>,
    roots: Seq<Seq<char>>,
) -> JsonView {
    members().text("creationInfo"@, CREATION_INFO@).text("name"@, name).list(
        "profileConformance"@,
        seq![JsonView::Text("core"@), JsonView::Text("software"@)],
    ).list("rootElement"@, text_items(roots)).text("spdxId"@, namespace + "/Document"@).text(
        "type"@,
        "SpdxDocument"@,
    ).done()
}

fn document_json(name: &str, namespace: &str, roots: &Vec<String>) -> (r: Json)
    ensures
        r.deep_view() == document_element(name@, namespace@, roots.deep_view()),
{
    let mut profiles: Vec<Json> = empty_list();
    append_one(&mut profiles, Json::Text(owned("core")));
    append_one(&mut profiles, Json::Text(owned("software")));
    assert(profiles.deep_view() =~= seq![JsonView::Text("core"@), JsonView::Text("software"@)]);
    let mut m = Members::new();
    m.text("creationInfo", CREATION_INFO);
    m.text("name", name);
    m.list("profileConformance", profiles);
    m.list("rootElement", text_list(roots));
    m.text("spdxId", concat(namespace, "/Document").as_str());
    m.text("type", "SpdxDocument");
    m.done()
}

/// What the document is about: its first package.
pub open spec fn roots_of(doc: SbomDocView) -> Seq<Seq<char>> {
    if all_components(doc).len() == 0 {
        Seq::empty()
    } else {
        seq![names_of(doc).label_of(all_components(doc)[0])]
    }
}

/// The elements of a written document.
pub open spec fn graph_items(doc: SbomDocView) -> Seq<JsonView> {
    let namespace = namespace_of(doc);
    let ids = names_of(doc);
    let all = all_components(doc);
    seq![
        creation_item(namespace, created_of(doc)),
        agent_item(namespace + "/Agent-udc"@, WRITER@),
    ] + all.map_values(|c: ComponentView| package_item(c, ids.label_of(c), namespace)) + agents_of(
        all,
    ).map_values(|name: Seq<char>| agent_item(agent_iri(namespace, name), name)) + license_items(
        all,
        namespace,
    ) + license_links(all, ids, namespace) + depends_items(doc.dependencies, ids, namespace)
        + seq![document_element(title_of(doc, "sbom"@), namespace, roots_of(doc))]
}

pub open spec fn file_item(doc: SbomDocView) -> JsonView {
    members().text("@context"@, CONTEXT@).list("@graph"@, graph_items(doc)).done()
}

/// A hash whose algorithm SPDX 3 does not define.
pub open spec fn has_odd_hash(component: ComponentView) -> bool {
    any_in(component.hashes, |h: HashView| algorithm_of(h.algorithm) is None)
}

pub open spec fn write_notices(doc: SbomDocView, ctx: CtxView) -> CtxView {
    let named = count_in(all_components(doc), |c: ComponentView| named_only(c));
    let dangling = dangling_of(names_of(doc), doc.dependencies);
    ctx.degraded_if(
        doc.timestamp is None,
        "spdx3-json: the document requires a creation time and the source carried none; 1970-01-01T00:00:00Z is emitted so the output stays reproducible"@,
    ).degraded_if(
        named > 0,
        "spdx3-json: "@ + decimal(named)
            + " licence(s) were recorded only by name, which is not a licence expression, and were omitted"@,
    ).lossy_if(
        any_in(all_components(doc), |c: ComponentView| has_odd_hash(c)),
        "spdx3-json: hashes using an algorithm SPDX 3 does not define were dropped"@,
    ).lossy_if(
        dangling > 0,
        "spdx3-json: "@ + decimal(dangling)
            + " dependency edge(s) pointed at something the document does not list and were dropped"@,
    )
}

pub open spec fn written(doc: DocView, ctx: CtxView) -> (Result<JsonView, ErrorView>, CtxView) {
    match doc {
        DocView::Sbom(doc) => (Ok(file_item(doc)), write_notices(doc, ctx)),
        _ => (Err(wrong_kind("expected a bill of materials"@)), ctx),
    }
}

fn odd_hash(component: &Component) -> (r: bool)
    ensures
        r == has_odd_hash(component.deep_view()),
{
    any_value(
        &component.hashes,
        |h: &crate::model::sbom::Hash| -> (o: bool)
            ensures
                o == (algorithm_of(h.deep_view().algorithm) is None)
            { hash_algorithm(h.algorithm.as_str()).is_none() },
        Ghost(|h: HashView| algorithm_of(h.algorithm) is None),
    )
}

fn give_notices(doc: &SbomDoc, components: &Vec<Component>, ids: &Identifiers, ctx: &mut FormatCtx)
    requires
        components.deep_view() == all_components(doc.deep_view()),
        ids@ == names_of(doc.deep_view()),
    ensures
        final(ctx)@ == write_notices(doc.deep_view(), old(ctx)@),
{
    if doc.timestamp.is_none() {
        ctx.degraded(
            "spdx3-json: the document requires a creation time and the source carried none; 1970-01-01T00:00:00Z is emitted so the output stays reproducible",
        );
    }
    let named = count_named(components);
    if named > 0 {
        ctx.degraded(
            concat3(
                "spdx3-json: ",
                number(named as u64).as_str(),
                " licence(s) were recorded only by name, which is not a licence expression, and were omitted",
            ).as_str(),
        );
    }
    if any_value(
        components,
        |c: &Component| -> (o: bool)
            ensures
                o == has_odd_hash(c.deep_view())
            { odd_hash(c) },
        Ghost(|c: ComponentView| has_odd_hash(c)),
    ) {
        ctx.lossy("spdx3-json: hashes using an algorithm SPDX 3 does not define were dropped");
    }
    let dangling = all_dangling(ids, &doc.dependencies);
    if dangling > 0 {
        ctx.lossy(
            concat3(
                "spdx3-json: ",
                number_wide(dangling).as_str(),
                " dependency edge(s) pointed at something the document does not list and were dropped",
            ).as_str(),
        );
    }
}

fn make_namespace(doc: &SbomDoc) -> (r: String)
    ensures
        r@ == namespace_of(doc.deep_view()),
{
    let name = find_title(doc, "sbom");
    let created = text_or(&doc.timestamp, UNKNOWN_TIME);
    let parts = [name, created];
    assert(parts@.map_values(|p: &str| p@) =~= seq![name@, created@]);
    concat5(IRI_BASE, "/", sanitize(name).as_str(), "-", fingerprint(&parts).as_str())
}

fn graph_json(
    doc: &SbomDoc,
    components: &Vec<Component>,
    ids: &Identifiers,
    namespace: &str,
) -> (r: Vec<Json>)
    requires
        components.deep_view() == all_components(doc.deep_view()),
        ids@ == names_of(doc.deep_view()),
        namespace@ == namespace_of(doc.deep_view()),
    ensures
        r.deep_view() == graph_items(doc.deep_view()),
{
    let ghost known = ids@;
    let ghost all = components.deep_view();
    let mut graph: Vec<Json> = empty_list();
    append_one(&mut graph, creation_json(namespace, text_or(&doc.timestamp, UNKNOWN_TIME)));
    append_one(&mut graph, agent_json(concat(namespace, "/Agent-udc").as_str(), WRITER));
    let ghost start = seq![
        creation_item(namespace@, created_of(doc.deep_view())),
        agent_item(namespace@ + "/Agent-udc"@, WRITER@),
    ];
    assert(graph.deep_view() =~= start);
    let packages = map_list(
        components,
        |c: &Component| -> (o: Json)
            ensures
                o.deep_view() == package_item(
                    c.deep_view(),
                    ids@.label_of(c.deep_view()),
                    namespace@,
                )
            { package_json(c, ids.label(c).as_str(), namespace) },
        Ghost(|c: ComponentView| package_item(c, known.label_of(c), namespace@)),
    );
    let agents = list_agents(components);
    let agent_elements = map_list(
        &agents,
        |name: &String| -> (o: Json)
            ensures
                o.deep_view() == agent_item(agent_iri(namespace@, name@), name@)
            { agent_json(iri_of_agent(namespace, name.as_str()).as_str(), name.as_str()) },
        Ghost(|name: Seq<char>| agent_item(agent_iri(namespace@, name), name)),
    );
    let (licenses, links) = license_lists(components, ids, namespace);
    let edges = depends_json(&doc.dependencies, ids, namespace);
    let mut roots: Vec<String> = empty_list();
    if components.len() > 0 {
        append_one(&mut roots, ids.label(&components[0]));
    }
    assert(roots.deep_view() =~= roots_of(doc.deep_view()));
    let document = document_json(find_title(doc, "sbom"), namespace, &roots);
    append_all(&mut graph, packages);
    append_all(&mut graph, agent_elements);
    append_all(&mut graph, licenses);
    append_all(&mut graph, links);
    append_all(&mut graph, edges);
    append_one(&mut graph, document);
    proof {
        let d = doc.deep_view();
        assert(packages.deep_view() =~= all.map_values(
            |c: ComponentView| package_item(c, names_of(d).label_of(c), namespace_of(d)),
        ));
        assert(agent_elements.deep_view() =~= agents_of(all).map_values(
            |name: Seq<char>| agent_item(agent_iri(namespace_of(d), name), name),
        ));
        assert(graph.deep_view() =~= graph_items(d));
    }
    graph
}

pub fn write(doc: &Doc, ctx: &mut FormatCtx) -> (r: Result<Json, Error>)
    ensures
        (json_result(r), final(ctx)@) == written(doc.deep_view(), old(ctx)@),
{
    let doc = match doc.as_sbom() {
        Ok(doc) => doc,
        Err(e) => {
            return Err(e);
        },
    };
    let components = list_components(doc);
    let namespace = make_namespace(doc);
    let reserved: Vec<String> = empty_list();
    let mut ids = Identifiers::new(reserved);
    ids.assign_all(&components, concat(namespace.as_str(), "/").as_str(), "element");
    give_notices(doc, &components, &ids, ctx);
    let graph = graph_json(doc, &components, &ids, namespace.as_str());
    let mut m = Members::new();
    m.text("@context", CONTEXT);
    m.list("@graph", graph);
    Ok(m.done())
}

} // verus!
