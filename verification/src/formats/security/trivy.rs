//! Trivy JSON: dependencies, container images, infrastructure-as-code and
//! secrets in a single report.
//!
//! A result's `Class` says what kind of finding it holds and where that finding
//! is:
//!
//! | Class | Findings | Located by |
//! |---|---|---|
//! | `os-pkgs` | vulnerabilities | the image and its operating system; there is no file |
//! | `lang-pkgs` | vulnerabilities | the manifest or lock file in `Target` |
//! | `config` | misconfigurations | the file in `Target`, with lines from `CauseMetadata` |
//! | `secret` | secrets | the file in `Target`, with the rule's own lines |

use vstd::prelude::*;

use crate::error::{parse_error, Error, ErrorView};
use crate::formats::quality::sarif::{iso_seconds, seconds_of};
use crate::formats::security::gitlab::severity_word;
use crate::json::{
    decode, decoded, field, list_of, map_items, maybe, number_field, text_field, Fields, Json,
    JsonView, Shape,
};
use crate::model::findings::{
    fingerprint_all, sort_doc, Component, ComponentView, Finding, FindingView, FindingsDoc,
    FindingsDocView, Identifier, IdentifierView, Location, LocationView, ScanWindow, ScanWindowView,
    Severity, Tool, ToolView,
};
use crate::model::sbom::{drop_repeats, without_repeats};
use crate::paths::{normalize, normalized};
use crate::registry::{read_result, Doc, DocView};
use crate::text::{
    concat3, concat5, contains, decimal, has, lower, number, owned, pieces, same,
    same_ignoring_case, split, to_lower,
};
use crate::value::{
    append_all, append_one, either, empty_list, filter_map_list, filter_mapped, flat, if_any,
    map_list, non_empty, or_else, or_text, text_or, Value,
};
use crate::warn::{CtxView, FormatCtx};

verus! {

pub const FORMAT: &'static str = "trivy-json";

// ---------------------------------------------------------------------------
// The shape of a report
// ---------------------------------------------------------------------------

#[verifier::allow_in_spec]
pub fn vulnerability_shape() -> Shape
    returns
        Shape::Record(
            text_field("VulnerabilityID", text_field("PkgName", field(
                "PkgIdentifier",
                maybe(Shape::Record(text_field("PURL", Fields::End))),
                text_field("InstalledVersion", text_field("FixedVersion", text_field(
                    "Title",
                    text_field("Description", text_field("Severity", field(
                        "CweIDs",
                        list_of(Shape::Text),
                        text_field("PrimaryURL", field(
                            "References",
                            list_of(Shape::Text),
                            Fields::End,
                        )),
                    ))),
                ))),
            ))),
        ),
{
    Shape::Record(
        text_field("VulnerabilityID", text_field("PkgName", field(
            "PkgIdentifier",
            maybe(Shape::Record(text_field("PURL", Fields::End))),
            text_field("InstalledVersion", text_field("FixedVersion", text_field(
                "Title",
                text_field("Description", text_field("Severity", field(
                    "CweIDs",
                    list_of(Shape::Text),
                    text_field("PrimaryURL", field(
                        "References",
                        list_of(Shape::Text),
                        Fields::End,
                    )),
                ))),
            ))),
        ))),
    )
}

#[verifier::allow_in_spec]
pub fn misconfiguration_shape() -> Shape
    returns
        Shape::Record(
            text_field("ID", text_field("Title", text_field("Description", text_field(
                "Message",
                text_field("Severity", text_field("Resolution", text_field("PrimaryURL", field(
                    "CauseMetadata",
                    maybe(
                        Shape::Record(
                            number_field("StartLine", 4294967295, number_field(
                                "EndLine",
                                4294967295,
                                Fields::End,
                            )),
                        ),
                    ),
                    Fields::End,
                )))),
            )))),
        ),
{
    Shape::Record(
        text_field("ID", text_field("Title", text_field("Description", text_field(
            "Message",
            text_field("Severity", text_field("Resolution", text_field("PrimaryURL", field(
                "CauseMetadata",
                maybe(
                    Shape::Record(
                        number_field("StartLine", 4294967295, number_field(
                            "EndLine",
                            4294967295,
                            Fields::End,
                        )),
                    ),
                ),
                Fields::End,
            )))),
        )))),
    )
}

#[verifier::allow_in_spec]
pub fn secret_shape() -> Shape
    returns
        Shape::Record(
            text_field("RuleID", text_field("Category", text_field("Severity", text_field(
                "Title",
                number_field("StartLine", 4294967295, number_field(
                    "EndLine",
                    4294967295,
                    Fields::End,
                )),
            )))),
        ),
{
    Shape::Record(
        text_field("RuleID", text_field("Category", text_field("Severity", text_field(
            "Title",
            number_field("StartLine", 4294967295, number_field(
                "EndLine",
                4294967295,
                Fields::End,
            )),
        )))),
    )
}

#[verifier::allow_in_spec]
pub fn result_shape() -> Shape
    returns
        Shape::Record(
            text_field("Target", text_field("Class", text_field("Type", field(
                "Vulnerabilities",
                list_of(vulnerability_shape()),
                field("Misconfigurations", list_of(misconfiguration_shape()), field(
                    "Secrets",
                    list_of(secret_shape()),
                    Fields::End,
                )),
            )))),
        ),
{
    Shape::Record(
        text_field("Target", text_field("Class", text_field("Type", field(
            "Vulnerabilities",
            list_of(vulnerability_shape()),
            field("Misconfigurations", list_of(misconfiguration_shape()), field(
                "Secrets",
                list_of(secret_shape()),
                Fields::End,
            )),
        )))),
    )
}

#[verifier::allow_in_spec]
pub fn report_shape() -> Shape
    returns
        Shape::Record(
            number_field("SchemaVersion", 4294967295, text_field("CreatedAt", text_field(
                "ArtifactName",
                text_field("ArtifactType", field(
                    "Metadata",
                    maybe(
                        Shape::Record(
                            field(
                                "OS",
                                maybe(
                                    Shape::Record(
                                        text_field("Family", text_field("Name", Fields::End)),
                                    ),
                                ),
                                Fields::End,
                            ),
                        ),
                    ),
                    field("Results", list_of(result_shape()), Fields::End),
                )),
            ))),
        ),
{
    Shape::Record(
        number_field("SchemaVersion", 4294967295, text_field("CreatedAt", text_field(
            "ArtifactName",
            text_field("ArtifactType", field(
                "Metadata",
                maybe(
                    Shape::Record(
                        field(
                            "OS",
                            maybe(
                                Shape::Record(
                                    text_field("Family", text_field("Name", Fields::End)),
                                ),
                            ),
                            Fields::End,
                        ),
                    ),
                ),
                field("Results", list_of(result_shape()), Fields::End),
            )),
        ))),
    )
}

// ---------------------------------------------------------------------------
// Vocabulary
// ---------------------------------------------------------------------------

/// Trivy's ranks onto the pivot's, in order.
pub open spec fn rank(raw: Option<Seq<char>>) -> Severity {
    let word = lower(or_text(raw, ""@));
    if word == lower("CRITICAL"@) {
        Severity::Blocker
    } else if word == lower("HIGH"@) {
        Severity::Critical
    } else if word == lower("MEDIUM"@) {
        Severity::Major
    } else if word == lower("LOW"@) {
        Severity::Minor
    } else {
        Severity::Info
    }
}

pub fn severity_of(raw: &Option<String>) -> (r: Severity)
    ensures
        r == rank(raw.deep_view()),
{
    let word = text_or(raw, "");
    if same_ignoring_case(word, "CRITICAL") {
        Severity::Blocker
    } else if same_ignoring_case(word, "HIGH") {
        Severity::Critical
    } else if same_ignoring_case(word, "MEDIUM") {
        Severity::Major
    } else if same_ignoring_case(word, "LOW") {
        Severity::Minor
    } else {
        Severity::Info
    }
}

/// A rank survives the trip to GitLab intact: what GitLab is told reads, as a
/// Trivy rank, as the same severity.
pub proof fn ranks_survive_the_trip_to_gitlab(severity: Severity)
    ensures
        rank(Some(severity_word(severity))) == severity,
{
    reveal_strlit("Info");
    reveal_strlit("Low");
    reveal_strlit("Medium");
    reveal_strlit("High");
    reveal_strlit("Critical");
    reveal_strlit("CRITICAL");
    reveal_strlit("HIGH");
    reveal_strlit("MEDIUM");
    reveal_strlit("LOW");
    let word = lower(severity_word(severity));
    assert(lower("CRITICAL"@)[0] == 'c');
    assert(lower("HIGH"@)[0] == 'h');
    assert(lower("MEDIUM"@)[0] == 'm');
    assert(lower("LOW"@)[0] == 'l');
    match severity {
        Severity::Info => {
            assert(word[0] == 'i');
        },
        Severity::Minor => {
            assert(word =~= lower("LOW"@));
        },
        Severity::Major => {
            assert(word =~= lower("MEDIUM"@));
        },
        Severity::Critical => {
            assert(word =~= lower("HIGH"@));
        },
        Severity::Blocker => {
            assert(word =~= lower("CRITICAL"@));
        },
    }
}

/// `CVE-2024-1234` is a `cve`, `GHSA-xxxx` a `ghsa`, and the vendor advisories
/// that Trivy reports go by their own prefix.
pub open spec fn kind_of_id(id: Seq<char>) -> Seq<char> {
    let prefix = split(id, '-')[0];
    if prefix.len() == 0 {
        "unknown"@
    } else {
        lower(prefix)
    }
}

pub fn identifier_kind(id: &str) -> (r: String)
    ensures
        r@ == kind_of_id(id@),
{
    let parts = pieces(id, '-');
    assert(parts.deep_view()[0] == parts[0]@);
    if parts[0].as_str().is_empty() {
        owned("unknown")
    } else {
        to_lower(parts[0].as_str())
    }
}

// ---------------------------------------------------------------------------
// Findings
// ---------------------------------------------------------------------------

pub open spec fn cwe_identifier(value: Seq<char>) -> IdentifierView {
    IdentifierView { kind: "cwe"@, value, url: None }
}

pub open spec fn own_identifier(id: Seq<char>, url: Option<Seq<char>>) -> Seq<IdentifierView> {
    if id.len() == 0 {
        Seq::empty()
    } else {
        seq![IdentifierView { kind: kind_of_id(id), value: id, url }]
    }
}

pub open spec fn opt_list(text: Option<Seq<char>>) -> Seq<Seq<char>> {
    match text {
        Some(t) => seq![t],
        None => Seq::empty(),
    }
}

pub open spec fn kept_url(url: Seq<char>) -> Option<Seq<char>> {
    non_empty(Some(url))
}

/// The finding that a vulnerable package is. The title is the headline, the
/// description the essay.
pub open spec fn vulnerability_finding(raw: JsonView, base: LocationView) -> FindingView {
    let id = or_text(raw.get("VulnerabilityID"@).text(), ""@);
    let package = or_text(raw.get("PkgName"@).text(), ""@);
    let title = raw.get("Title"@).text();
    let fixed = raw.get("FixedVersion"@).text();
    let url = raw.get("PrimaryURL"@).text();
    FindingView {
        rule_id: non_empty(Some(id)),
        title,
        description: or_text(
            or_else(non_empty(title), non_empty(raw.get("Description"@).text())),
            id + " affects "@ + package,
        ),
        severity: rank(raw.get("Severity"@).text()),
        categories: Seq::empty(),
        location: base,
        fingerprint: None,
        help: match fixed {
            Some(version) => Some("Upgrade "@ + package + " to "@ + version + "."@),
            None => None,
        },
        links: without_repeats(
            filter_mapped(
                opt_list(url) + raw.get("References"@).texts(),
                |u: Seq<char>| kept_url(u),
            ),
        ),
        identifiers: own_identifier(id, url) + raw.get("CweIDs"@).texts().map_values(
            |cwe: Seq<char>| cwe_identifier(cwe),
        ),
        component: Some(
            ComponentView {
                name: package,
                version: raw.get("InstalledVersion"@).text(),
                fixed_version: fixed,
                purl: raw.get("PkgIdentifier"@).get("PURL"@).text(),
            },
        ),
    }
}

fn links_of(raw: &Json) -> (r: Vec<String>)
    ensures
        r.deep_view() == vulnerability_finding(raw.deep_view(), LocationView::empty()).links,
{
    let url = raw.get("PrimaryURL").text();
    let mut all: Vec<String> = empty_list();
    if let Some(u) = &url {
        append_one(&mut all, u.clone());
    }
    assert(all.deep_view() =~= opt_list(url.deep_view()));
    append_all(&mut all, raw.get("References").texts());
    let kept = filter_map_list(
        &all,
        |u: &String| -> (o: Option<String>)
            ensures
                o.deep_view() == kept_url(u@)
            { if_any(Some(u.clone())) },
        Ghost(|u: Seq<char>| kept_url(u)),
    );
    drop_repeats(&kept)
}

fn identifiers_of(raw: &Json, id: &str) -> (r: Vec<Identifier>)
    requires
        id@ == or_text(raw.deep_view().get("VulnerabilityID"@).text(), ""@),
    ensures
        r.deep_view() == vulnerability_finding(
            raw.deep_view(),
            LocationView::empty(),
        ).identifiers,
{
    let mut out: Vec<Identifier> = empty_list();
    if !id.is_empty() {
        append_one(
            &mut out,
            Identifier {
                kind: identifier_kind(id),
                value: owned(id),
                url: raw.get("PrimaryURL").text(),
            },
        );
    }
    assert(out.deep_view() =~= own_identifier(id@, raw.deep_view().get("PrimaryURL"@).text()));
    let cwes = raw.get("CweIDs").texts();
    append_all(
        &mut out,
        map_list(
            &cwes,
            |cwe: &String| -> (o: Identifier)
                ensures
                    o.deep_view() == cwe_identifier(cwe@)
                { Identifier { kind: owned("cwe"), value: cwe.clone(), url: None } },
            Ghost(|cwe: Seq<char>| cwe_identifier(cwe)),
        ),
    );
    out
}

pub fn vulnerability(raw: &Json, base: &Location) -> (r: Finding)
    ensures
        r.deep_view() == vulnerability_finding(raw.deep_view(), base.deep_view()),
{
    let id_text = raw.get("VulnerabilityID").text();
    let id = text_or(&id_text, "");
    let package_text = raw.get("PkgName").text();
    let package = text_or(&package_text, "");
    let fixed = raw.get("FixedVersion").text();
    let headline = either(
        if_any(raw.get("Title").text()),
        if_any(raw.get("Description").text()),
    );
    let affects = concat3(id, " affects ", package);
    Finding {
        rule_id: if_any(Some(owned(id))),
        title: raw.get("Title").text(),
        description: owned(text_or(&headline, affects.as_str())),
        severity: severity_of(&raw.get("Severity").text()),
        categories: empty_list(),
        location: base.copy(),
        fingerprint: None,
        help: match &fixed {
            Some(version) => Some(concat5("Upgrade ", package, " to ", version.as_str(), ".")),
            None => None,
        },
        links: links_of(raw),
        identifiers: identifiers_of(raw, id),
        component: Some(
            Component {
                name: owned(package),
                version: raw.get("InstalledVersion").text(),
                fixed_version: raw.get("FixedVersion").text(),
                purl: raw.get("PkgIdentifier").get("PURL").text(),
            },
        ),
    }
}

pub open spec fn misconfiguration_finding(raw: JsonView, base: LocationView) -> FindingView {
    let cause = raw.get("CauseMetadata"@);
    FindingView {
        rule_id: non_empty(raw.get("ID"@).text()),
        title: raw.get("Title"@).text(),
        categories: seq!["misconfiguration"@],
        location: LocationView {
            begin_line: cause.get("StartLine"@).number_u32(),
            end_line: cause.get("EndLine"@).number_u32(),
            ..base
        },
        help: non_empty(raw.get("Resolution"@).text()),
        links: opt_list(non_empty(raw.get("PrimaryURL"@).text())),
        ..FindingView::of(
            or_text(
                or_else(
                    or_else(
                        non_empty(raw.get("Message"@).text()),
                        non_empty(raw.get("Title"@).text()),
                    ),
                    raw.get("Description"@).text(),
                ),
                "(no message)"@,
            ),
            rank(raw.get("Severity"@).text()),
        )
    }
}

pub fn misconfiguration(raw: &Json, base: &Location) -> (r: Finding)
    ensures
        r.deep_view() == misconfiguration_finding(raw.deep_view(), base.deep_view()),
{
    let message = either(
        either(if_any(raw.get("Message").text()), if_any(raw.get("Title").text())),
        raw.get("Description").text(),
    );
    let mut finding = Finding::new(
        text_or(&message, "(no message)"),
        severity_of(&raw.get("Severity").text()),
    );
    finding.rule_id = if_any(raw.get("ID").text());
    finding.title = raw.get("Title").text();
    finding.help = if_any(raw.get("Resolution").text());
    let mut links: Vec<String> = empty_list();
    if let Some(url) = if_any(raw.get("PrimaryURL").text()) {
        append_one(&mut links, url);
    }
    assert(links.deep_view() =~= opt_list(
        non_empty(raw.deep_view().get("PrimaryURL"@).text()),
    ));
    finding.links = links;
    let mut categories: Vec<String> = empty_list();
    append_one(&mut categories, owned("misconfiguration"));
    assert(categories.deep_view() =~= seq!["misconfiguration"@]);
    finding.categories = categories;
    let cause = raw.get("CauseMetadata");
    let mut location = base.copy();
    location.begin_line = cause.get("StartLine").number_u32();
    location.end_line = cause.get("EndLine").number_u32();
    finding.location = location;
    finding
}

pub open spec fn secret_finding(raw: JsonView, base: LocationView) -> FindingView {
    FindingView {
        rule_id: non_empty(raw.get("RuleID"@).text()),
        categories: seq!["secret"@] + opt_list(non_empty(raw.get("Category"@).text())),
        location: LocationView {
            begin_line: raw.get("StartLine"@).number_u32(),
            end_line: raw.get("EndLine"@).number_u32(),
            ..base
        },
        ..FindingView::of(
            or_text(non_empty(raw.get("Title"@).text()), "a secret was found"@),
            rank(raw.get("Severity"@).text()),
        )
    }
}

pub fn secret(raw: &Json, base: &Location) -> (r: Finding)
    ensures
        r.deep_view() == secret_finding(raw.deep_view(), base.deep_view()),
{
    let title = if_any(raw.get("Title").text());
    let mut finding = Finding::new(
        text_or(&title, "a secret was found"),
        severity_of(&raw.get("Severity").text()),
    );
    finding.rule_id = if_any(raw.get("RuleID").text());
    let mut categories: Vec<String> = empty_list();
    append_one(&mut categories, owned("secret"));
    if let Some(category) = if_any(raw.get("Category").text()) {
        append_one(&mut categories, category);
    }
    assert(categories.deep_view() =~= seq!["secret"@] + opt_list(
        non_empty(raw.deep_view().get("Category"@).text()),
    ));
    finding.categories = categories;
    let mut location = base.copy();
    location.begin_line = raw.get("StartLine").number_u32();
    location.end_line = raw.get("EndLine").number_u32();
    finding.location = location;
    finding
}

// ---------------------------------------------------------------------------
// Reading
// ---------------------------------------------------------------------------

/// The scanned image, where the artifact is one.
pub open spec fn image_of(report: JsonView) -> Option<Seq<char>> {
    match report.get("ArtifactType"@).text() {
        Some(kind) => if contains(kind, "image"@) {
            report.get("ArtifactName"@).text()
        } else {
            None
        },
        None => None,
    }
}

/// The operating system of the artifact, by family and name.
pub open spec fn system_of(report: JsonView) -> Option<Seq<char>> {
    let os = report.get("Metadata"@).get("OS"@);
    match (os.get("Family"@).text(), os.get("Name"@).text()) {
        (Some(family), Some(name)) => Some(family + " "@ + name),
        (Some(family), None) => Some(family),
        (None, Some(name)) => Some(name),
        (None, None) => None,
    }
}

/// Where the findings of a result are. An operating-system package is not in a
/// file; a language package is declared in the manifest that `Target` names.
pub open spec fn base_location(result: JsonView, report: JsonView) -> LocationView {
    let packages = result.get("Class"@).text() == Some("os-pkgs"@);
    LocationView {
        path: if packages {
            Seq::empty()
        } else {
            normalized(or_text(result.get("Target"@).text(), ""@))
        },
        image: image_of(report),
        operating_system: if packages {
            non_empty(system_of(report))
        } else {
            None
        },
        ..LocationView::empty()
    }
}

pub open spec fn result_findings(result: JsonView, report: JsonView) -> Seq<FindingView> {
    let base = base_location(result, report);
    result.get("Vulnerabilities"@).items().map_values(|raw: JsonView|
        vulnerability_finding(raw, base)) + result.get("Misconfigurations"@).items().map_values(
        |raw: JsonView| misconfiguration_finding(raw, base),
    ) + result.get("Secrets"@).items().map_values(|raw: JsonView| secret_finding(raw, base))
}

pub open spec fn trivy_tool() -> ToolView {
    ToolView { name: "trivy"@, version: None, url: Some("https://trivy.dev"@) }
}

pub open spec fn scan_time(report: JsonView) -> Option<Seq<char>> {
    match report.get("CreatedAt"@).text() {
        Some(raw) => seconds_of(raw),
        None => None,
    }
}

pub open spec fn read_document(report: JsonView) -> FindingsDocView {
    sort_doc(
        FindingsDocView {
            tool: Some(trivy_tool()),
            scan: ScanWindowView { start: scan_time(report), end: scan_time(report) },
            findings: flat(
                report.get("Results"@).items(),
                |result: JsonView| result_findings(result, report),
            ).map_values(|f: FindingView| f.fingerprinted()),
        },
    )
}

/// The document and notices that reading gives, or the refusal.
pub open spec fn read_spec(json: JsonView, ctx: CtxView) -> (
    Result<DocView, ErrorView>,
    CtxView,
) {
    match decoded(json, report_shape()) {
        None => (Err(parse_error(FORMAT@, "not the structure of a Trivy report"@)), ctx),
        Some(report) => match report.get("SchemaVersion"@).number_u32() {
            None => (
                Err(
                    parse_error(
                        FORMAT@,
                        "no `SchemaVersion` — this does not look like a Trivy report"@,
                    ),
                ),
                ctx,
            ),
            Some(version) => if version == 1 {
                (
                    Err(
                        parse_error(
                            FORMAT@,
                            "schema version 1 is a structurally different report and is not supported; re-run Trivy, which has emitted version 2 for years"@,
                        ),
                    ),
                    ctx,
                )
            } else {
                (
                    Ok(DocView::Findings(read_document(report))),
                    ctx.degraded_if(
                        version != 2,
                        "trivy-json: schema version "@ + decimal(version as nat)
                            + " is newer than the version 2 this reader knows; fields it added were ignored"@,
                    ),
                )
            },
        },
    }
}

fn find_image(report: &Json) -> (r: Option<String>)
    ensures
        r.deep_view() == image_of(report.deep_view()),
{
    match report.get("ArtifactType").text() {
        Some(kind) => if has(kind.as_str(), "image") {
            report.get("ArtifactName").text()
        } else {
            None
        },
        None => None,
    }
}

fn find_system(report: &Json) -> (r: Option<String>)
    ensures
        r.deep_view() == system_of(report.deep_view()),
{
    let os = report.get("Metadata").get("OS");
    match (os.get("Family").text(), os.get("Name").text()) {
        (Some(family), Some(name)) => Some(concat3(family.as_str(), " ", name.as_str())),
        (Some(family), None) => Some(family),
        (None, Some(name)) => Some(name),
        (None, None) => None,
    }
}

fn find_base(result: &Json, report: &Json) -> (r: Location)
    ensures
        r.deep_view() == base_location(result.deep_view(), report.deep_view()),
{
    let packages = match result.get("Class").text() {
        Some(class) => same(class.as_str(), "os-pkgs"),
        None => false,
    };
    let mut location = Location::default();
    if packages {
        location.operating_system = if_any(find_system(report));
    } else {
        let target = result.get("Target").text();
        location.path = normalize(text_or(&target, ""));
    }
    location.image = find_image(report);
    location
}

fn read_result_entry(result: &Json, report: &Json) -> (r: Vec<Finding>)
    ensures
        r.deep_view() == result_findings(result.deep_view(), report.deep_view()),
{
    let base = find_base(result, report);
    let ghost place = base.deep_view();
    let mut out = map_items(
        result.get("Vulnerabilities"),
        |raw: &Json| -> (o: Finding)
            ensures
                o.deep_view() == vulnerability_finding(raw.deep_view(), base.deep_view())
            { vulnerability(raw, &base) },
        Ghost(|raw: JsonView| vulnerability_finding(raw, place)),
    );
    let misconfigurations = map_items(
        result.get("Misconfigurations"),
        |raw: &Json| -> (o: Finding)
            ensures
                o.deep_view() == misconfiguration_finding(raw.deep_view(), base.deep_view())
            { misconfiguration(raw, &base) },
        Ghost(|raw: JsonView| misconfiguration_finding(raw, place)),
    );
    let secrets = map_items(
        result.get("Secrets"),
        |raw: &Json| -> (o: Finding)
            ensures
                o.deep_view() == secret_finding(raw.deep_view(), base.deep_view())
            { secret(raw, &base) },
        Ghost(|raw: JsonView| secret_finding(raw, place)),
    );
    append_all(&mut out, misconfigurations);
    append_all(&mut out, secrets);
    assert(out.deep_view() =~= result_findings(result.deep_view(), report.deep_view()));
    out
}

fn find_time(report: &Json) -> (r: Option<String>)
    ensures
        r.deep_view() == scan_time(report.deep_view()),
{
    match report.get("CreatedAt").text() {
        Some(raw) => iso_seconds(raw.as_str()),
        None => None,
    }
}

fn build_document(report: &Json) -> (r: FindingsDoc)
    ensures
        r.deep_view() == read_document(report.deep_view()),
{
    let results = report.get("Results");
    let ghost all = results.deep_view().items();
    let ghost whole = report.deep_view();
    let mut findings: Vec<Finding> = empty_list();
    let mut i: usize = 0;
    assert(all.take(0) =~= Seq::empty());
    while i < results.count()
        invariant
            i <= all.len(),
            all == results.deep_view().items(),
            whole == report.deep_view(),
            findings.deep_view() == flat(
                all.take(i as int),
                |result: JsonView| result_findings(result, whole),
            ),
        decreases all.len() - i,
    {
        assert(all.take(i as int + 1).drop_last() =~= all.take(i as int));
        append_all(&mut findings, read_result_entry(results.item(i), report));
        i = i + 1;
    }
    assert(all.take(i as int) =~= all);
    let mut doc = FindingsDoc {
        tool: Some(
            Tool { name: owned("trivy"), version: None, url: Some(owned("https://trivy.dev")) },
        ),
        scan: ScanWindow { start: find_time(report), end: find_time(report) },
        findings: fingerprint_all(&findings),
    };
    doc.sort();
    doc
}

pub fn read(json: &Json, ctx: &mut FormatCtx) -> (r: Result<Doc, Error>)
    ensures
        (read_result(r), final(ctx)@) == read_spec(json.deep_view(), old(ctx)@),
{
    let report = match decode(json, &report_shape()) {
        Some(report) => report,
        None => {
            return Err(Error::parse(FORMAT, "not the structure of a Trivy report"));
        },
    };
    match report.get("SchemaVersion").number_u32() {
        None => {
            return Err(
                Error::parse(
                    FORMAT,
                    "no `SchemaVersion` — this does not look like a Trivy report",
                ),
            );
        },
        Some(version) => {
            if version == 1 {
                return Err(
                    Error::parse(
                        FORMAT,
                        "schema version 1 is a structurally different report and is not supported; re-run Trivy, which has emitted version 2 for years",
                    ),
                );
            }
            if version != 2 {
                ctx.degraded(
                    concat3(
                        "trivy-json: schema version ",
                        number(version as u64).as_str(),
                        " is newer than the version 2 this reader knows; fields it added were ignored",
                    ).as_str(),
                );
            }
        },
    }
    Ok(Doc::Findings(build_document(&report)))
}

} // verus!
