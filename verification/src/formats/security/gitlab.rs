//! GitLab's security report formats: SAST, dependency scanning and container
//! scanning.
//!
//! Each has its own `scan.type` and its own required location:
//!
//! | Profile | `location` must carry |
//! |---|---|
//! | `sast` | nothing; a file and lines when known |
//! | `dependency_scanning` | `file` and `dependency` (package name and version) |
//! | `container_scanning` | `dependency`, `image` and `operating_system` |
//!
//! A finding that cannot satisfy its target's location is dropped, and counted:
//! one invalid entry would have GitLab reject the whole report.

use vstd::prelude::*;

use crate::error::{Error, ErrorView};
use crate::hash::{fingerprint, fingerprint_of, fingerprint_shape};
use crate::json::{json_result, members, Json, JsonView, Members};
use crate::model::findings::{
    Finding, FindingView, FindingsDoc, FindingsDocView, Identifier, IdentifierView, Severity, Tool,
    ToolView,
};
use crate::registry::{wrong_kind, Doc, DocView};
use crate::text::{
    chars, concat, concat4, concat5, decimal, digit, is_digit, lower, number, replace_char,
    replaced, slice, to_lower,
};
use crate::value::{
    any_in, any_value, append_one, count_in, count_values, empty_list, filter_map_list,
    filter_mapped, map_list, non_empty, or_text, text_or,
};
use crate::warn::{CtxView, FormatCtx};

verus! {

/// Schema version the output declares.
pub const SCHEMA_VERSION: &'static str = "15.2.5";

/// Stand-in for an unknown scan window. Deliberately recognizable: a reader
/// seeing 1970 knows the time was not measured.
pub const UNKNOWN_TIME: &'static str = "1970-01-01T00:00:00";

/// Which report is being written.
#[derive(Debug, Clone, Copy, PartialEq, Eq, Structural)]
pub enum Profile {
    Sast,
    DependencyScanning,
    ContainerScanning,
}

pub open spec fn scan_type_of(profile: Profile) -> Seq<char> {
    match profile {
        Profile::Sast => "sast"@,
        Profile::DependencyScanning => "dependency_scanning"@,
        Profile::ContainerScanning => "container_scanning"@,
    }
}

pub open spec fn format_id_of(profile: Profile) -> Seq<char> {
    match profile {
        Profile::Sast => "gitlab-sast"@,
        Profile::DependencyScanning => "gitlab-dependency-scanning"@,
        Profile::ContainerScanning => "gitlab-container-scanning"@,
    }
}

pub open spec fn requirement_of(profile: Profile) -> Seq<char> {
    match profile {
        Profile::Sast => "an identifier or a rule id"@,
        Profile::DependencyScanning => "a file path and a named package"@,
        Profile::ContainerScanning => "an image, an operating system and a named package"@,
    }
}

impl Profile {
    pub fn scan_type(self) -> (r: &'static str)
        ensures
            r@ == scan_type_of(self),
    {
        match self {
            Profile::Sast => "sast",
            Profile::DependencyScanning => "dependency_scanning",
            Profile::ContainerScanning => "container_scanning",
        }
    }

    pub fn format_id(self) -> (r: &'static str)
        ensures
            r@ == format_id_of(self),
    {
        match self {
            Profile::Sast => "gitlab-sast",
            Profile::DependencyScanning => "gitlab-dependency-scanning",
            Profile::ContainerScanning => "gitlab-container-scanning",
        }
    }

    /// What a finding must carry to be expressible here.
    pub fn requirement(self) -> (r: &'static str)
        ensures
            r@ == requirement_of(self),
    {
        match self {
            Profile::Sast => "an identifier or a rule id",
            Profile::DependencyScanning => "a file path and a named package",
            Profile::ContainerScanning => "an image, an operating system and a named package",
        }
    }
}

pub open spec fn severity_word(severity: Severity) -> Seq<char> {
    match severity {
        Severity::Info => "Info"@,
        Severity::Minor => "Low"@,
        Severity::Major => "Medium"@,
        Severity::Critical => "High"@,
        Severity::Blocker => "Critical"@,
    }
}

/// The pivot's five levels onto GitLab's six. GitLab's `Unknown` is left
/// unused: the pivot always knows.
pub fn severity_of(severity: Severity) -> (r: &'static str)
    ensures
        r@ == severity_word(severity),
{
    match severity {
        Severity::Info => "Info",
        Severity::Minor => "Low",
        Severity::Major => "Medium",
        Severity::Critical => "High",
        Severity::Blocker => "Critical",
    }
}

/// No two levels collapse on the way out.
pub proof fn severities_stay_apart(a: Severity, b: Severity)
    ensures
        severity_word(a) == severity_word(b) <==> a == b,
{
    reveal_strlit("Info");
    reveal_strlit("Low");
    reveal_strlit("Medium");
    reveal_strlit("High");
    reveal_strlit("Critical");
    assert(severity_word(Severity::Info)[0] == 'I');
    assert(severity_word(Severity::Minor)[0] == 'L');
    assert(severity_word(Severity::Major)[0] == 'M');
    assert(severity_word(Severity::Critical)[0] == 'H');
    assert(severity_word(Severity::Blocker)[0] == 'C');
}

// ---------------------------------------------------------------------------
// Identity
// ---------------------------------------------------------------------------

pub open spec fn is_hex_digit(c: char) -> bool {
    is_digit(c) || ('a' <= c && c <= 'f') || ('A' <= c && c <= 'F')
}

/// 128 bits in hexadecimal.
pub open spec fn is_hex(value: Seq<char>) -> bool {
    value.len() == 32 && forall|i: int| 0 <= i < value.len() ==> is_hex_digit(#[trigger] value[i])
}

/// 32 digits, grouped as a UUID.
pub open spec fn uuid(hex: Seq<char>) -> Seq<char> {
    hex.subrange(0, 8) + "-"@ + hex.subrange(8, 12) + "-"@ + hex.subrange(12, 16) + "-"@
        + hex.subrange(16, 20) + "-"@ + hex.subrange(20, 32)
}

fn hex_digit(c: char) -> (r: bool)
    ensures
        r == is_hex_digit(c),
{
    digit(c) || ('a' <= c && c <= 'f') || ('A' <= c && c <= 'F')
}

pub fn is_hex_128(value: &str) -> (r: bool)
    ensures
        r == is_hex(value@),
{
    let cs = chars(value);
    if cs.len() != 32 {
        return false;
    }
    let mut i: usize = 0;
    while i < cs.len()
        invariant
            i <= cs@.len(),
            cs@ == value@,
            forall|j: int| 0 <= j < i ==> is_hex_digit(#[trigger] value@[j]),
        decreases cs@.len() - i,
    {
        if !hex_digit(cs[i]) {
            assert(!is_hex_digit(value@[i as int]));
            return false;
        }
        i = i + 1;
    }
    true
}

/// Formats 32 hexadecimal digits as a UUID.
pub fn as_uuid(hex: &str) -> (r: Option<String>)
    ensures
        r.deep_view() == if is_hex(hex@) {
            Some(uuid(hex@))
        } else {
            None
        },
{
    if !is_hex_128(hex) {
        return None;
    }
    let cs = chars(hex);
    let mut out = slice(&cs, 0, 8);
    out.append("-");
    out.append(slice(&cs, 8, 12).as_str());
    out.append("-");
    out.append(slice(&cs, 12, 16).as_str());
    out.append("-");
    out.append(slice(&cs, 16, 20).as_str());
    out.append("-");
    out.append(slice(&cs, 20, 32).as_str());
    Some(out)
}

/// Where the id comes from: the source's fingerprint when it has one, so that a
/// finding keeps its identity across runs.
pub open spec fn stable_hex(finding: FindingView) -> Seq<char> {
    match finding.fingerprint {
        Some(print) => if is_hex(print) {
            print
        } else {
            fingerprint_of(seq![print])
        },
        None => fingerprint_of(seq![finding.location.path, finding.description]),
    }
}

/// Whatever a finding carries, its id is UUID-shaped.
pub proof fn ids_are_uuids(finding: FindingView)
    ensures
        is_hex(stable_hex(finding)),
        uuid(stable_hex(finding)).len() == 36,
{
    match finding.fingerprint {
        Some(print) => fingerprint_shape(seq![print]),
        None => fingerprint_shape(seq![finding.location.path, finding.description]),
    }
    reveal_strlit("-");
}

fn id_of(finding: &Finding) -> (r: String)
    ensures
        r@ == uuid(stable_hex(finding.deep_view())),
{
    let hex = match &finding.fingerprint {
        Some(print) => if is_hex_128(print.as_str()) {
            print.clone()
        } else {
            let parts = [print.as_str()];
            assert(parts@.map_values(|p: &str| p@) =~= seq![print@]);
            fingerprint(&parts)
        },
        None => {
            let parts = [finding.location.path.as_str(), finding.description.as_str()];
            assert(parts@.map_values(|p: &str| p@) =~= seq![
                finding.location.path@,
                finding.description@,
            ]);
            fingerprint(&parts)
        },
    };
    proof {
        ids_are_uuids(finding.deep_view());
    }
    match as_uuid(hex.as_str()) {
        Some(id) => id,
        None => hex,
    }
}

// ---------------------------------------------------------------------------
// Identifiers
// ---------------------------------------------------------------------------

pub open spec fn identifier_item(identifier: IdentifierView) -> JsonView {
    members().text("type"@, lower(identifier.kind)).text("name"@, identifier.value).text(
        "value"@,
        identifier.value,
    ).opt_text("url"@, identifier.url).done()
}

/// The rule a finding broke, in place of an identifier.
pub open spec fn rule_item(rule: Seq<char>, url: Option<Seq<char>>) -> JsonView {
    members().text("type"@, "udc_rule"@).text("name"@, rule).text("value"@, rule).opt_text(
        "url"@,
        url,
    ).done()
}

pub open spec fn first_text(list: Seq<Seq<char>>) -> Option<Seq<char>> {
    if list.len() == 0 {
        None
    } else {
        Some(list[0])
    }
}

/// The identifiers of a finding. The schema requires one, so the rule stands in
/// where the finding has none.
pub open spec fn identifier_items(finding: FindingView) -> Seq<JsonView> {
    if finding.identifiers.len() > 0 {
        finding.identifiers.map_values(|i: IdentifierView| identifier_item(i))
    } else {
        match finding.rule_id {
            Some(rule) => seq![rule_item(rule, first_text(finding.links))],
            None => Seq::empty(),
        }
    }
}

fn identifier_json(identifier: &Identifier) -> (r: Json)
    ensures
        r.deep_view() == identifier_item(identifier.deep_view()),
{
    let mut m = Members::new();
    m.text("type", to_lower(identifier.kind.as_str()).as_str());
    m.text("name", identifier.value.as_str());
    m.text("value", identifier.value.as_str());
    m.opt_text("url", &identifier.url);
    m.done()
}

fn first_of(list: &Vec<String>) -> (r: Option<String>)
    ensures
        r.deep_view() == first_text(list.deep_view()),
{
    if list.len() == 0 {
        None
    } else {
        Some(list[0].clone())
    }
}

pub fn identifiers_of(finding: &Finding) -> (r: Vec<Json>)
    ensures
        r.deep_view() == identifier_items(finding.deep_view()),
{
    if finding.identifiers.len() > 0 {
        return map_list(
            &finding.identifiers,
            |i: &Identifier| -> (r: Json)
                ensures
                    r.deep_view() == identifier_item(i.deep_view())
                { identifier_json(i) },
            Ghost(|i: IdentifierView| identifier_item(i)),
        );
    }
    let mut out: Vec<Json> = empty_list();
    if let Some(rule) = &finding.rule_id {
        let mut m = Members::new();
        m.text("type", "udc_rule");
        m.text("name", rule.as_str());
        m.text("value", rule.as_str());
        m.opt_text("url", &first_of(&finding.links));
        append_one(&mut out, m.done());
    }
    assert(out.deep_view() =~= identifier_items(finding.deep_view()));
    out
}

// ---------------------------------------------------------------------------
// Location
// ---------------------------------------------------------------------------

/// The affected package, where the finding names one.
pub open spec fn dependency_item(finding: FindingView) -> Option<JsonView> {
    match finding.component {
        Some(c) => if c.name.len() == 0 {
            None
        } else {
            Some(
                members().value("package"@, members().text("name"@, c.name).done()).text(
                    "version"@,
                    or_text(c.version, ""@),
                ).done(),
            )
        },
        None => None,
    }
}

/// The location this profile requires; none for a finding that cannot satisfy
/// it.
pub open spec fn location_item(finding: FindingView, profile: Profile) -> Option<JsonView> {
    let file = non_empty(Some(finding.location.path));
    let image = non_empty(finding.location.image);
    let system = non_empty(finding.location.operating_system);
    match profile {
        Profile::Sast => Some(
            members().opt_text("file"@, file).opt_number(
                "start_line"@,
                finding.location.begin_line,
            ).opt_number("end_line"@, finding.location.end_line).done(),
        ),
        Profile::DependencyScanning => match (file, dependency_item(finding)) {
            (Some(f), Some(d)) => Some(members().text("file"@, f).value("dependency"@, d).done()),
            _ => None,
        },
        Profile::ContainerScanning => match (dependency_item(finding), image, system) {
            (Some(d), Some(i), Some(s)) => Some(
                members().value("dependency"@, d).text("image"@, i).text(
                    "operating_system"@,
                    s,
                ).done(),
            ),
            _ => None,
        },
    }
}

fn dependency_of(finding: &Finding) -> (r: Option<Json>)
    ensures
        r.deep_view() == dependency_item(finding.deep_view()),
{
    match &finding.component {
        Some(component) => {
            if component.name.as_str().is_empty() {
                return None;
            }
            let mut package = Members::new();
            package.text("name", component.name.as_str());
            let mut m = Members::new();
            m.value("package", package.done());
            m.text("version", text_or(&component.version, ""));
            Some(m.done())
        },
        None => None,
    }
}

fn filled(value: &Option<String>) -> (r: Option<&str>)
    ensures
        match r {
            Some(v) => non_empty(value.deep_view()) == Some(v@),
            None => non_empty(value.deep_view()) is None,
        },
{
    match value {
        Some(v) => if v.as_str().is_empty() {
            None
        } else {
            Some(v.as_str())
        },
        None => None,
    }
}

/// Builds the location this profile requires.
pub fn location_of(finding: &Finding, profile: Profile) -> (r: Option<Json>)
    ensures
        r.deep_view() == location_item(finding.deep_view(), profile),
{
    let no_file = finding.location.path.as_str().is_empty();
    let mut m = Members::new();
    match profile {
        Profile::Sast => {
            if !no_file {
                m.text("file", finding.location.path.as_str());
            }
            m.opt_number("start_line", finding.location.begin_line);
            m.opt_number("end_line", finding.location.end_line);
        },
        Profile::DependencyScanning => {
            if no_file {
                return None;
            }
            m.text("file", finding.location.path.as_str());
            match dependency_of(finding) {
                Some(dependency) => m.value("dependency", dependency),
                None => {
                    return None;
                },
            }
        },
        Profile::ContainerScanning => {
            match dependency_of(finding) {
                Some(dependency) => m.value("dependency", dependency),
                None => {
                    return None;
                },
            }
            match filled(&finding.location.image) {
                Some(image) => m.text("image", image),
                None => {
                    return None;
                },
            }
            match filled(&finding.location.operating_system) {
                Some(system) => m.text("operating_system", system),
                None => {
                    return None;
                },
            }
        },
    }
    Some(m.done())
}

// ---------------------------------------------------------------------------
// Entries
// ---------------------------------------------------------------------------

pub open spec fn link_items(links: Seq<Seq<char>>) -> Seq<JsonView> {
    links.map_values(|url: Seq<char>| members().text("url"@, url).done())
}

pub open spec fn vulnerability_item(finding: FindingView, location: JsonView) -> JsonView {
    members().text("id"@, uuid(stable_hex(finding))).opt_text("name"@, finding.title).text(
        "description"@,
        finding.description,
    ).text("severity"@, severity_word(finding.severity)).opt_text("solution"@, finding.help).list(
        "identifiers"@,
        identifier_items(finding),
    ).value("location"@, location).some_list("links"@, link_items(finding.links)).done()
}

/// Nothing to identify the finding by.
pub open spec fn unidentified(finding: FindingView) -> bool {
    identifier_items(finding).len() == 0
}

/// Identified, but without the location that the profile requires.
pub open spec fn unplaceable(finding: FindingView, profile: Profile) -> bool {
    !unidentified(finding) && location_item(finding, profile) is None
}

/// Reported, with an empty package version.
pub open spec fn versionless(finding: FindingView, profile: Profile) -> bool {
    &&& !unidentified(finding)
    &&& location_item(finding, profile) is Some
    &&& profile != Profile::Sast
    &&& or_text(finding.component->0.version, ""@).len() == 0
}

/// The report's entry for a finding; none for one that is dropped.
pub open spec fn entry(finding: FindingView, profile: Profile) -> Option<JsonView> {
    if unidentified(finding) {
        None
    } else {
        match location_item(finding, profile) {
            Some(location) => Some(vulnerability_item(finding, location)),
            None => None,
        }
    }
}

fn links_json(links: &Vec<String>) -> (r: Vec<Json>)
    ensures
        r.deep_view() == link_items(links.deep_view()),
{
    map_list(
        links,
        |url: &String| -> (r: Json)
            ensures
                r.deep_view() == members().text("url"@, url@).done()
            {
                let mut m = Members::new();
                m.text("url", url.as_str());
                m.done()
            },
        Ghost(|url: Seq<char>| members().text("url"@, url).done()),
    )
}

fn entry_of(finding: &Finding, profile: Profile) -> (r: Option<Json>)
    ensures
        r.deep_view() == entry(finding.deep_view(), profile),
{
    let identifiers = identifiers_of(finding);
    if identifiers.len() == 0 {
        return None;
    }
    match location_of(finding, profile) {
        Some(location) => {
            let mut m = Members::new();
            m.text("id", id_of(finding).as_str());
            m.opt_text("name", &finding.title);
            m.text("description", finding.description.as_str());
            m.text("severity", severity_of(finding.severity));
            m.opt_text("solution", &finding.help);
            m.list("identifiers", identifiers);
            m.value("location", location);
            m.some_list("links", links_json(&finding.links));
            Some(m.done())
        },
        None => None,
    }
}

fn is_unidentified(finding: &Finding) -> (r: bool)
    ensures
        r == unidentified(finding.deep_view()),
{
    finding.identifiers.len() == 0 && finding.rule_id.is_none()
}

fn is_unplaceable(finding: &Finding, profile: Profile) -> (r: bool)
    ensures
        r == unplaceable(finding.deep_view(), profile),
{
    !is_unidentified(finding) && location_of(finding, profile).is_none()
}

fn is_versionless(finding: &Finding, profile: Profile) -> (r: bool)
    ensures
        r == versionless(finding.deep_view(), profile),
{
    if is_unidentified(finding) || location_of(finding, profile).is_none() {
        return false;
    }
    if profile == Profile::Sast {
        return false;
    }
    match &finding.component {
        Some(component) => {
            proof {
                reveal_strlit("");
            }
            text_or(&component.version, "").is_empty()
        },
        None => false,
    }
}

// ---------------------------------------------------------------------------
// The report
// ---------------------------------------------------------------------------

/// What the conversion has to admit to.
pub open spec fn notices(doc: FindingsDocView, profile: Profile, ctx: CtxView) -> CtxView {
    let format = format_id_of(profile);
    let unidentified_count = count_in(doc.findings, |f: FindingView| unidentified(f));
    let unplaceable_count = count_in(doc.findings, |f: FindingView| unplaceable(f, profile));
    let versionless_count = count_in(doc.findings, |f: FindingView| versionless(f, profile));
    ctx.degraded_if(
        doc.scan.start is None || doc.scan.end is None,
        format
            + ": the report requires a scan window and the source carried none; 1970-01-01T00:00:00 is emitted so the output stays reproducible"@,
    ).lossy_if(
        unidentified_count > 0,
        format + ": "@ + decimal(unidentified_count)
            + " finding(s) had neither an identifier nor a rule id and were dropped (the schema requires at least one identifier)"@,
    ).lossy_if(
        unplaceable_count > 0,
        format + ": "@ + decimal(unplaceable_count) + " finding(s) were dropped for lacking "@
            + requirement_of(profile)
            + " — the schema requires it, and one invalid entry would have GitLab reject the whole report"@,
    ).degraded_if(
        versionless_count > 0,
        format + ": "@ + decimal(versionless_count)
            + " finding(s) had no package version; the schema requires the field, so it is emitted empty rather than losing the vulnerability"@,
    ).lossy_if(
        any_in(doc.findings, |f: FindingView| f.categories.len() > 0),
        format + ": issue categories have no field in the security report"@,
    )
}

pub open spec fn analyzer_item(tool: Option<ToolView>) -> JsonView {
    let name = match tool {
        Some(t) => t.name,
        None => "udc"@,
    };
    let version = match tool {
        Some(t) => or_text(t.version, "unknown"@),
        None => "unknown"@,
    };
    let url = match tool {
        Some(t) => t.url,
        None => None,
    };
    members().text("id"@, replace_char(lower(name), ' ', '-')).text("name"@, name).text(
        "version"@,
        version,
    ).value("vendor"@, members().text("name"@, name).done()).opt_text("url"@, url).done()
}

pub open spec fn report(doc: FindingsDocView, profile: Profile) -> JsonView {
    members().text("version"@, SCHEMA_VERSION@).value(
        "scan"@,
        members().value("analyzer"@, analyzer_item(doc.tool)).value(
            "scanner"@,
            analyzer_item(doc.tool),
        ).text("type"@, scan_type_of(profile)).text("status"@, "success"@).text(
            "start_time"@,
            or_text(doc.scan.start, UNKNOWN_TIME@),
        ).text("end_time"@, or_text(doc.scan.end, UNKNOWN_TIME@)).done(),
    ).list(
        "vulnerabilities"@,
        filter_mapped(doc.findings, |f: FindingView| entry(f, profile)),
    ).done()
}

fn analyzer_json(tool: &Option<Tool>) -> (r: Json)
    ensures
        r.deep_view() == analyzer_item(tool.deep_view()),
{
    let none: Option<String> = None;
    let (name, version, url): (&str, &str, &Option<String>) = match tool {
        Some(t) => (t.name.as_str(), text_or(&t.version, "unknown"), &t.url),
        None => ("udc", "unknown", &none),
    };
    let mut vendor = Members::new();
    vendor.text("name", name);
    let mut m = Members::new();
    m.text("id", replaced(to_lower(name).as_str(), ' ', '-').as_str());
    m.text("name", name);
    m.text("version", version);
    m.value("vendor", vendor.done());
    m.opt_text("url", url);
    m.done()
}

fn give_notices(doc: &FindingsDoc, profile: Profile, ctx: &mut FormatCtx)
    ensures
        final(ctx)@ == notices(doc.deep_view(), profile, old(ctx)@),
{
    let format = profile.format_id();
    if doc.scan.start.is_none() || doc.scan.end.is_none() {
        ctx.degraded(
            concat(
                format,
                ": the report requires a scan window and the source carried none; 1970-01-01T00:00:00 is emitted so the output stays reproducible",
            ).as_str(),
        );
    }
    let dropped = count_values(
        &doc.findings,
        |f: &Finding| -> (r: bool)
            ensures
                r == unidentified(f.deep_view())
            { is_unidentified(f) },
        Ghost(|f: FindingView| unidentified(f)),
    );
    if dropped > 0 {
        ctx.lossy(
            concat4(
                format,
                ": ",
                number(dropped as u64).as_str(),
                " finding(s) had neither an identifier nor a rule id and were dropped (the schema requires at least one identifier)",
            ).as_str(),
        );
    }
    let homeless = count_values(
        &doc.findings,
        |f: &Finding| -> (r: bool)
            ensures
                r == unplaceable(f.deep_view(), profile)
            { is_unplaceable(f, profile) },
        Ghost(|f: FindingView| unplaceable(f, profile)),
    );
    if homeless > 0 {
        let mut message = concat5(
            format,
            ": ",
            number(homeless as u64).as_str(),
            " finding(s) were dropped for lacking ",
            profile.requirement(),
        );
        message.append(
            " — the schema requires it, and one invalid entry would have GitLab reject the whole report",
        );
        ctx.lossy(message.as_str());
    }
    let unversioned = count_values(
        &doc.findings,
        |f: &Finding| -> (r: bool)
            ensures
                r == versionless(f.deep_view(), profile)
            { is_versionless(f, profile) },
        Ghost(|f: FindingView| versionless(f, profile)),
    );
    if unversioned > 0 {
        ctx.degraded(
            concat4(
                format,
                ": ",
                number(unversioned as u64).as_str(),
                " finding(s) had no package version; the schema requires the field, so it is emitted empty rather than losing the vulnerability",
            ).as_str(),
        );
    }
    let categorized = any_value(
        &doc.findings,
        |f: &Finding| -> (r: bool)
            ensures
                r == (f.deep_view().categories.len() > 0)
            { f.categories.len() > 0 },
        Ghost(|f: FindingView| f.categories.len() > 0),
    );
    if categorized {
        ctx.lossy(concat(format, ": issue categories have no field in the security report").as_str());
    }
}

/// The report and the notices, or the refusal of a document of another kind.
pub open spec fn written(doc: DocView, profile: Profile, ctx: CtxView) -> (
    Result<JsonView, ErrorView>,
    CtxView,
) {
    match doc {
        DocView::Findings(doc) => (Ok(report(doc, profile)), notices(doc, profile, ctx)),
        _ => (Err(wrong_kind("expected a findings report"@)), ctx),
    }
}

pub fn emit(doc: &Doc, ctx: &mut FormatCtx, profile: Profile) -> (r: Result<Json, Error>)
    ensures
        (json_result(r), final(ctx)@) == written(doc.deep_view(), profile, old(ctx)@),
{
    let doc = match doc.as_findings() {
        Ok(doc) => doc,
        Err(e) => {
            return Err(e);
        },
    };
    give_notices(doc, profile, ctx);
    let vulnerabilities = filter_map_list(
        &doc.findings,
        |f: &Finding| -> (r: Option<Json>)
            ensures
                r.deep_view() == entry(f.deep_view(), profile)
            { entry_of(f, profile) },
        Ghost(|f: FindingView| entry(f, profile)),
    );
    let mut scan = Members::new();
    scan.value("analyzer", analyzer_json(&doc.tool));
    scan.value("scanner", analyzer_json(&doc.tool));
    scan.text("type", profile.scan_type());
    scan.text("status", "success");
    scan.text("start_time", text_or(&doc.scan.start, UNKNOWN_TIME));
    scan.text("end_time", text_or(&doc.scan.end, UNKNOWN_TIME));
    let mut m = Members::new();
    m.text("version", SCHEMA_VERSION);
    m.value("scan", scan.done());
    m.list("vulnerabilities", vulnerabilities);
    Ok(m.done())
}

/// SAST: findings in source code. The location is free-form, so anything with
/// an identifier fits.
pub fn write_sast(doc: &Doc, ctx: &mut FormatCtx) -> (r: Result<Json, Error>)
    ensures
        (json_result(r), final(ctx)@) == written(doc.deep_view(), Profile::Sast, old(ctx)@),
{
    emit(doc, ctx, Profile::Sast)
}

/// Dependency scanning: a vulnerable package declared in a manifest. Needs both
/// the manifest path and the package.
pub fn write_dependency_scanning(doc: &Doc, ctx: &mut FormatCtx) -> (r: Result<Json, Error>)
    ensures
        (json_result(r), final(ctx)@) == written(
            doc.deep_view(),
            Profile::DependencyScanning,
            old(ctx)@,
        ),
{
    emit(doc, ctx, Profile::DependencyScanning)
}

/// Container scanning: a vulnerable package inside an image. Needs the image
/// and its operating system, and has no manifest file at all.
pub fn write_container_scanning(doc: &Doc, ctx: &mut FormatCtx) -> (r: Result<Json, Error>)
    ensures
        (json_result(r), final(ctx)@) == written(
            doc.deep_view(),
            Profile::ContainerScanning,
            old(ctx)@,
        ),
{
    emit(doc, ctx, Profile::ContainerScanning)
}

/// Every finding is either reported or counted in a notice, exactly once.
pub proof fn findings_are_reported_or_counted(findings: Seq<FindingView>, profile: Profile)
    ensures
        filter_mapped(findings, |f: FindingView| entry(f, profile)).len() + count_in(
            findings,
            |f: FindingView| unidentified(f),
        ) + count_in(findings, |f: FindingView| unplaceable(f, profile)) == findings.len(),
    decreases findings.len(),
{
    if findings.len() > 0 {
        findings_are_reported_or_counted(findings.drop_last(), profile);
    }
}

} // verus!
