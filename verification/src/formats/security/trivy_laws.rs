//! What reading a Trivy report promises.

use vstd::prelude::*;

use crate::formats::quality::sarif::seconds_of;
use crate::formats::security::trivy::{
    base_location, kept_url, kind_of_id, misconfiguration_finding, opt_list, rank, read_document,
    read_spec, report_shape, result_findings, secret_finding, vulnerability_finding,
};
use crate::json::{decoded, JsonView};
use crate::model::findings::{Finding, FindingView, LocationView, Severity};
use crate::model::sbom_laws::dropping_repeats_keeps_members;
use crate::order::{sorted_props, sorting_keeps_members};
use crate::paths::normalized;
use crate::registry::DocView;
use crate::text::{contains, contains_char, lower, split, split_once_at};
use crate::value::{filter_mapped, flat, kept_items_are_listed, non_empty, parts_are_in_the_whole};
use crate::warn::CtxView;

verus! {

// ---------------------------------------------------------------------------
// Severities
// ---------------------------------------------------------------------------

/// Whether a word is this one, in any case.
pub open spec fn is_word(raw: Option<Seq<char>>, word: Seq<char>) -> bool {
    raw matches Some(text) && lower(text) == lower(word)
}

/// A critical problem is a blocker, a high one critical, a medium one major, a low
/// one minor, and one of no or another rank information.
pub proof fn ranks_become_severities(raw: Option<Seq<char>>)
    ensures
        is_word(raw, "CRITICAL"@) ==> rank(raw) == Severity::Blocker,
        is_word(raw, "HIGH"@) ==> rank(raw) == Severity::Critical,
        is_word(raw, "MEDIUM"@) ==> rank(raw) == Severity::Major,
        is_word(raw, "LOW"@) ==> rank(raw) == Severity::Minor,
        rank(raw) == Severity::Blocker ==> is_word(raw, "CRITICAL"@),
        rank(raw) == Severity::Critical ==> is_word(raw, "HIGH"@),
        rank(raw) == Severity::Major ==> is_word(raw, "MEDIUM"@),
        rank(raw) == Severity::Minor ==> is_word(raw, "LOW"@),
{
    reveal_strlit("CRITICAL");
    reveal_strlit("HIGH");
    reveal_strlit("MEDIUM");
    reveal_strlit("LOW");
    reveal_strlit("");
    assert(lower("CRITICAL"@).len() == 8 && lower("HIGH"@).len() == 4);
    assert(lower("MEDIUM"@).len() == 6 && lower("LOW"@).len() == 3 && lower(""@).len() == 0);
}

// ---------------------------------------------------------------------------
// Places
// ---------------------------------------------------------------------------

/// A finding in a package of the operating system is nowhere in the source tree
/// but in a system; any other is at the normalized target. Either is in the image
/// that was scanned, where it was one.
pub proof fn results_are_in_their_target(result: JsonView, report: JsonView)
    ensures
        ({
            let l = base_location(result, report);
            let packages = result.get("Class"@).text() == Some("os-pkgs"@);
            &&& packages ==> l.path.len() == 0
            &&& !packages ==> l.path == normalized(
                match result.get("Target"@).text() {
                    Some(target) => target,
                    None => ""@,
                },
            ) && l.operating_system is None
            &&& l.image == match report.get("ArtifactType"@).text() {
                Some(kind) => if contains(kind, "image"@) {
                    report.get("ArtifactName"@).text()
                } else {
                    None
                },
                None => None,
            }
            &&& l.begin_line is None && l.end_line is None
            &&& packages ==> {
                let os = report.get("Metadata"@).get("OS"@);
                l.operating_system == non_empty(
                    match (os.get("Family"@).text(), os.get("Name"@).text()) {
                        (Some(family), Some(name)) => Some(family + " "@ + name),
                        (Some(family), None) => Some(family),
                        (None, name) => name,
                    },
                )
            }
        }),
{
}

// ---------------------------------------------------------------------------
// Findings
// ---------------------------------------------------------------------------

/// A text, unless it is missing or empty.
pub open spec fn told(raw: JsonView) -> Option<Seq<char>> {
    match raw.text() {
        Some(text) => if text.len() > 0 {
            Some(text)
        } else {
            None
        },
        None => None,
    }
}

/// Whether a finding says what a vulnerability does.
pub open spec fn says_vulnerability(
    f: FindingView,
    raw: JsonView,
    result: JsonView,
    report: JsonView,
) -> bool {
    let package = match raw.get("PkgName"@).text() {
        Some(name) => name,
        None => ""@,
    };
    &&& f.rule_id == told(raw.get("VulnerabilityID"@))
    &&& f.severity == rank(raw.get("Severity"@).text())
    &&& f.title == raw.get("Title"@).text()
    &&& (told(raw.get("Title"@)) matches Some(title) ==> f.description == title)
    &&& told(raw.get("Title"@)) is None ==> (told(raw.get("Description"@)) matches Some(
        text,
    ) ==> f.description == text)
    &&& f.location == base_location(result, report)
    &&& f.categories.len() == 0
    &&& match raw.get("FixedVersion"@).text() {
        Some(version) => f.help == Some("Upgrade "@ + package + " to "@ + version + "."@),
        None => f.help is None,
    }
    &&& match f.component {
        Some(c) => {
            &&& c.name == package
            &&& c.version == raw.get("InstalledVersion"@).text()
            &&& c.fixed_version == raw.get("FixedVersion"@).text()
            &&& c.purl == raw.get("PkgIdentifier"@).get("PURL"@).text()
        },
        None => false,
    }
    &&& match told(raw.get("VulnerabilityID"@)) {
        Some(id) => {
            &&& f.identifiers.len() == 1 + raw.get("CweIDs"@).texts().len()
            &&& f.identifiers[0].value == id
            &&& f.identifiers[0].url == raw.get("PrimaryURL"@).text()
        },
        None => f.identifiers.len() == raw.get("CweIDs"@).texts().len(),
    }
    &&& forall|n: int|
        #![trigger raw.get("CweIDs"@).texts()[n]]
        0 <= n < raw.get("CweIDs"@).texts().len() ==> {
            let own = f.identifiers[f.identifiers.len() - raw.get("CweIDs"@).texts().len() + n];
            own.kind == "cwe"@ && own.value == raw.get("CweIDs"@).texts()[n]
        }
    &&& f.fingerprint is Some
}

/// Whether a finding says what a misconfiguration does.
pub open spec fn says_misconfiguration(
    f: FindingView,
    raw: JsonView,
    result: JsonView,
    report: JsonView,
) -> bool {
    let cause = raw.get("CauseMetadata"@);
    let base = base_location(result, report);
    &&& f.rule_id == told(raw.get("ID"@))
    &&& f.severity == rank(raw.get("Severity"@).text())
    &&& f.title == raw.get("Title"@).text()
    &&& match (told(raw.get("Message"@)), told(raw.get("Title"@))) {
        (Some(text), _) => f.description == text,
        (None, Some(title)) => f.description == title,
        (None, None) => f.description == match raw.get("Description"@).text() {
            Some(text) => text,
            None => "(no message)"@,
        },
    }
    &&& f.categories == seq!["misconfiguration"@]
    &&& f.help == told(raw.get("Resolution"@))
    &&& f.links == match told(raw.get("PrimaryURL"@)) {
        Some(url) => seq![url],
        None => Seq::empty(),
    }
    &&& f.location.path == base.path
    &&& f.location.image == base.image
    &&& f.location.operating_system == base.operating_system
    &&& f.location.begin_line == cause.get("StartLine"@).number_u32()
    &&& f.location.end_line == cause.get("EndLine"@).number_u32()
    &&& f.component is None
    &&& f.fingerprint is Some
}

/// Whether a finding says what a secret does.
pub open spec fn says_secret(
    f: FindingView,
    raw: JsonView,
    result: JsonView,
    report: JsonView,
) -> bool {
    let base = base_location(result, report);
    &&& f.rule_id == told(raw.get("RuleID"@))
    &&& f.severity == rank(raw.get("Severity"@).text())
    &&& f.description == match told(raw.get("Title"@)) {
        Some(title) => title,
        None => "a secret was found"@,
    }
    &&& f.categories == match told(raw.get("Category"@)) {
        Some(category) => seq!["secret"@, category],
        None => seq!["secret"@],
    }
    &&& f.location.path == base.path
    &&& f.location.image == base.image
    &&& f.location.begin_line == raw.get("StartLine"@).number_u32()
    &&& f.location.end_line == raw.get("EndLine"@).number_u32()
    &&& f.component is None
    &&& f.fingerprint is Some
}

proof fn results_are_listed(report: JsonView, i: int, j: int) -> (k: int)
    requires
        0 <= i < report.get("Results"@).items().len(),
        0 <= j < result_findings(report.get("Results"@).items()[i], report).len(),
    ensures
        0 <= k < read_document(report).findings.len(),
        read_document(report).findings[k] == result_findings(
            report.get("Results"@).items()[i],
            report,
        )[j].fingerprinted(),
{
    let results = report.get("Results"@).items();
    let read = |result: JsonView| result_findings(result, report);
    let all = flat(results, read);
    let made = all.map_values(|f: FindingView| f.fingerprinted());
    let f = result_findings(results[i], report)[j];
    assert(read(results[i])[j] == f);
    parts_are_in_the_whole(results, read, i, j);
    let at = choose|at: int| 0 <= at < all.len() && all[at] == f;
    assert(made[at] == f.fingerprinted());
    assert(made.contains(f.fingerprinted()));
    sorting_keeps_members::<Finding>(made, f.fingerprinted());
    let doc = read_document(report);
    choose|k: int| 0 <= k < doc.findings.len() && doc.findings[k] == f.fingerprinted()
}

/// Every vulnerability becomes a finding that says what it does.
pub proof fn vulnerabilities_become_findings(report: JsonView, i: int, j: int)
    requires
        0 <= i < report.get("Results"@).items().len(),
        0 <= j < report.get("Results"@).items()[i].get("Vulnerabilities"@).items().len(),
    ensures
        ({
            let result = report.get("Results"@).items()[i];
            let raw = result.get("Vulnerabilities"@).items()[j];
            exists|k: int|
                0 <= k < read_document(report).findings.len() && #[trigger] says_vulnerability(
                    read_document(report).findings[k],
                    raw,
                    result,
                    report,
                )
        }),
{
    let result = report.get("Results"@).items()[i];
    let raw = result.get("Vulnerabilities"@).items()[j];
    assert(result_findings(result, report)[j] == vulnerability_finding(
        raw,
        base_location(result, report),
    ));
    let k = results_are_listed(report, i, j);
    reveal_strlit("");
    let f = read_document(report).findings[k];
    let cwes = raw.get("CweIDs"@).texts();
    let own: int = if told(raw.get("VulnerabilityID"@)) is Some {
        1
    } else {
        0
    };
    assert(f.identifiers.len() == own + cwes.len());
    assert forall|n: int| 0 <= n < cwes.len() implies f.identifiers[own + n].value
        == #[trigger] cwes[n] && f.identifiers[own + n].kind == "cwe"@ by {}
    assert(says_vulnerability(read_document(report).findings[k], raw, result, report));
}

/// Every misconfiguration becomes a finding that says what it does.
pub proof fn misconfigurations_become_findings(report: JsonView, i: int, j: int)
    requires
        0 <= i < report.get("Results"@).items().len(),
        0 <= j < report.get("Results"@).items()[i].get("Misconfigurations"@).items().len(),
    ensures
        ({
            let result = report.get("Results"@).items()[i];
            let raw = result.get("Misconfigurations"@).items()[j];
            exists|k: int|
                0 <= k < read_document(report).findings.len() && #[trigger] says_misconfiguration(
                    read_document(report).findings[k],
                    raw,
                    result,
                    report,
                )
        }),
{
    let result = report.get("Results"@).items()[i];
    let raw = result.get("Misconfigurations"@).items()[j];
    let n = result.get("Vulnerabilities"@).items().len();
    assert(result_findings(result, report)[n + j] == misconfiguration_finding(
        raw,
        base_location(result, report),
    ));
    let k = results_are_listed(report, i, n + j);
    assert(says_misconfiguration(read_document(report).findings[k], raw, result, report));
}

/// Every secret becomes a finding that says what it does.
pub proof fn secrets_become_findings(report: JsonView, i: int, j: int)
    requires
        0 <= i < report.get("Results"@).items().len(),
        0 <= j < report.get("Results"@).items()[i].get("Secrets"@).items().len(),
    ensures
        ({
            let result = report.get("Results"@).items()[i];
            let raw = result.get("Secrets"@).items()[j];
            exists|k: int|
                0 <= k < read_document(report).findings.len() && #[trigger] says_secret(
                    read_document(report).findings[k],
                    raw,
                    result,
                    report,
                )
        }),
{
    let result = report.get("Results"@).items()[i];
    let raw = result.get("Secrets"@).items()[j];
    let n = result.get("Vulnerabilities"@).items().len() + result.get(
        "Misconfigurations"@,
    ).items().len();
    assert(result_findings(result, report)[n + j] == secret_finding(
        raw,
        base_location(result, report),
    ));
    let k = results_are_listed(report, i, n + j);
    let f = read_document(report).findings[k];
    assert(f.categories =~= match told(raw.get("Category"@)) {
        Some(category) => seq!["secret"@, category],
        None => seq!["secret"@],
    });
    assert(says_secret(f, raw, result, report));
}

/// How many findings the results hold.
pub open spec fn stated_count(results: Seq<JsonView>) -> nat
    decreases results.len(),
{
    if results.len() == 0 {
        0
    } else {
        let last = results.last();
        stated_count(results.drop_last()) + last.get("Vulnerabilities"@).items().len() + last.get(
            "Misconfigurations"@,
        ).items().len() + last.get("Secrets"@).items().len()
    }
}

proof fn results_hold_what_they_state(results: Seq<JsonView>, report: JsonView)
    ensures
        flat(results, |result: JsonView| result_findings(result, report)).len() == stated_count(
            results,
        ),
    decreases results.len(),
{
    if results.len() > 0 {
        results_hold_what_they_state(results.drop_last(), report);
    }
}

/// There are as many findings as the report states, and they were found by Trivy
/// at the time it gives. A report of another schema than the second is refused
/// where it is of the first or of none, and noted where it is of a later one.
pub proof fn every_statement_is_one_finding(json: JsonView, ctx: CtxView)
    ensures
        match (decoded(json, report_shape()), read_spec(json, ctx)) {
            (Some(report), (Ok(DocView::Findings(doc)), after)) => {
                let version = report.get("SchemaVersion"@).number_u32();
                &&& doc.findings.len() == stated_count(report.get("Results"@).items())
                &&& (doc.tool matches Some(tool) && tool.name == "trivy"@)
                &&& version is Some && version != Some(1u32)
                &&& version == Some(2u32) ==> after == ctx
                &&& doc.scan.start == doc.scan.end
            },
            (_, (Ok(_), _)) => false,
            (Some(report), (Err(_), after)) => {
                let version = report.get("SchemaVersion"@).number_u32();
                &&& version is None || version == Some(1u32)
                &&& after == ctx
            },
            (None, (Err(_), after)) => after == ctx,
        },
{
    if let (Some(report), (Ok(_), _)) = (decoded(json, report_shape()), read_spec(json, ctx)) {
        let results = report.get("Results"@).items();
        results_hold_what_they_state(results, report);
        let all = flat(results, |result: JsonView| result_findings(result, report));
        sorted_props::<Finding>(all.map_values(|f: FindingView| f.fingerprinted()));
    }
}

/// An identifier is of the kind that stands before its first hyphen.
pub proof fn identifiers_are_of_their_prefix(prefix: Seq<char>, rest: Seq<char>)
    requires
        prefix.len() > 0,
        !contains_char(prefix, '-'),
    ensures
        kind_of_id(prefix.push('-') + rest) == lower(prefix),
{
    let id = prefix.push('-') + rest;
    split_once_at(prefix, '-', rest);
    assert(split(id, '-')[0] == prefix);
}

/// A vulnerability links to its own page and to every reference it lists.
pub proof fn vulnerabilities_link_their_references(raw: JsonView, base: LocationView, i: int)
    ensures
        ({
            let links = vulnerability_finding(raw, base).links;
            let references = raw.get("References"@).texts();
            &&& (told(raw.get("PrimaryURL"@)) matches Some(url) ==> links.contains(url))
            &&& 0 <= i < references.len() && references[i].len() > 0 ==> links.contains(
                references[i],
            )
        }),
{
    let url = raw.get("PrimaryURL"@).text();
    let references = raw.get("References"@).texts();
    let all = opt_list(url) + references;
    let g = |u: Seq<char>| kept_url(u);
    let kept = filter_mapped(all, g);
    if let Some(own) = told(raw.get("PrimaryURL"@)) {
        assert(all[0] == own);
        assert(g(all[0]) == Some(own));
        kept_items_are_listed(all, g, 0);
        dropping_repeats_keeps_members(kept, own);
    }
    if 0 <= i < references.len() && references[i].len() > 0 {
        let n = opt_list(url).len();
        assert(all[n + i] == references[i]);
        assert(g(all[n + i]) == Some(references[i]));
        kept_items_are_listed(all, g, n + i);
        dropping_repeats_keeps_members(kept, references[i]);
    }
}

/// A scan was when the report says it was made.
pub proof fn scans_are_when_the_report_was_made(report: JsonView)
    ensures
        match report.get("CreatedAt"@).text() {
            Some(raw) => read_document(report).scan.start == seconds_of(raw),
            None => read_document(report).scan.start is None,
        },
        read_document(report).scan.end == read_document(report).scan.start,
{
}

} // verus!
