//! What the readers and writers tell of what they lose.
//!
//! A conversion is silent exactly where nothing is lost: each notice comes with its
//! cause, and without a cause there is none.

use vstd::prelude::*;

use crate::formats::coverage::{clover, cobertura, gocover, jacoco, lcov};
use crate::formats::quality::{codeclimate, sarif};
use crate::formats::sbom::{cyclonedx_json, spdx3_json, spdx_json};
use crate::formats::sbom::identifiers::IdentifiersView;
use crate::formats::security::gitlab;
use crate::json::JsonView;
use crate::model::coverage::{any_branch, CoverageDocView, FileCoverageView, Line};
use crate::model::findings::{FindingView, FindingsDocView, IdentifierView, Severity};
use crate::model::sbom::{ComponentView, DependencyView, LicenseView, SbomDocView};
use crate::text::{decimal, lower};
use crate::value::{any_in, count_in, filter_mapped, kept_items_are_listed, listed_items_were_kept};
use crate::warn::{degraded_note, lossy_note, CtxView, NoteKind, NoteView};

verus! {

/// A notice is told where its cause is there, behind those told before, and not
/// where it is not.
pub proof fn noting(ctx: CtxView, cause: bool, message: Seq<char>)
    ensures
        lossy_note(message).kind == NoteKind::Lossy && lossy_note(message).message == message,
        degraded_note(message).kind == NoteKind::Degraded && degraded_note(message).message
            == message,
        cause ==> ctx.lossy_if(cause, message).notes.contains(lossy_note(message)),
        cause ==> ctx.degraded_if(cause, message).notes.contains(degraded_note(message)),
        !cause ==> ctx.lossy_if(cause, message) == ctx && ctx.degraded_if(cause, message) == ctx,
        forall|note: NoteView|
            ctx.notes.contains(note) ==> #[trigger] ctx.lossy_if(cause, message).notes.contains(
                note,
            ),
        forall|note: NoteView|
            ctx.notes.contains(note) ==> #[trigger] ctx.degraded_if(cause, message).notes.contains(
                note,
            ),
{
    let a = lossy_note(message);
    let b = degraded_note(message);
    let n = ctx.notes.len() as int;
    assert(ctx.notes.push(a)[n] == a && ctx.notes.push(b)[n] == b);
    assert forall|note: NoteView| ctx.notes.contains(note) implies #[trigger] ctx.lossy_if(
        cause,
        message,
    ).notes.contains(note) by {
        let i = choose|i: int| 0 <= i < n && ctx.notes[i] == note;
        assert(ctx.notes.push(a)[i] == note);
    }
    assert forall|note: NoteView| ctx.notes.contains(note) implies #[trigger] ctx.degraded_if(
        cause,
        message,
    ).notes.contains(note) by {
        let i = choose|i: int| 0 <= i < n && ctx.notes[i] == note;
        assert(ctx.notes.push(b)[i] == note);
    }
}

// ---------------------------------------------------------------------------
// Coverage
// ---------------------------------------------------------------------------

/// Whether a report has a counter of bytecode.
pub open spec fn counts_bytecode(doc: CoverageDocView) -> bool {
    exists|i: int|
        0 <= i < doc.files.len() && {
            let c = (#[trigger] doc.files[i]).counters;
            c.instruction is Some || c.complexity is Some || c.method is Some || c.class is Some
        }
}

proof fn bytecode_is_counted(doc: CoverageDocView)
    ensures
        doc.has_extra_counters() == counts_bytecode(doc),
{
    if doc.has_extra_counters() {
        let i = choose|i: int| 0 <= i < doc.files.len() && (#[trigger] doc.files[i]).has_extra();
        assert(doc.files[i].has_extra());
    }
    if counts_bytecode(doc) {
        let i = choose|i: int|
            0 <= i < doc.files.len() && {
                let c = (#[trigger] doc.files[i]).counters;
                c.instruction is Some || c.complexity is Some || c.method is Some
                    || c.class is Some
            };
        assert(doc.files[i].has_extra());
    }
}

/// Whether a line of a report is such a line.
pub open spec fn any_line(doc: CoverageDocView, p: spec_fn(Line) -> bool) -> bool {
    exists|i: int, j: int|
        0 <= i < doc.files.len() && 0 <= j < doc.files[i].lines.len() && p(
            #[trigger] doc.files[i].lines[j],
        )
}

proof fn lines_are_in_their_files(
    doc: CoverageDocView,
    p: spec_fn(Line) -> bool,
    q: spec_fn(FileCoverageView) -> bool,
)
    requires
        forall|f: FileCoverageView| #[trigger] q(f) == any_in(f.lines, p),
    ensures
        any_in(doc.files, q) == any_line(doc, p),
{
    if any_in(doc.files, q) {
        let i = choose|i: int| 0 <= i < doc.files.len() && q(#[trigger] doc.files[i]);
        let lines = doc.files[i].lines;
        assert(any_in(lines, p));
        let j = choose|j: int| 0 <= j < lines.len() && p(#[trigger] lines[j]);
        assert(p(doc.files[i].lines[j]));
    }
    if any_line(doc, p) {
        let (i, j) = choose|i: int, j: int|
            0 <= i < doc.files.len() && 0 <= j < doc.files[i].lines.len() && p(
                #[trigger] doc.files[i].lines[j],
            );
        let lines = doc.files[i].lines;
        assert(p(lines[j]));
        assert(any_in(lines, p));
        assert(q(doc.files[i]));
    }
}

/// The bytecode counters of a report are lost in Cobertura.
pub proof fn cobertura_tells_its_losses(doc: CoverageDocView, ctx: CtxView)
    ensures
        ({
            let after = cobertura::notices(doc, ctx);
            &&& counts_bytecode(doc) ==> after.notes.contains(
                lossy_note(
                    "cobertura: JaCoCo instruction/complexity/method counters have no Cobertura equivalent and were dropped"@,
                ),
            )
            &&& !counts_bytecode(doc) ==> after == ctx
        }),
{
    bytecode_is_counted(doc);
    noting(
        ctx,
        doc.has_extra_counters(),
        "cobertura: JaCoCo instruction/complexity/method counters have no Cobertura equivalent and were dropped"@,
    );
}

/// The bytecode counters of a report are lost in Clover, and so are branches of a
/// line other than two.
pub proof fn clover_tells_its_losses(doc: CoverageDocView, ctx: CtxView)
    ensures
        ({
            let after = clover::notices(doc, ctx);
            let folds = any_line(doc, |l: Line| l.branch matches Some(b) && b.total != 2);
            &&& counts_bytecode(doc) ==> after.notes.contains(
                lossy_note(
                    "clover: JaCoCo instruction/complexity/method counters have no Clover equivalent and were dropped"@,
                ),
            )
            &&& folds ==> after.notes.contains(
                degraded_note(
                    "clover: a conditional line has exactly two outcomes, so branches beyond the second were folded into them"@,
                ),
            )
            &&& !folds && !counts_bytecode(doc) ==> after == ctx
        }),
{
    let first = "clover: JaCoCo instruction/complexity/method counters have no Clover equivalent and were dropped"@;
    let second = "clover: a conditional line has exactly two outcomes, so branches beyond the second were folded into them"@;
    let p = |l: Line| l.branch matches Some(b) && b.total != 2;
    let own = |l: Line| clover::folds_branches(l);
    let q = |f: FileCoverageView| clover::file_folds(f);
    assert(own =~= p);
    lines_are_in_their_files(doc, own, q);
    bytecode_is_counted(doc);
    noting(ctx, doc.has_extra_counters(), first);
    noting(ctx.lossy_if(doc.has_extra_counters(), first), any_in(doc.files, q), second);
}

/// How often a line ran is lost in JaCoCo where it ran more than once, and
/// instructions are made up where a report with files has no bytecode counter.
pub proof fn jacoco_tells_its_losses(doc: CoverageDocView, ctx: CtxView)
    ensures
        ({
            let after = jacoco::notices(doc, ctx);
            let repeats = any_line(doc, |l: Line| l.hits > 1);
            let guesses = !counts_bytecode(doc) && doc.files.len() > 0;
            &&& repeats ==> after.notes.contains(
                degraded_note(
                    "jacoco: execution counts were flattened to covered/not-covered (JaCoCo has no hit counter)"@,
                ),
            )
            &&& guesses ==> after.notes.contains(
                degraded_note(
                    "jacoco: instruction counters were approximated as one instruction per line; complexity, method and class counters are omitted"@,
                ),
            )
            &&& !repeats && !guesses ==> after == ctx
        }),
{
    let first = "jacoco: execution counts were flattened to covered/not-covered (JaCoCo has no hit counter)"@;
    let second = "jacoco: instruction counters were approximated as one instruction per line; complexity, method and class counters are omitted"@;
    let p = |l: Line| l.hits > 1;
    let q = |f: FileCoverageView| jacoco::counts_runs(f);
    lines_are_in_their_files(doc, p, q);
    bytecode_is_counted(doc);
    noting(ctx, any_in(doc.files, q), first);
    noting(
        ctx.degraded_if(any_in(doc.files, q), first),
        !doc.has_extra_counters() && doc.files.len() > 0,
        second,
    );
}

// ---------------------------------------------------------------------------
// Findings
// ---------------------------------------------------------------------------

/// Security identifiers are lost in a Code Climate report; in the form for GitLab so
/// are categories, guidance, columns and last lines.
pub proof fn code_climate_tells_its_losses(doc: FindingsDocView, subset: bool, ctx: CtxView)
    ensures
        ({
            let after = codeclimate::notices(doc, subset, ctx);
            let grouped = subset && any_in(doc.findings, |f: FindingView| f.categories.len() > 0);
            let helped = subset && any_in(doc.findings, |f: FindingView| f.help is Some);
            let columned = subset && any_in(
                doc.findings,
                |f: FindingView| f.location.begin_column is Some || f.location.end_column is Some,
            );
            let ended = subset && any_in(doc.findings, |f: FindingView| f.location.end_line is Some);
            let identified = any_in(doc.findings, |f: FindingView| f.identifiers.len() > 0);
            &&& grouped ==> after.notes.contains(
                lossy_note(
                    "codeclimate-gitlab: issue categories are not read by GitLab and were dropped"@,
                ),
            )
            &&& helped ==> after.notes.contains(
                lossy_note(
                    "codeclimate-gitlab: remediation guidance has no field in the GitLab subset"@,
                ),
            )
            &&& columned ==> after.notes.contains(
                lossy_note(
                    "codeclimate-gitlab: column positions are not read by GitLab and were dropped"@,
                ),
            )
            &&& ended ==> after.notes.contains(
                lossy_note(
                    "codeclimate-gitlab: end lines are not read by GitLab and were dropped"@,
                ),
            )
            &&& identified ==> after.notes.contains(
                lossy_note(
                    "codeclimate: security identifiers (CVE/CWE) have no place in a code quality report"@,
                ),
            )
            &&& !grouped && !helped && !columned && !ended && !identified ==> after == ctx
        }),
        forall|note: NoteView|
            ctx.notes.contains(note) ==> #[trigger] codeclimate::notices(doc, subset, ctx).notes.contains(
                note,
            ),
{
    assert((|f: FindingView|
        f.location.begin_column is Some || f.location.end_column is Some) =~= (
    |f: FindingView| codeclimate::has_columns(f.location)));
    let grouped = subset && any_in(doc.findings, |f: FindingView| f.categories.len() > 0);
    let said0 = "codeclimate-gitlab: issue categories are not read by GitLab and were dropped"@;
    noting(ctx, grouped, said0);
    let next0 = ctx.lossy_if(grouped, said0);
    let helped = subset && any_in(doc.findings, |f: FindingView| f.help is Some);
    let said1 = "codeclimate-gitlab: remediation guidance has no field in the GitLab subset"@;
    noting(next0, helped, said1);
    let next1 = next0.lossy_if(helped, said1);
    let columned = subset && any_in(
        doc.findings,
        |f: FindingView| f.location.begin_column is Some || f.location.end_column is Some,
    );
    let said2 = "codeclimate-gitlab: column positions are not read by GitLab and were dropped"@;
    noting(next1, columned, said2);
    let next2 = next1.lossy_if(columned, said2);
    let ended = subset && any_in(doc.findings, |f: FindingView| f.location.end_line is Some);
    let said3 = "codeclimate-gitlab: end lines are not read by GitLab and were dropped"@;
    noting(next2, ended, said3);
    let next3 = next2.lossy_if(ended, said3);
    let identified = any_in(doc.findings, |f: FindingView| f.identifiers.len() > 0);
    let said4 = "codeclimate: security identifiers (CVE/CWE) have no place in a code quality report"@;
    noting(next3, identified, said4);
}

/// A SARIF log loses what findings of one rule disagree on, the ranks above an
/// error without an identifier, links behind the first, and identifiers other than
/// those of weaknesses; a finding without a rule stays without one.
pub proof fn sarif_tells_its_losses(doc: FindingsDocView, ctx: CtxView)
    ensures
        ({
            let after = sarif::notices(doc, ctx);
            let conflicting = sarif::table_of(doc.findings).conflicts;
            let unruled = any_in(doc.findings, |f: FindingView| f.rule_id is None);
            let collapsed = any_in(
                doc.findings,
                |f: FindingView|
                    (f.severity == Severity::Critical || f.severity == Severity::Blocker)
                        && f.identifiers.len() == 0,
            );
            let linked = any_in(doc.findings, |f: FindingView| f.links.len() > 1);
            let foreign = any_in(
                doc.findings,
                |f: FindingView|
                    any_in(f.identifiers, |i: IdentifierView| lower(i.kind) != lower("cwe"@)),
            );
            &&& conflicting ==> after.notes.contains(
                degraded_note(
                    "sarif: findings sharing a rule id disagreed on its metadata; the first one seen defines the rule"@,
                ),
            )
            &&& unruled ==> after.notes.contains(
                lossy_note(
                    "sarif: findings with no rule id were emitted without a `ruleId`"@,
                ),
            )
            &&& collapsed ==> after.notes.contains(
                degraded_note(
                    "sarif: critical and blocker collapsed to level \"error\" (SARIF has three levels); only findings carrying a security identifier keep their rank via `security-severity`"@,
                ),
            )
            &&& linked ==> after.notes.contains(
                lossy_note(
                    "sarif: a rule has a single `helpUri`, so only the first link was kept"@,
                ),
            )
            &&& foreign ==> after.notes.contains(
                lossy_note(
                    "sarif: identifiers other than CWE (CVE, GHSA…) survive only as rule tags, not as taxonomies"@,
                ),
            )
            &&& !conflicting && !unruled && !collapsed && !linked && !foreign ==> after == ctx
        }),
        forall|note: NoteView|
            ctx.notes.contains(note) ==> #[trigger] sarif::notices(doc, ctx).notes.contains(
                note,
            ),
{
    assert((|f: FindingView|
        (f.severity == Severity::Critical || f.severity == Severity::Blocker)
            && f.identifiers.len() == 0) =~= (|f: FindingView| sarif::collapses(f)));
    assert((|f: FindingView|
        any_in(f.identifiers, |i: IdentifierView| lower(i.kind) != lower("cwe"@))) =~= (
    |f: FindingView| sarif::has_other_identifier(f)));
    let conflicting = sarif::table_of(doc.findings).conflicts;
    let said0 = "sarif: findings sharing a rule id disagreed on its metadata; the first one seen defines the rule"@;
    noting(ctx, conflicting, said0);
    let next0 = ctx.degraded_if(conflicting, said0);
    let unruled = any_in(doc.findings, |f: FindingView| f.rule_id is None);
    let said1 = "sarif: findings with no rule id were emitted without a `ruleId`"@;
    noting(next0, unruled, said1);
    let next1 = next0.lossy_if(unruled, said1);
    let collapsed = any_in(
        doc.findings,
        |f: FindingView|
            (f.severity == Severity::Critical || f.severity == Severity::Blocker)
                && f.identifiers.len() == 0,
    );
    let said2 = "sarif: critical and blocker collapsed to level \"error\" (SARIF has three levels); only findings carrying a security identifier keep their rank via `security-severity`"@;
    noting(next1, collapsed, said2);
    let next2 = next1.degraded_if(collapsed, said2);
    let linked = any_in(doc.findings, |f: FindingView| f.links.len() > 1);
    let said3 = "sarif: a rule has a single `helpUri`, so only the first link was kept"@;
    noting(next2, linked, said3);
    let next3 = next2.lossy_if(linked, said3);
    let foreign = any_in(
        doc.findings,
        |f: FindingView|
            any_in(f.identifiers, |i: IdentifierView| lower(i.kind) != lower("cwe"@)),
    );
    let said4 = "sarif: identifiers other than CWE (CVE, GHSA…) survive only as rule tags, not as taxonomies"@;
    noting(next3, foreign, said4);
}

/// A GitLab report counts the findings that it cannot identify or place and those
/// whose package has no version; categories are lost, and a scan without a window
/// is given one.
pub proof fn gitlab_tells_its_losses(doc: FindingsDocView, profile: gitlab::Profile, ctx: CtxView)
    ensures
        ({
            let after = gitlab::notices(doc, profile, ctx);
            let format = gitlab::format_id_of(profile);
            let unnamed = count_in(
                doc.findings,
                |f: FindingView| f.identifiers.len() == 0 && f.rule_id is None,
            );
            let unplaced = count_in(doc.findings, |f: FindingView| gitlab::unplaceable(f, profile));
            let bare = count_in(doc.findings, |f: FindingView| gitlab::versionless(f, profile));
            let timeless = doc.scan.start is None || doc.scan.end is None;
            let dropped = unnamed > 0;
            let lacking = unplaced > 0;
            let versionless = bare > 0;
            let grouped = any_in(doc.findings, |f: FindingView| f.categories.len() > 0);
            &&& timeless ==> after.notes.contains(
                degraded_note(
                    format
                        + ": the report requires a scan window and the source carried none; 1970-01-01T00:00:00 is emitted so the output stays reproducible"@,
                ),
            )
            &&& dropped ==> after.notes.contains(
                lossy_note(
                    format + ": "@ + decimal(unnamed)
                        + " finding(s) had neither an identifier nor a rule id and were dropped (the schema requires at least one identifier)"@,
                ),
            )
            &&& lacking ==> after.notes.contains(
                lossy_note(
                    format + ": "@ + decimal(unplaced) + " finding(s) were dropped for lacking "@
                        + gitlab::requirement_of(profile)
                        + " — the schema requires it, and one invalid entry would have GitLab reject the whole report"@,
                ),
            )
            &&& versionless ==> after.notes.contains(
                degraded_note(
                    format + ": "@ + decimal(bare)
                        + " finding(s) had no package version; the schema requires the field, so it is emitted empty rather than losing the vulnerability"@,
                ),
            )
            &&& grouped ==> after.notes.contains(
                lossy_note(
                    format + ": issue categories have no field in the security report"@,
                ),
            )
            &&& !timeless && !dropped && !lacking && !versionless && !grouped ==> after == ctx
        }),
        forall|note: NoteView|
            ctx.notes.contains(note) ==> #[trigger] gitlab::notices(doc, profile, ctx).notes.contains(
                note,
            ),
{
    assert((|f: FindingView| f.identifiers.len() == 0 && f.rule_id is None) =~= (
    |f: FindingView| gitlab::unidentified(f)));
    let format = gitlab::format_id_of(profile);
    let unnamed = count_in(
        doc.findings,
        |f: FindingView| f.identifiers.len() == 0 && f.rule_id is None,
    );
    let unplaced = count_in(doc.findings, |f: FindingView| gitlab::unplaceable(f, profile));
    let bare = count_in(doc.findings, |f: FindingView| gitlab::versionless(f, profile));
    let timeless = doc.scan.start is None || doc.scan.end is None;
    let said0 = format
        + ": the report requires a scan window and the source carried none; 1970-01-01T00:00:00 is emitted so the output stays reproducible"@;
    noting(ctx, timeless, said0);
    let next0 = ctx.degraded_if(timeless, said0);
    let dropped = unnamed > 0;
    let said1 = format + ": "@ + decimal(unnamed)
        + " finding(s) had neither an identifier nor a rule id and were dropped (the schema requires at least one identifier)"@;
    noting(next0, dropped, said1);
    let next1 = next0.lossy_if(dropped, said1);
    let lacking = unplaced > 0;
    let said2 = format + ": "@ + decimal(unplaced) + " finding(s) were dropped for lacking "@
        + gitlab::requirement_of(profile)
        + " — the schema requires it, and one invalid entry would have GitLab reject the whole report"@;
    noting(next1, lacking, said2);
    let next2 = next1.lossy_if(lacking, said2);
    let versionless = bare > 0;
    let said3 = format + ": "@ + decimal(bare)
        + " finding(s) had no package version; the schema requires the field, so it is emitted empty rather than losing the vulnerability"@;
    noting(next2, versionless, said3);
    let next3 = next2.degraded_if(versionless, said3);
    let grouped = any_in(doc.findings, |f: FindingView| f.categories.len() > 0);
    let said4 = format + ": issue categories have no field in the security report"@;
    noting(next3, grouped, said4);
}

// ---------------------------------------------------------------------------
// What readers leave out
// ---------------------------------------------------------------------------

/// A CycloneDX document is flattened, and loses its vulnerabilities, services,
/// compositions, formulation, evidence and pedigree.
pub proof fn cyclonedx_tells_what_it_left_out(bom: JsonView, nested: nat, ctx: CtxView)
    ensures
        ({
            let after = cyclonedx_json::read_notices(bom, nested, ctx);
            let vulnerabilities = bom.get("vulnerabilities"@).items().len();
            let services = bom.get("services"@).items().len();
            let flattened = nested > 0;
            let vulnerable = vulnerabilities > 0;
            let serving = services > 0;
            let composed = bom.get("compositions"@).items().len() > 0;
            let formulated = bom.get("formulation"@).items().len() > 0;
            let evident = cyclonedx_json::carried(bom, "evidence"@);
            let bred = cyclonedx_json::carried(bom, "pedigree"@);
            &&& flattened ==> after.notes.contains(
                degraded_note(
                    "cyclonedx-json: "@ + decimal(nested)
                        + " nested component(s) were flattened to the top level; the pivot has no component tree, and the dependency graph carries the relationships"@,
                ),
            )
            &&& vulnerable ==> after.notes.contains(
                lossy_note(
                    "cyclonedx-json: "@ + decimal(vulnerabilities)
                        + " vulnerability record(s) were dropped; a bill of materials pivot lists components, and vulnerabilities belong to the security category"@,
                ),
            )
            &&& serving ==> after.notes.contains(
                lossy_note(
                    "cyclonedx-json: "@ + decimal(services)
                        + " service(s) were dropped; the pivot models components only"@,
                ),
            )
            &&& composed ==> after.notes.contains(
                lossy_note(
                    "cyclonedx-json: compositions (completeness statements) were dropped"@,
                ),
            )
            &&& formulated ==> after.notes.contains(
                lossy_note(
                    "cyclonedx-json: the formulation (how things were made) was dropped"@,
                ),
            )
            &&& evident ==> after.notes.contains(
                lossy_note(
                    "cyclonedx-json: evidence of how components were identified was dropped"@,
                ),
            )
            &&& bred ==> after.notes.contains(
                lossy_note(
                    "cyclonedx-json: the pedigree of components was dropped"@,
                ),
            )
            &&& !flattened && !vulnerable && !serving && !composed && !formulated && !evident && !bred ==> after == ctx
        }),
        forall|note: NoteView|
            ctx.notes.contains(note) ==> #[trigger] cyclonedx_json::read_notices(bom, nested, ctx).notes.contains(
                note,
            ),
{
    let vulnerabilities = bom.get("vulnerabilities"@).items().len();
    let services = bom.get("services"@).items().len();
    let flattened = nested > 0;
    let said0 = "cyclonedx-json: "@ + decimal(nested)
        + " nested component(s) were flattened to the top level; the pivot has no component tree, and the dependency graph carries the relationships"@;
    noting(ctx, flattened, said0);
    let next0 = ctx.degraded_if(flattened, said0);
    let vulnerable = vulnerabilities > 0;
    let said1 = "cyclonedx-json: "@ + decimal(vulnerabilities)
        + " vulnerability record(s) were dropped; a bill of materials pivot lists components, and vulnerabilities belong to the security category"@;
    noting(next0, vulnerable, said1);
    let next1 = next0.lossy_if(vulnerable, said1);
    let serving = services > 0;
    let said2 = "cyclonedx-json: "@ + decimal(services)
        + " service(s) were dropped; the pivot models components only"@;
    noting(next1, serving, said2);
    let next2 = next1.lossy_if(serving, said2);
    let composed = bom.get("compositions"@).items().len() > 0;
    let said3 = "cyclonedx-json: compositions (completeness statements) were dropped"@;
    noting(next2, composed, said3);
    let next3 = next2.lossy_if(composed, said3);
    let formulated = bom.get("formulation"@).items().len() > 0;
    let said4 = "cyclonedx-json: the formulation (how things were made) was dropped"@;
    noting(next3, formulated, said4);
    let next4 = next3.lossy_if(formulated, said4);
    let evident = cyclonedx_json::carried(bom, "evidence"@);
    let said5 = "cyclonedx-json: evidence of how components were identified was dropped"@;
    noting(next4, evident, said5);
    let next5 = next4.lossy_if(evident, said5);
    let bred = cyclonedx_json::carried(bom, "pedigree"@);
    let said6 = "cyclonedx-json: the pedigree of components was dropped"@;
    noting(next5, bred, said6);
}

/// An SPDX document loses its relationships other than dependencies and
/// descriptions, its files and its snippets.
pub proof fn spdx_tells_what_it_left_out(document: JsonView, ctx: CtxView)
    ensures
        ({
            let after = spdx_json::read_notices(document, ctx);
            let others = count_in(
                document.get("relationships"@).items(),
                |r: JsonView| spdx_json::is_other(r),
            );
            let files = document.get("files"@).items().len();
            let related = others > 0;
            let filed = files > 0;
            let snipped = document.get("snippets"@).items().len() > 0;
            &&& related ==> after.notes.contains(
                lossy_note(
                    "spdx-json: "@ + decimal(others)
                        + " relationship(s) other than DEPENDS_ON were dropped; the pivot models a dependency graph, not SPDX's full relationship vocabulary"@,
                ),
            )
            &&& filed ==> after.notes.contains(
                lossy_note(
                    "spdx-json: "@ + decimal(files) + " file entr(ies) were dropped; the pivot lists packages"@,
                ),
            )
            &&& snipped ==> after.notes.contains(
                lossy_note(
                    "spdx-json: snippets were dropped"@,
                ),
            )
            &&& !related && !filed && !snipped ==> after == ctx
        }),
        forall|note: NoteView|
            ctx.notes.contains(note) ==> #[trigger] spdx_json::read_notices(document, ctx).notes.contains(
                note,
            ),
{
    let others = count_in(
        document.get("relationships"@).items(),
        |r: JsonView| spdx_json::is_other(r),
    );
    let files = document.get("files"@).items().len();
    let related = others > 0;
    let said0 = "spdx-json: "@ + decimal(others)
        + " relationship(s) other than DEPENDS_ON were dropped; the pivot models a dependency graph, not SPDX's full relationship vocabulary"@;
    noting(ctx, related, said0);
    let next0 = ctx.lossy_if(related, said0);
    let filed = files > 0;
    let said1 = "spdx-json: "@ + decimal(files) + " file entr(ies) were dropped; the pivot lists packages"@;
    noting(next0, filed, said1);
    let next1 = next0.lossy_if(filed, said1);
    let snipped = document.get("snippets"@).items().len() > 0;
    let said2 = "spdx-json: snippets were dropped"@;
    noting(next1, snipped, said2);
}

// ---------------------------------------------------------------------------
// What writers of bills of materials lose
// ---------------------------------------------------------------------------

/// Whether a component has licences, but none that is an identifier or an
/// expression.
pub open spec fn is_licensed_by_name(c: ComponentView) -> bool {
    c.licenses.len() > 0 && forall|i: int|
        0 <= i < c.licenses.len() ==> (#[trigger] c.licenses[i]) is Name
}

proof fn names_are_all_there_is(c: ComponentView)
    ensures
        spdx_json::named_only(c) == is_licensed_by_name(c),
{
    let g = |l: LicenseView| spdx_json::expression_in(l);
    let all = filter_mapped(c.licenses, g);
    if all.len() > 0 {
        listed_items_were_kept(c.licenses, g, 0);
        let i = choose|i: int| 0 <= i < c.licenses.len() && g(#[trigger] c.licenses[i]) == Some(
            all[0],
        );
        assert(!(c.licenses[i] is Name));
    }
    assert forall|i: int| 0 <= i < c.licenses.len() && all.len() == 0 implies (
    #[trigger] c.licenses[i]) is Name by {
        if !(c.licenses[i] is Name) {
            assert(g(c.licenses[i]) is Some);
            kept_items_are_listed(c.licenses, g, i);
        }
    }
}

/// An edge dangles where what depends, or what it depends on, is not listed: a
/// graph has none exactly where all its names are.
pub proof fn edges_dangle_without_their_ends(
    ids: IdentifiersView,
    dependencies: Seq<DependencyView>,
)
    ensures
        spdx_json::dangling_of(ids, dependencies) == 0 <==> forall|i: int|
            0 <= i < dependencies.len() ==> is_attached(ids, #[trigger] dependencies[i]),
    decreases dependencies.len(),
{
    if dependencies.len() > 0 {
        let head = dependencies.drop_last();
        let last = dependencies.last();
        edges_dangle_without_their_ends(ids, head);
        no_missing_targets(ids, last.depends_on);
        assert(dependencies[dependencies.len() - 1] == last);
        assert forall|i: int| 0 <= i < head.len() implies #[trigger] head[i] == dependencies[i] by {}
        if forall|i: int|
            0 <= i < dependencies.len() ==> is_attached(ids, #[trigger] dependencies[i]) {
            assert forall|i: int| 0 <= i < head.len() implies is_attached(
                ids,
                #[trigger] head[i],
            ) by {
                assert(is_attached(ids, dependencies[i]));
            }
        }
        if (forall|i: int| 0 <= i < head.len() ==> is_attached(ids, #[trigger] head[i]))
            && is_attached(ids, last) {
            assert forall|i: int| 0 <= i < dependencies.len() implies is_attached(
                ids,
                #[trigger] dependencies[i],
            ) by {
                if i < head.len() {
                    assert(is_attached(ids, head[i]));
                }
            }
        }
    }
}

/// Whether both ends of every edge of a dependency are listed.
pub open spec fn is_attached(ids: IdentifiersView, d: DependencyView) -> bool {
    ids.name_of(d.bom_ref) is Some && forall|j: int|
        0 <= j < d.depends_on.len() ==> ids.name_of(#[trigger] d.depends_on[j]) is Some
}

proof fn no_missing_targets(ids: IdentifiersView, targets: Seq<Seq<char>>)
    ensures
        count_in(targets, |target: Seq<char>| ids.name_of(target) is None) == 0 <==> forall|j: int|
            0 <= j < targets.len() ==> ids.name_of(#[trigger] targets[j]) is Some,
    decreases targets.len(),
{
    if targets.len() > 0 {
        let head = targets.drop_last();
        no_missing_targets(ids, head);
        assert forall|j: int| 0 <= j < head.len() implies #[trigger] head[j] == targets[j] by {}
        if forall|j: int| 0 <= j < targets.len() ==> ids.name_of(#[trigger] targets[j]) is Some {
            assert(ids.name_of(targets[targets.len() - 1]) is Some);
            assert forall|j: int| 0 <= j < head.len() implies ids.name_of(
                #[trigger] head[j],
            ) is Some by {
                assert(ids.name_of(targets[j]) is Some);
            }
        }
        if (forall|j: int| 0 <= j < head.len() ==> ids.name_of(#[trigger] head[j]) is Some)
            && ids.name_of(targets.last()) is Some {
            assert forall|j: int| 0 <= j < targets.len() implies ids.name_of(
                #[trigger] targets[j],
            ) is Some by {
                if j < head.len() {
                    assert(ids.name_of(head[j]) is Some);
                }
            }
        }
    }
}

/// An SPDX document needs a time, knows no licence by its name alone, and has no
/// edge that dangles.
pub proof fn spdx_tells_its_losses(doc: SbomDocView, ctx: CtxView)
    ensures
        ({
            let after = spdx_json::write_notices(doc, ctx);
            let named = count_in(
                spdx_json::all_components(doc),
                |c: ComponentView| is_licensed_by_name(c),
            );
            let loose = spdx_json::dangling_of(spdx_json::names_of(doc), doc.dependencies);
            let timeless = doc.timestamp is None;
            let unspoken = named > 0;
            let dangling = loose > 0;
            &&& timeless ==> after.notes.contains(
                degraded_note(
                    "spdx-json: the document requires a creation time and the source carried none; 1970-01-01T00:00:00Z is emitted so the output stays reproducible"@,
                ),
            )
            &&& unspoken ==> after.notes.contains(
                degraded_note(
                    "spdx-json: "@ + decimal(named)
                        + " licence(s) were recorded only by name, which is not a valid SPDX expression, and became NOASSERTION"@,
                ),
            )
            &&& dangling ==> after.notes.contains(
                lossy_note(
                    "spdx-json: "@ + decimal(loose)
                        + " dependency edge(s) pointed at something the document does not list and were dropped"@,
                ),
            )
            &&& !timeless && !unspoken && !dangling ==> after == ctx
        }),
        forall|note: NoteView|
            ctx.notes.contains(note) ==> #[trigger] spdx_json::write_notices(doc, ctx).notes.contains(
                note,
            ),
{
    assert((|c: ComponentView| is_licensed_by_name(c)) =~= (
    |c: ComponentView| spdx_json::named_only(c))) by {
        assert forall|c: ComponentView| #[trigger] is_licensed_by_name(c) == spdx_json::named_only(
            c,
        ) by {
            names_are_all_there_is(c);
        }
    }
    let named = count_in(
        spdx_json::all_components(doc),
        |c: ComponentView| is_licensed_by_name(c),
    );
    let loose = spdx_json::dangling_of(spdx_json::names_of(doc), doc.dependencies);
    let timeless = doc.timestamp is None;
    let said0 = "spdx-json: the document requires a creation time and the source carried none; 1970-01-01T00:00:00Z is emitted so the output stays reproducible"@;
    noting(ctx, timeless, said0);
    let next0 = ctx.degraded_if(timeless, said0);
    let unspoken = named > 0;
    let said1 = "spdx-json: "@ + decimal(named)
        + " licence(s) were recorded only by name, which is not a valid SPDX expression, and became NOASSERTION"@;
    noting(next0, unspoken, said1);
    let next1 = next0.degraded_if(unspoken, said1);
    let dangling = loose > 0;
    let said2 = "spdx-json: "@ + decimal(loose)
        + " dependency edge(s) pointed at something the document does not list and were dropped"@;
    noting(next1, dangling, said2);
}

/// An SPDX 3 document needs a time, knows no licence by its name alone and no hash
/// of an algorithm it does not define, and has no edge that dangles.
pub proof fn spdx3_tells_its_losses(doc: SbomDocView, ctx: CtxView)
    ensures
        ({
            let after = spdx3_json::write_notices(doc, ctx);
            let named = count_in(
                spdx_json::all_components(doc),
                |c: ComponentView| is_licensed_by_name(c),
            );
            let loose = spdx_json::dangling_of(spdx3_json::names_of(doc), doc.dependencies);
            let timeless = doc.timestamp is None;
            let unspoken = named > 0;
            let odd = any_in(
                spdx_json::all_components(doc),
                |c: ComponentView| spdx3_json::has_odd_hash(c),
            );
            let dangling = loose > 0;
            &&& timeless ==> after.notes.contains(
                degraded_note(
                    "spdx3-json: the document requires a creation time and the source carried none; 1970-01-01T00:00:00Z is emitted so the output stays reproducible"@,
                ),
            )
            &&& unspoken ==> after.notes.contains(
                degraded_note(
                    "spdx3-json: "@ + decimal(named)
                        + " licence(s) were recorded only by name, which is not a licence expression, and were omitted"@,
                ),
            )
            &&& odd ==> after.notes.contains(
                lossy_note(
                    "spdx3-json: hashes using an algorithm SPDX 3 does not define were dropped"@,
                ),
            )
            &&& dangling ==> after.notes.contains(
                lossy_note(
                    "spdx3-json: "@ + decimal(loose)
                        + " dependency edge(s) pointed at something the document does not list and were dropped"@,
                ),
            )
            &&& !timeless && !unspoken && !odd && !dangling ==> after == ctx
        }),
        forall|note: NoteView|
            ctx.notes.contains(note) ==> #[trigger] spdx3_json::write_notices(doc, ctx).notes.contains(
                note,
            ),
{
    assert((|c: ComponentView| is_licensed_by_name(c)) =~= (
    |c: ComponentView| spdx_json::named_only(c))) by {
        assert forall|c: ComponentView| #[trigger] is_licensed_by_name(c) == spdx_json::named_only(
            c,
        ) by {
            names_are_all_there_is(c);
        }
    }
    let named = count_in(
        spdx_json::all_components(doc),
        |c: ComponentView| is_licensed_by_name(c),
    );
    let loose = spdx_json::dangling_of(spdx3_json::names_of(doc), doc.dependencies);
    let timeless = doc.timestamp is None;
    let said0 = "spdx3-json: the document requires a creation time and the source carried none; 1970-01-01T00:00:00Z is emitted so the output stays reproducible"@;
    noting(ctx, timeless, said0);
    let next0 = ctx.degraded_if(timeless, said0);
    let unspoken = named > 0;
    let said1 = "spdx3-json: "@ + decimal(named)
        + " licence(s) were recorded only by name, which is not a licence expression, and were omitted"@;
    noting(next0, unspoken, said1);
    let next1 = next0.degraded_if(unspoken, said1);
    let odd = any_in(
        spdx_json::all_components(doc),
        |c: ComponentView| spdx3_json::has_odd_hash(c),
    );
    let said2 = "spdx3-json: hashes using an algorithm SPDX 3 does not define were dropped"@;
    noting(next1, odd, said2);
    let next2 = next1.lossy_if(odd, said2);
    let dangling = loose > 0;
    let said3 = "spdx3-json: "@ + decimal(loose)
        + " dependency edge(s) pointed at something the document does not list and were dropped"@;
    noting(next2, dangling, said3);
}

/// The bytecode counters of a report are lost in LCOV, and branches are numbered
/// anew.
pub proof fn lcov_tells_its_losses(doc: CoverageDocView, ctx: CtxView)
    ensures
        ({
            let after = lcov::notices(doc, ctx);
            let branches = any_line(doc, |l: Line| l.branch is Some);
            &&& counts_bytecode(doc) ==> after.notes.contains(
                lossy_note(
                    "lcov: JaCoCo instruction/complexity/method counters have no LCOV equivalent and were dropped"@,
                ),
            )
            &&& branches ==> after.notes.contains(
                degraded_note(
                    "lcov: branch block/index identifiers were synthesized (the pivot only keeps covered/total per line)"@,
                ),
            )
            &&& !branches && !counts_bytecode(doc) ==> after == ctx
        }),
{
    let first = "lcov: JaCoCo instruction/complexity/method counters have no LCOV equivalent and were dropped"@;
    let second = "lcov: branch block/index identifiers were synthesized (the pivot only keeps covered/total per line)"@;
    bytecode_is_counted(doc);
    let p = |l: Line| l.branch is Some;
    if lcov::doc_branches(doc) {
        let i = choose|i: int| 0 <= i < doc.files.len() && any_branch(
            (#[trigger] doc.files[i]).lines,
        );
        let lines = doc.files[i].lines;
        let j = choose|j: int| 0 <= j < lines.len() && (#[trigger] lines[j]).branch is Some;
        assert(p(doc.files[i].lines[j]));
    }
    if any_line(doc, p) {
        let (i, j) = choose|i: int, j: int|
            0 <= i < doc.files.len() && 0 <= j < doc.files[i].lines.len() && p(
                #[trigger] doc.files[i].lines[j],
            );
        assert(any_branch(doc.files[i].lines));
    }
    noting(ctx, doc.has_extra_counters(), first);
    noting(ctx.lossy_if(doc.has_extra_counters(), first), lcov::doc_branches(doc), second);
}

/// A Go profile in the mode that counts nothing, with blocks of more than one
/// line, or with import paths that nothing rewrites, tells so.
pub proof fn go_profiles_tell_what_they_lack(rows: Seq<Seq<char>>, ctx: CtxView)
    requires
        gocover::files_of(rows).len() > 0,
    ensures
        ({
            let after = gocover::read_blocks(rows, ctx).1;
            let wide = any_in(
                rows,
                |row: Seq<char>|
                    gocover::block_of(row) matches Some(b) && b.end_line > b.start_line,
            );
            let foreign = !ctx.path_rewriting && any_in(
                gocover::files_of(rows),
                |f: FileCoverageView| gocover::import_path(f.path),
            );
            &&& wide ==> after.notes.contains(
                degraded_note(
                    "go-coverprofile: blocks cover a line range and count statements, not lines; every line of a block is marked, so blank lines, comments and closing braces inside it are counted as executable"@,
                ),
            )
            &&& foreign ==> after.notes.contains(
                lossy_note(
                    "go-coverprofile: paths are Go import paths, not repository paths; pass --strip-prefix <module path> or the platform will match none of them"@,
                ),
            )
            &&& !wide && !foreign ==> after == ctx
        }),
{
    let first = "go-coverprofile: blocks cover a line range and count statements, not lines; every line of a block is marked, so blank lines, comments and closing braces inside it are counted as executable"@;
    let second = "go-coverprofile: paths are Go import paths, not repository paths; pass --strip-prefix <module path> or the platform will match none of them"@;
    let p = |row: Seq<char>| gocover::block_of(row) matches Some(b) && b.end_line > b.start_line;
    assert(p =~= (|l: Seq<char>| gocover::spans(l)));
    let foreign = !ctx.path_rewriting && any_in(
        gocover::files_of(rows),
        |f: FileCoverageView| gocover::import_path(f.path),
    );
    noting(ctx, any_in(rows, p), first);
    noting(ctx.degraded_if(any_in(rows, p), first), foreign, second);
}

} // verus!
