//! What merging, sorting and naming findings promise.

use vstd::prelude::*;

use crate::hash::fingerprint_of;
use crate::model::findings::{
    merge_docs, normalize_doc, parse_severity, sort_doc, Finding, FindingView, FindingsDocView,
    Severity,
};
use crate::order::{sorted, sorted_props, sorting_keeps_members, Ranked};
use crate::paths::MapperView;
use crate::text::{lex_lt, lex_lt_irreflexive, lex_lt_transitive, lower, trim};

verus! {

/// A list with a fingerprint for everyone, in canonical order: as a reader leaves
/// it.
pub open spec fn finished(findings: Seq<FindingView>) -> Seq<FindingView> {
    sorted::<Finding>(findings.map_values(|f: FindingView| f.fingerprinted()))
}

/// Giving fingerprints and sorting loses no finding, adds none, and leaves
/// everything but a missing fingerprint as it was.
pub proof fn finishing_keeps_every_finding(findings: Seq<FindingView>, i: int) -> (k: int)
    requires
        0 <= i < findings.len(),
    ensures
        finished(findings).len() == findings.len(),
        0 <= k < findings.len(),
        finished(findings)[k] == (FindingView {
            fingerprint: finished(findings)[k].fingerprint,
            ..findings[i]
        }),
        finished(findings)[k].fingerprint is Some,
        findings[i].fingerprint is Some ==> finished(findings)[k].fingerprint
            == findings[i].fingerprint,
{
    let made = findings.map_values(|f: FindingView| f.fingerprinted());
    sorted_props::<Finding>(made);
    assert(made[i] == findings[i].fingerprinted());
    assert(made.contains(made[i]));
    sorting_keeps_members::<Finding>(made, made[i]);
    choose|k: int| 0 <= k < finished(findings).len() && finished(findings)[k] == made[i]
}

/// A finding of the finished list is one of the list.
pub proof fn finished_findings_were_there(findings: Seq<FindingView>, k: int)
    requires
        0 <= k < finished(findings).len(),
    ensures
        exists|i: int|
            0 <= i < findings.len() && (FindingView {
                fingerprint: finished(findings)[k].fingerprint,
                ..#[trigger] findings[i]
            }) == finished(findings)[k],
{
    let made = findings.map_values(|f: FindingView| f.fingerprinted());
    let all = finished(findings);
    assert(all.contains(all[k]));
    sorting_keeps_members::<Finding>(made, all[k]);
    let i = choose|i: int| 0 <= i < made.len() && made[i] == all[k];
    assert(made[i] == findings[i].fingerprinted());
    assert((FindingView { fingerprint: all[k].fingerprint, ..findings[i] }) == all[k]);
}

/// Findings are ordered by path, then line, then rule, then description.
pub proof fn sorted_findings_follow_their_paths(doc: FindingsDocView, i: int, j: int)
    requires
        0 <= i < j < doc.findings.len(),
    ensures
        ({
            let a = sort_doc(doc).findings[i];
            let b = sort_doc(doc).findings[j];
            &&& !lex_lt(b.location.path, a.location.path)
            &&& a.location.path == b.location.path ==> match (
                a.location.begin_line,
                b.location.begin_line,
            ) {
                (Some(x), Some(y)) => x <= y,
                (Some(_), None) => false,
                _ => true,
            }
            &&& a.location.path == b.location.path && a.location.begin_line
                == b.location.begin_line && a.rule_id == b.rule_id ==> !lex_lt(
                b.description,
                a.description,
            )
        }),
{
    sorted_props::<Finding>(doc.findings);
    let all = sort_doc(doc).findings;
    lex_lt_irreflexive(all[i].location.path);
}

/// The words that linters use for a level, whatever their case and the white
/// space around them. Every level has words, and no other word has a level.
pub proof fn words_name_their_level(raw: Seq<char>)
    ensures
        ({
            let word = lower(trim(raw));
            let severity = parse_severity(raw);
            &&& severity == Some(Severity::Blocker) <==> word == "blocker"@ || word == "fatal"@
            &&& severity == Some(Severity::Critical) <==> word == "critical"@
            &&& severity == Some(Severity::Major) <==> word == "major"@ || word == "error"@
                || word == "high"@
            &&& severity == Some(Severity::Minor) <==> word == "minor"@ || word == "warning"@
                || word == "warn"@ || word == "medium"@ || word == "moderate"@
            &&& severity == Some(Severity::Info) <==> word == "info"@ || word == "note"@ || word
                == "notice"@ || word == "ignore"@ || word == "low"@ || word == "informational"@
        }),
{
    reveal_strlit("info");
    reveal_strlit("note");
    reveal_strlit("notice");
    reveal_strlit("ignore");
    reveal_strlit("low");
    reveal_strlit("informational");
    reveal_strlit("minor");
    reveal_strlit("warning");
    reveal_strlit("warn");
    reveal_strlit("medium");
    reveal_strlit("moderate");
    reveal_strlit("major");
    reveal_strlit("error");
    reveal_strlit("high");
    reveal_strlit("critical");
    reveal_strlit("blocker");
    reveal_strlit("fatal");
    assert("info"@[0] == 'i' && "note"@[0] == 'n' && "notice"@[0] == 'n' && "ignore"@[0] == 'i'
        && "low"@[0] == 'l' && "informational"@[0] == 'i');
    assert("minor"@[0] == 'm' && "minor"@[1] == 'i' && "minor"@.len() == 5);
    assert("warning"@[0] == 'w' && "warn"@[0] == 'w');
    assert("medium"@[0] == 'm' && "medium"@.len() == 6);
    assert("moderate"@[0] == 'm' && "moderate"@.len() == 8);
    assert("major"@[0] == 'm' && "major"@[1] == 'a' && "major"@.len() == 5);
    assert("error"@[0] == 'e' && "high"@[0] == 'h' && "critical"@[0] == 'c' && "blocker"@[0] == 'b'
        && "fatal"@[0] == 'f');
}

/// The scan window of a merged report reaches from the earlier start to the later
/// end, as far as either side states them; its tool is the first that is stated.
pub proof fn merged_windows_hold_both(mine: FindingsDocView, theirs: FindingsDocView)
    ensures
        match (mine.scan.start, theirs.scan.start, merge_docs(mine, theirs).scan.start) {
            (Some(a), Some(b), Some(m)) => (m == a || m == b) && !lex_lt(a, m) && !lex_lt(b, m),
            (Some(a), None, m) => m == Some(a),
            (None, b, m) => m == b,
            _ => false,
        },
        match (mine.scan.end, theirs.scan.end, merge_docs(mine, theirs).scan.end) {
            (Some(a), Some(b), Some(m)) => (m == a || m == b) && !lex_lt(m, a) && !lex_lt(m, b),
            (Some(a), None, m) => m == Some(a),
            (None, b, m) => m == b,
            _ => false,
        },
        merge_docs(mine, theirs).tool == match mine.tool {
            Some(t) => Some(t),
            None => theirs.tool,
        },
{
    if let (Some(a), Some(b)) = (mine.scan.start, theirs.scan.start) {
        lex_lt_irreflexive(a);
        lex_lt_irreflexive(b);
        if lex_lt(b, a) && lex_lt(a, b) {
            lex_lt_transitive(a, b, a);
        }
    }
    if let (Some(a), Some(b)) = (mine.scan.end, theirs.scan.end) {
        lex_lt_irreflexive(a);
        lex_lt_irreflexive(b);
        if lex_lt(b, a) && lex_lt(a, b) {
            lex_lt_transitive(a, b, a);
        }
    }
}

/// Rewriting paths rewrites the path of every finding and nothing else of it.
pub proof fn only_paths_are_rewritten(doc: FindingsDocView, mapper: MapperView, i: int)
    requires
        0 <= i < doc.findings.len(),
        !mapper.is_noop(),
    ensures
        normalize_doc(doc, mapper).findings.len() == doc.findings.len(),
        normalize_doc(doc, mapper).findings[i].location.path == mapper.map(
            doc.findings[i].location.path,
        ),
        ({
            let f = normalize_doc(doc, mapper).findings[i];
            &&& f.rule_id == doc.findings[i].rule_id
            &&& f.description == doc.findings[i].description
            &&& f.severity == doc.findings[i].severity
            &&& f.fingerprint == doc.findings[i].fingerprint
            &&& f.location.begin_line == doc.findings[i].location.begin_line
            &&& f.location.end_line == doc.findings[i].location.end_line
        }),
        normalize_doc(doc, mapper).tool == doc.tool,
        normalize_doc(doc, mapper).scan == doc.scan,
{
}

/// Two findings of the same place, rule and text share a fingerprint, and it is
/// one that a finding already has where it has one.
pub proof fn the_same_finding_has_the_same_fingerprint(a: FindingView, b: FindingView)
    requires
        a.fingerprint is None,
        b.fingerprint is None,
        a.component is None,
        b.component is None,
        a.location.path == b.location.path,
        a.rule_id == b.rule_id,
        a.description == b.description,
    ensures
        a.fingerprinted().fingerprint == b.fingerprinted().fingerprint,
        a.fingerprinted().fingerprint == Some(
            fingerprint_of(
                seq![
                    a.location.path,
                    match a.rule_id {
                        Some(id) => id,
                        None => ""@,
                    },
                    a.description,
                ],
            ),
        ),
{
    assert(a.identity_parts() =~= b.identity_parts());
}

/// Findings of one file stand in the order of their lines, those of one line in
/// the order of their rules, and those of one rule in that of what they say; what
/// has no line or no rule comes first.
pub proof fn sorted_findings_follow_their_lines(findings: Seq<FindingView>, i: int, j: int)
    requires
        0 <= i < j < sorted::<Finding>(findings).len(),
    ensures
        ({
            let a = sorted::<Finding>(findings)[i];
            let b = sorted::<Finding>(findings)[j];
            &&& !lex_lt(b.location.path, a.location.path)
            &&& a.location.path == b.location.path ==> match (
                a.location.begin_line,
                b.location.begin_line,
            ) {
                (Some(x), Some(y)) => x <= y,
                (Some(_), None) => false,
                (None, _) => true,
            }
            &&& a.location.path == b.location.path && a.location.begin_line
                == b.location.begin_line ==> match (a.rule_id, b.rule_id) {
                (Some(x), Some(y)) => !lex_lt(y, x),
                (Some(_), None) => false,
                (None, _) => true,
            }
            &&& a.location.path == b.location.path && a.location.begin_line
                == b.location.begin_line && a.rule_id == b.rule_id ==> !lex_lt(
                b.description,
                a.description,
            )
        }),
{
    sorted_props::<Finding>(findings);
    let all = sorted::<Finding>(findings);
    assert(!<Finding as Ranked>::precedes(all[j], all[i]));
    lex_lt_irreflexive(all[i].location.path);
    if let (Some(x), Some(_)) = (all[i].rule_id, all[j].rule_id) {
        lex_lt_irreflexive(x);
    }
}

/// A finding in a component is known by the image or file it is in, the
/// component's name and version, and its rule, or without one what it says.
pub proof fn components_identify_their_findings(f: FindingView)
    requires
        f.fingerprint is None,
        f.component is Some,
    ensures
        f.fingerprinted().fingerprint == Some(fingerprint_of(f.identity_parts())),
        f.identity_parts() == seq![
            match f.location.image {
                Some(image) => image,
                None => f.location.path,
            },
            f.component->0.name,
            match f.component->0.version {
                Some(version) => version,
                None => ""@,
            },
            match f.rule_id {
                Some(id) => id,
                None => f.description,
            },
        ],
{
}

} // verus!
