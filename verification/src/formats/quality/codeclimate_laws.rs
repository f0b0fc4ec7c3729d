//! What reading and writing a Code Climate report promises.

use vstd::prelude::*;

use crate::formats::quality::codeclimate::{
    issue_finding, issue_item, location_item, made_fingerprint, read_spec, report_shape,
};
use crate::hash::fingerprint_of;
use crate::json::{decoded, members, text_items, JsonView};
use crate::model::findings::{parse_severity, Finding, FindingView, LocationView, Severity};
use crate::order::{sorted_props, sorting_keeps_members};
use crate::paths::normalized;
use crate::registry::DocView;
use crate::text::decimal;
use crate::value::or_text;

verus! {

/// Whether a finding is where an issue says: at the normalized path, between the
/// positions, or without those between the lines.
pub open spec fn is_where(l: LocationView, raw: JsonView) -> bool {
    &&& l.path == match raw.get("path"@).text() {
        Some(path) => normalized(path),
        None => Seq::empty(),
    }
    &&& if raw.get("positions"@) is Null {
        &&& l.begin_line == raw.get("lines"@).get("begin"@).number_u32()
        &&& l.end_line == raw.get("lines"@).get("end"@).number_u32()
        &&& l.begin_column is None
        &&& l.end_column is None
    } else {
        let begin = raw.get("positions"@).get("begin"@);
        let end = raw.get("positions"@).get("end"@);
        &&& l.begin_line == begin.get("line"@).number_u32()
        &&& l.end_line == end.get("line"@).number_u32()
        &&& l.begin_column == begin.get("column"@).number_u32()
        &&& l.end_column == end.get("column"@).number_u32()
    }
}

/// Whether a finding says what an issue does: its check, its description, or
/// without one its content, its severity, which is minor where it is none that is
/// known, its categories, its place and its fingerprint.
pub open spec fn says(f: FindingView, issue: JsonView) -> bool {
    &&& f.rule_id == match issue.get("check_name"@).text() {
        Some(name) => if name.len() > 0 {
            Some(name)
        } else {
            None
        },
        None => None,
    }
    &&& f.description == match (
        issue.get("description"@).text(),
        issue.get("content"@).get("body"@).text(),
    ) {
        (Some(text), _) => text,
        (None, Some(body)) => body,
        (None, None) => "(no description)"@,
    }
    &&& f.severity == match issue.get("severity"@).text() {
        Some(word) => match parse_severity(word) {
            Some(severity) => severity,
            None => Severity::Minor,
        },
        None => Severity::Minor,
    }
    &&& f.categories == issue.get("categories"@).texts()
    &&& is_where(f.location, issue.get("location"@))
    &&& (issue.get("fingerprint"@).text() matches Some(print) ==> print.len() > 0
        ==> f.fingerprint == Some(print))
    &&& f.fingerprint is Some
}

/// Every issue becomes one finding that says what it does.
pub proof fn issues_become_findings(json: JsonView, i: int)
    requires
        decoded(json, report_shape()) is Some,
        0 <= i < decoded(json, report_shape())->0.items().len(),
    ensures
        match read_spec(json) {
            Ok(DocView::Findings(doc)) => {
                let issues = decoded(json, report_shape())->0.items();
                &&& doc.findings.len() == issues.len()
                &&& exists|k: int|
                    0 <= k < doc.findings.len() && #[trigger] says(doc.findings[k], issues[i])
            },
            _ => false,
        },
{
    let issues = decoded(json, report_shape())->0.items();
    let made = issues.map_values(|i: JsonView| issue_finding(i));
    let f = issue_finding(issues[i]);
    assert(made[i] == f);
    assert(made.contains(f));
    sorting_keeps_members::<Finding>(made, f);
    sorted_props::<Finding>(made);
    let doc = read_spec(json)->Ok_0->Findings_0;
    let k = choose|k: int| 0 <= k < doc.findings.len() && doc.findings[k] == f;
    let raw = issues[i].get("location"@);
    if raw is Null {
        assert(raw.get("path"@) is Null && raw.get("positions"@) is Null);
        assert(raw.get("lines"@) is Null);
        assert(raw.get("lines"@).get("begin"@) is Null && raw.get("lines"@).get("end"@) is Null);
    }
    assert(says(doc.findings[k], issues[i]));
}

/// An issue is written with its check, its description, its severity and its
/// fingerprint, which is made up where the finding has none. The full form also
/// has the categories and the guidance; the one for GitLab has neither.
pub proof fn issues_are_written_whole(f: FindingView, gitlab: bool)
    ensures
        ({
            let list = issue_item(f, gitlab).members();
            &&& list.contains(("type"@, JsonView::Text("issue"@)))
            &&& list.contains(
                (
                    "check_name"@,
                    JsonView::Text(
                        match f.rule_id {
                            Some(rule) => rule,
                            None => "unknown"@,
                        },
                    ),
                ),
            )
            &&& list.contains(("description"@, JsonView::Text(f.description)))
            &&& list.contains(("location"@, location_item(f.location, gitlab)))
            &&& list.contains(
                (
                    "severity"@,
                    JsonView::Text(
                        match f.severity {
                            Severity::Info => "info"@,
                            Severity::Minor => "minor"@,
                            Severity::Major => "major"@,
                            Severity::Critical => "critical"@,
                            Severity::Blocker => "blocker"@,
                        },
                    ),
                ),
            )
            &&& list.contains(
                (
                    "fingerprint"@,
                    JsonView::Text(
                        match f.fingerprint {
                            Some(print) => print,
                            None => made_fingerprint(f),
                        },
                    ),
                ),
            )
            &&& !gitlab && f.categories.len() > 0 ==> list.contains(
                ("categories"@, JsonView::Array(text_items(f.categories))),
            )
            &&& !gitlab ==> (f.help matches Some(body) ==> list.contains(
                ("content"@, members().text("body"@, body).done()),
            ))
            &&& gitlab ==> list.len() == 6
        }),
{
    let list = issue_item(f, gitlab).members();
    assert(list[0].0 == "type"@ && list[1].0 == "check_name"@ && list[2].0 == "description"@);
    let mut n: int = 3;
    if !gitlab && f.help is Some {
        assert(list[n].0 == "content"@);
        n = n + 1;
    }
    if !gitlab && f.categories.len() > 0 {
        assert(text_items(f.categories).len() > 0);
        assert(list[n].0 == "categories"@);
        n = n + 1;
    }
    assert(list[n].0 == "location"@ && list[n + 1].0 == "severity"@);
    assert(list[n + 2].0 == "fingerprint"@);
}

/// A place is written with its path and its first line, which is the first of the
/// file where none is known. The full form also has the last line and, where a
/// column is known, the positions.
pub proof fn places_are_written_whole(l: LocationView, gitlab: bool)
    ensures
        ({
            let list = location_item(l, gitlab).members();
            let first = match l.begin_line {
                Some(line) => decimal(line as nat),
                None => decimal(1),
            };
            let begin = ("begin"@, JsonView::Number(first));
            &&& list.contains(("path"@, JsonView::Text(l.path)))
            &&& list[1].0 == "lines"@
            &&& list[1].1.members().contains(begin)
            &&& gitlab ==> list.len() == 2 && list[1].1.members().len() == 1
            &&& !gitlab ==> (l.end_line matches Some(line) ==> list[1].1.members().contains(
                ("end"@, JsonView::Number(decimal(line as nat))),
            ))
            &&& !gitlab && l.begin_column is Some ==> list.len() == 3 && list[2].0 == "positions"@
        }),
{
    let list = location_item(l, gitlab).members();
    assert(list[0].0 == "path"@);
    let lines = list[1].1.members();
    assert(lines[0].0 == "begin"@);
    if !gitlab && l.end_line is Some {
        assert(lines[1].0 == "end"@);
    }
}

/// A fingerprint that is made up is that of the path, the rule and the description.
pub proof fn made_up_fingerprints_are_of_the_finding(f: FindingView, parts: Seq<Seq<char>>)
    requires
        parts.len() == 3,
        parts[0] == f.location.path,
        parts[1] == match f.rule_id {
            Some(rule) => rule,
            None => ""@,
        },
        parts[2] == f.description,
    ensures
        made_fingerprint(f) == fingerprint_of(parts),
{
    assert(seq![f.location.path, or_text(f.rule_id, ""@), f.description] =~= parts);
}

} // verus!
