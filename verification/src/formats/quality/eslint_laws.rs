//! What reading ESLint's output promises.

use vstd::prelude::*;

use crate::formats::quality::eslint::{file_findings, read_spec, report_shape};
use crate::json::{decoded, JsonView};
use crate::model::findings::{Finding, Severity};
use crate::order::{sorted_props, sorting_keeps_members};
use crate::paths::normalized;
use crate::registry::DocView;
use crate::value::{flat, parts_are_in_the_whole};
use crate::warn::CtxView;

verus! {

/// Every message becomes a finding of its file. A fatal message is critical and
/// has a rule even where it names none; an error is major, a warning minor, and
/// anything else information. Where it ends is where it begins, unless it says
/// otherwise.
pub proof fn messages_become_findings(json: JsonView, ctx: CtxView, i: int, j: int)
    requires
        decoded(json, report_shape()) is Some,
        read_spec(json, ctx).0 is Ok,
        0 <= i < decoded(json, report_shape())->0.items().len(),
        0 <= j < decoded(json, report_shape())->0.items()[i].get("messages"@).items().len(),
    ensures
        match read_spec(json, ctx).0 {
            Ok(DocView::Findings(doc)) => {
                let file = decoded(json, report_shape())->0.items()[i];
                let message = file.get("messages"@).items()[j];
                let fatal = message.get("fatal"@).flag() == Some(true);
                let rank = message.get("severity"@).number_u32();
                exists|k: int|
                    0 <= k < doc.findings.len() && {
                        let f = #[trigger] doc.findings[k];
                        &&& f.location.path == match file.get("filePath"@).text() {
                            Some(path) => normalized(path),
                            None => Seq::empty(),
                        }
                        &&& fatal ==> f.severity == Severity::Critical
                        &&& !fatal && rank == Some(2u32) ==> f.severity == Severity::Major
                        &&& !fatal && rank == Some(1u32) ==> f.severity == Severity::Minor
                        &&& !fatal && rank != Some(1u32) && rank != Some(2u32) ==> f.severity
                            == Severity::Info
                        &&& f.description == match message.get("message"@).text() {
                            Some(text) => text,
                            None => "(no message)"@,
                        }
                        &&& match message.get("ruleId"@).text() {
                            Some(rule) => rule.len() > 0 ==> f.rule_id == Some(rule),
                            None => f.rule_id == if fatal {
                                Some("fatal-parse-error"@)
                            } else {
                                None
                            },
                        }
                        &&& f.location.begin_line == message.get("line"@).number_u32()
                        &&& f.location.end_line == match message.get("endLine"@).number_u32() {
                            Some(line) => Some(line),
                            None => message.get("line"@).number_u32(),
                        }
                        &&& f.location.begin_column == message.get("column"@).number_u32()
                        &&& f.location.end_column == message.get("endColumn"@).number_u32()
                        &&& f.fingerprint is Some
                    }
            },
            _ => false,
        },
{
    let files = decoded(json, report_shape())->0.items();
    let read = |f: JsonView| file_findings(f);
    let made = flat(files, read);
    parts_are_in_the_whole(files, read, i, j);
    let f = file_findings(files[i])[j];
    assert(read(files[i])[j] == f);
    sorting_keeps_members::<Finding>(made, f);
    let doc = read_spec(json, ctx).0->Ok_0->Findings_0;
    let k = choose|k: int| 0 <= k < doc.findings.len() && doc.findings[k] == f;
    assert(doc.findings[k].location.path == f.location.path);
}

/// How many messages the files hold.
pub open spec fn message_count(files: Seq<JsonView>) -> nat
    decreases files.len(),
{
    if files.len() == 0 {
        0
    } else {
        message_count(files.drop_last()) + files.last().get("messages"@).items().len()
    }
}

proof fn files_have_their_findings(files: Seq<JsonView>)
    ensures
        flat(files, |f: JsonView| file_findings(f)).len() == message_count(files),
    decreases files.len(),
{
    if files.len() > 0 {
        files_have_their_findings(files.drop_last());
    }
}

/// There are as many findings as messages; what an inline directive silenced is
/// none of them.
pub proof fn every_message_is_one_finding(json: JsonView, ctx: CtxView)
    ensures
        match (decoded(json, report_shape()), read_spec(json, ctx).0) {
            (Some(report), Ok(DocView::Findings(doc))) => doc.findings.len() == message_count(
                report.items(),
            ) && (doc.tool matches Some(tool) && tool.name == "eslint"@),
            (_, Ok(_)) => false,
            _ => true,
        },
{
    if let (Some(report), Ok(_)) = (decoded(json, report_shape()), read_spec(json, ctx).0) {
        files_have_their_findings(report.items());
        sorted_props::<Finding>(flat(report.items(), |f: JsonView| file_findings(f)));
    }
}

} // verus!
