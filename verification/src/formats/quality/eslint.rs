//! ESLint's `json` formatter output.
//!
//! ESLint's own `checkstyle` formatter flattens away end positions and cannot
//! express a fatal parse error as anything but another error. Reading the
//! native output keeps both.

use vstd::prelude::*;

use crate::error::{parse_error, Error, ErrorView};
use crate::json::{
    decode, decoded, field, list_of, map_items, maybe, number_field, text_field, Fields, Json,
    JsonView, Shape,
};
use crate::model::findings::{
    sort_doc, Finding, FindingView, FindingsDoc, FindingsDocView, Location, LocationView, Severity,
    Tool, ToolView,
};
use crate::paths::{normalize, normalized};
use crate::registry::{read_result, Doc, DocView};
use crate::text::{concat3, decimal, number_wide, owned};
use crate::value::{
    any_in, append_all, either, empty_list, flat, if_any, non_empty, or_else, or_text, text_or,
};
use crate::warn::{CtxView, FormatCtx};

verus! {

pub const FORMAT: &'static str = "eslint";

#[verifier::allow_in_spec]
pub fn message_shape() -> Shape
    returns
        Shape::Record(
            text_field("ruleId", number_field("severity", 255, text_field("message", field(
                "fatal",
                maybe(Shape::Flag),
                number_field("line", 4294967295, number_field(
                    "column",
                    4294967295,
                    number_field("endLine", 4294967295, number_field(
                        "endColumn",
                        4294967295,
                        field("fix", maybe(Shape::Any), field(
                            "suggestions",
                            list_of(Shape::Any),
                            Fields::End,
                        )),
                    )),
                )),
            )))),
        ),
{
    Shape::Record(
        text_field("ruleId", number_field("severity", 255, text_field("message", field(
            "fatal",
            maybe(Shape::Flag),
            number_field("line", 4294967295, number_field(
                "column",
                4294967295,
                number_field("endLine", 4294967295, number_field(
                    "endColumn",
                    4294967295,
                    field("fix", maybe(Shape::Any), field(
                        "suggestions",
                        list_of(Shape::Any),
                        Fields::End,
                    )),
                )),
            )),
        )))),
    )
}

#[verifier::allow_in_spec]
pub fn report_shape() -> Shape
    returns
        list_of(
            Shape::Record(
                text_field("filePath", field("messages", list_of(message_shape()), field(
                    "suppressedMessages",
                    list_of(message_shape()),
                    Fields::End,
                ))),
            ),
        ),
{
    list_of(
        Shape::Record(
            text_field("filePath", field("messages", list_of(message_shape()), field(
                "suppressedMessages",
                list_of(message_shape()),
                Fields::End,
            ))),
        ),
    )
}

pub open spec fn is_fatal(message: JsonView) -> bool {
    message.get("fatal"@).flag() == Some(true)
}

/// A fatal message is a parse failure: the file was not linted at all, so it
/// outranks any rule violation.
pub open spec fn message_severity(message: JsonView) -> Severity {
    if is_fatal(message) {
        Severity::Critical
    } else if message.get("severity"@).number_u32() == Some(2u32) {
        Severity::Major
    } else if message.get("severity"@).number_u32() == Some(1u32) {
        Severity::Minor
    } else {
        Severity::Info
    }
}

pub fn severity_of(message: &Json) -> (r: Severity)
    ensures
        r == message_severity(message.deep_view()),
{
    if message.get("fatal").flag() == Some(true) {
        return Severity::Critical;
    }
    match message.get("severity").number_u32() {
        Some(n) => if n == 2 {
            Severity::Major
        } else if n == 1 {
            Severity::Minor
        } else {
            Severity::Info
        },
        None => Severity::Info,
    }
}

/// A fatal message has no rule to blame, so it says what happened instead.
pub open spec fn message_rule(message: JsonView) -> Option<Seq<char>> {
    let own = non_empty(message.get("ruleId"@).text());
    if own is None && is_fatal(message) {
        Some("fatal-parse-error"@)
    } else {
        own
    }
}

pub open spec fn message_finding(message: JsonView, path: Seq<char>) -> FindingView {
    (FindingView {
        rule_id: message_rule(message),
        location: LocationView {
            path,
            begin_line: message.get("line"@).number_u32(),
            end_line: or_else(
                message.get("endLine"@).number_u32(),
                message.get("line"@).number_u32(),
            ),
            begin_column: message.get("column"@).number_u32(),
            end_column: message.get("endColumn"@).number_u32(),
            ..LocationView::empty()
        },
        ..FindingView::of(
            or_text(message.get("message"@).text(), "(no message)"@),
            message_severity(message),
        )
    }).fingerprinted()
}

fn read_message(message: &Json, path: &str) -> (r: Finding)
    ensures
        r.deep_view() == message_finding(message.deep_view(), path@),
{
    let text = message.get("message").text();
    let mut finding = Finding::new(text_or(&text, "(no message)"), severity_of(message));
    let own = if_any(message.get("ruleId").text());
    finding.rule_id = if own.is_none() && message.get("fatal").flag() == Some(true) {
        Some(owned("fatal-parse-error"))
    } else {
        own
    };
    let mut location = Location::default();
    location.path = owned(path);
    location.begin_line = message.get("line").number_u32();
    location.end_line = either(
        message.get("endLine").number_u32(),
        message.get("line").number_u32(),
    );
    location.begin_column = message.get("column").number_u32();
    location.end_column = message.get("endColumn").number_u32();
    finding.location = location;
    finding.ensure_fingerprint();
    finding
}

pub open spec fn file_findings(file: JsonView) -> Seq<FindingView> {
    let path = match file.get("filePath"@).text() {
        Some(p) => normalized(p),
        None => Seq::empty(),
    };
    file.get("messages"@).items().map_values(|m: JsonView| message_finding(m, path))
}

fn read_file(file: &Json) -> (r: Vec<Finding>)
    ensures
        r.deep_view() == file_findings(file.deep_view()),
{
    let path = match file.get("filePath").text() {
        Some(p) => normalize(p.as_str()),
        None => String::new(),
    };
    let ghost place = path@;
    let r = map_items(
        file.get("messages"),
        |m: &Json| -> (o: Finding)
            ensures
                o.deep_view() == message_finding(m.deep_view(), path@)
            { read_message(m, path.as_str()) },
        Ghost(|m: JsonView| message_finding(m, place)),
    );
    assert(r.deep_view() =~= file_findings(file.deep_view()));
    r
}

/// The number of messages that an inline directive silenced.
pub open spec fn suppressed_count(files: Seq<JsonView>) -> nat
    decreases files.len(),
{
    if files.len() == 0 {
        0
    } else {
        suppressed_count(files.drop_last()) + files.last().get("suppressedMessages"@).items().len()
    }
}

pub open spec fn offers_fix(message: JsonView) -> bool {
    !(message.get("fix"@) is Null) || message.get("suggestions"@).items().len() > 0
}

pub open spec fn file_offers_fix(file: JsonView) -> bool {
    any_in(file.get("messages"@).items(), |m: JsonView| offers_fix(m))
}

fn has_fix(file: &Json) -> (r: bool)
    ensures
        r == file_offers_fix(file.deep_view()),
{
    let messages = file.get("messages");
    let ghost all = messages.deep_view().items();
    let mut i: usize = 0;
    while i < messages.count()
        invariant
            i <= all.len(),
            all == messages.deep_view().items(),
            all == file.deep_view().get("messages"@).items(),
            forall|j: int| 0 <= j < i ==> !offers_fix(#[trigger] all[j]),
        decreases all.len() - i,
    {
        let message = messages.item(i);
        let found = !message.get("fix").is_null() || message.get("suggestions").count() > 0;
        assert(found == offers_fix(all[i as int]));
        if found {
            return true;
        }
        i = i + 1;
    }
    false
}

pub open spec fn eslint_tool() -> ToolView {
    ToolView { name: "eslint"@, version: None, url: Some("https://eslint.org"@) }
}

/// The document and notices that reading gives, or the refusal. `filePath` is
/// what makes an array of objects ESLint's.
pub open spec fn read_spec(json: JsonView, ctx: CtxView) -> (
    Result<DocView, ErrorView>,
    CtxView,
) {
    match decoded(json, report_shape()) {
        None => (Err(parse_error(FORMAT@, "not the structure of ESLint's json output"@)), ctx),
        Some(report) => {
            let files = report.items();
            if !any_in(files, |f: JsonView| f.get("filePath"@).text() is Some) {
                (
                    Err(
                        parse_error(
                            FORMAT@,
                            "no entry carries a `filePath` — this does not look like ESLint's json output"@,
                        ),
                    ),
                    ctx,
                )
            } else {
                (
                    Ok(
                        DocView::Findings(
                            sort_doc(
                                FindingsDocView {
                                    tool: Some(eslint_tool()),
                                    findings: flat(files, |f: JsonView| file_findings(f)),
                                    ..FindingsDocView::empty()
                                },
                            ),
                        ),
                    ),
                    ctx.lossy_if(
                        suppressed_count(files) > 0,
                        "eslint: "@ + decimal(suppressed_count(files))
                            + " message(s) suppressed by an inline directive were not carried over"@,
                    ).lossy_if(
                        any_in(files, |f: JsonView| file_offers_fix(f)),
                        "eslint: autofixes and suggestions have no equivalent in the findings model"@,
                    ),
                )
            }
        },
    }
}

pub fn read(json: &Json, ctx: &mut FormatCtx) -> (r: Result<Doc, Error>)
    ensures
        (read_result(r), final(ctx)@) == read_spec(json.deep_view(), old(ctx)@),
{
    let report = match decode(json, &report_shape()) {
        Some(report) => report,
        None => {
            return Err(Error::parse(FORMAT, "not the structure of ESLint's json output"));
        },
    };
    let ghost files = report.deep_view().items();
    let mut findings: Vec<Finding> = empty_list();
    let mut named = false;
    let mut fixes = false;
    let mut suppressed: u128 = 0;
    let mut i: usize = 0;
    assert(files.take(0) =~= Seq::empty());
    while i < report.count()
        invariant
            i <= files.len(),
            files == report.deep_view().items(),
            findings.deep_view() == flat(files.take(i as int), |f: JsonView| file_findings(f)),
            suppressed == suppressed_count(files.take(i as int)),
            suppressed <= i * 18446744073709551615,
            named == (exists|j: int|
                0 <= j < i && (#[trigger] files[j]).get("filePath"@).text() is Some),
            fixes == (exists|j: int| 0 <= j < i && file_offers_fix(#[trigger] files[j])),
        decreases files.len() - i,
    {
        assert(files.take(i as int + 1).drop_last() =~= files.take(i as int));
        let file = report.item(i);
        assert(file.deep_view() == files[i as int]);
        let has_path = file.get("filePath").text().is_some();
        let has_fixes = has_fix(file);
        named = named || has_path;
        fixes = fixes || has_fixes;
        suppressed = suppressed + file.get("suppressedMessages").count() as u128;
        append_all(&mut findings, read_file(file));
        i = i + 1;
    }
    assert(files.take(i as int) =~= files);
    if !named {
        return Err(
            Error::parse(
                FORMAT,
                "no entry carries a `filePath` — this does not look like ESLint's json output",
            ),
        );
    }
    if suppressed > 0 {
        ctx.lossy(
            concat3(
                "eslint: ",
                number_wide(suppressed).as_str(),
                " message(s) suppressed by an inline directive were not carried over",
            ).as_str(),
        );
    }
    if fixes {
        ctx.lossy("eslint: autofixes and suggestions have no equivalent in the findings model");
    }
    let mut doc = FindingsDoc::default();
    doc.tool = Some(
        Tool { name: owned("eslint"), version: None, url: Some(owned("https://eslint.org")) },
    );
    doc.findings = findings;
    doc.sort();
    Ok(Doc::Findings(doc))
}

} // verus!
