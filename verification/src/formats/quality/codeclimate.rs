//! Code Climate issue JSON, in two flavours: the full specification, and the
//! strict subset that GitLab's Code Quality report consumes. GitLab ignores
//! everything else and rejects entries without a `fingerprint`.

use vstd::prelude::*;

use crate::error::{parse_error, Error, ErrorView};
use crate::hash::{fingerprint, fingerprint_of};
use crate::json::{
    array_view, decode, decoded, field, json_result, list_of, map_items, maybe, members,
    number_field, text_field, text_items, text_list, Fields, Json, JsonView, Members, Shape,
};
use crate::model::findings::{
    parse_severity, severity_name, sort_doc, Finding, FindingView, FindingsDoc, FindingsDocView,
    Location, LocationView, Severity,
};
use crate::paths::{normalize, normalized};
use crate::registry::{read_result, wrong_kind, Doc, DocView};

use crate::value::{
    any_in, any_value, either, if_any, map_list, non_empty, or_else, or_text, text_or,
};
use crate::warn::{CtxView, FormatCtx};

verus! {

pub const FORMAT: &'static str = "codeclimate";

// ---------------------------------------------------------------------------
// Reading
// ---------------------------------------------------------------------------

#[verifier::allow_in_spec]
pub fn coords_shape() -> Shape
    returns
        maybe(
            Shape::Record(
                number_field("line", 4294967295, number_field("column", 4294967295, Fields::End)),
            ),
        ),
{
    maybe(
        Shape::Record(
            number_field("line", 4294967295, number_field("column", 4294967295, Fields::End)),
        ),
    )
}

#[verifier::allow_in_spec]
pub fn location_shape() -> Shape
    returns
        Shape::Record(
            text_field("path", field(
                "lines",
                maybe(
                    Shape::Record(
                        number_field("begin", 4294967295, number_field(
                            "end",
                            4294967295,
                            Fields::End,
                        )),
                    ),
                ),
                field(
                    "positions",
                    maybe(
                        Shape::Record(
                            field("begin", coords_shape(), field(
                                "end",
                                coords_shape(),
                                Fields::End,
                            )),
                        ),
                    ),
                    Fields::End,
                ),
            )),
        ),
{
    Shape::Record(
        text_field("path", field(
            "lines",
            maybe(
                Shape::Record(
                    number_field("begin", 4294967295, number_field(
                        "end",
                        4294967295,
                        Fields::End,
                    )),
                ),
            ),
            field(
                "positions",
                maybe(
                    Shape::Record(
                        field("begin", coords_shape(), field("end", coords_shape(), Fields::End)),
                    ),
                ),
                Fields::End,
            ),
        )),
    )
}

#[verifier::allow_in_spec]
pub fn report_shape() -> Shape
    returns
        list_of(
            Shape::Record(
                text_field("check_name", text_field("description", field(
                    "content",
                    maybe(Shape::Record(text_field("body", Fields::End))),
                    field("categories", list_of(Shape::Text), field(
                        "location",
                        maybe(location_shape()),
                        text_field("severity", text_field("fingerprint", Fields::End)),
                    )),
                ))),
            ),
        ),
{
    list_of(
        Shape::Record(
            text_field("check_name", text_field("description", field(
                "content",
                maybe(Shape::Record(text_field("body", Fields::End))),
                field("categories", list_of(Shape::Text), field(
                    "location",
                    maybe(location_shape()),
                    text_field("severity", text_field("fingerprint", Fields::End)),
                )),
            ))),
        ),
    )
}

/// Code Climate allows either `lines` or the richer `positions`; the richer one
/// wins.
pub open spec fn location_in(raw: JsonView) -> LocationView {
    let path = match raw.get("path"@).text() {
        Some(p) => normalized(p),
        None => Seq::empty(),
    };
    let positions = raw.get("positions"@);
    let lines = raw.get("lines"@);
    if raw is Null {
        LocationView::empty()
    } else if !(positions is Null) {
        LocationView {
            path,
            begin_line: positions.get("begin"@).get("line"@).number_u32(),
            end_line: positions.get("end"@).get("line"@).number_u32(),
            begin_column: positions.get("begin"@).get("column"@).number_u32(),
            end_column: positions.get("end"@).get("column"@).number_u32(),
            ..LocationView::empty()
        }
    } else {
        LocationView {
            path,
            begin_line: lines.get("begin"@).number_u32(),
            end_line: lines.get("end"@).number_u32(),
            ..LocationView::empty()
        }
    }
}

pub fn location(raw: &Json) -> (r: Location)
    ensures
        r.deep_view() == location_in(raw.deep_view()),
{
    let mut location = Location::default();
    if raw.is_null() {
        return location;
    }
    location.path = match raw.get("path").text() {
        Some(p) => normalize(p.as_str()),
        None => String::new(),
    };
    let positions = raw.get("positions");
    if !positions.is_null() {
        location.begin_line = positions.get("begin").get("line").number_u32();
        location.end_line = positions.get("end").get("line").number_u32();
        location.begin_column = positions.get("begin").get("column").number_u32();
        location.end_column = positions.get("end").get("column").number_u32();
    } else {
        let lines = raw.get("lines");
        location.begin_line = lines.get("begin").number_u32();
        location.end_line = lines.get("end").number_u32();
    }
    location
}

pub open spec fn issue_severity(word: Option<Seq<char>>) -> Severity {
    match word {
        Some(w) => match parse_severity(w) {
            Some(severity) => severity,
            None => Severity::Minor,
        },
        None => Severity::Minor,
    }
}

pub open spec fn issue_finding(issue: JsonView) -> FindingView {
    (FindingView {
        rule_id: non_empty(issue.get("check_name"@).text()),
        categories: issue.get("categories"@).texts(),
        location: location_in(issue.get("location"@)),
        fingerprint: non_empty(issue.get("fingerprint"@).text()),
        ..FindingView::of(
            or_text(
                or_else(
                    issue.get("description"@).text(),
                    issue.get("content"@).get("body"@).text(),
                ),
                "(no description)"@,
            ),
            issue_severity(issue.get("severity"@).text()),
        )
    }).fingerprinted()
}

fn read_severity(word: &Option<String>) -> (r: Severity)
    ensures
        r == issue_severity(word.deep_view()),
{
    if let Some(w) = word {
        if let Some(severity) = Severity::parse(w.as_str()) {
            return severity;
        }
    }
    Severity::Minor
}

fn read_issue(issue: &Json) -> (r: Finding)
    ensures
        r.deep_view() == issue_finding(issue.deep_view()),
{
    let description = either(
        issue.get("description").text(),
        issue.get("content").get("body").text(),
    );
    let mut finding = Finding::new(
        text_or(&description, "(no description)"),
        read_severity(&issue.get("severity").text()),
    );
    finding.rule_id = if_any(issue.get("check_name").text());
    finding.categories = issue.get("categories").texts();
    finding.fingerprint = if_any(issue.get("fingerprint").text());
    finding.location = location(issue.get("location"));
    finding.ensure_fingerprint();
    finding
}

/// The document that reading gives, or the refusal.
pub open spec fn read_spec(json: JsonView) -> Result<DocView, ErrorView> {
    match decoded(json, report_shape()) {
        None => Err(parse_error(FORMAT@, "not the structure of a Code Climate report"@)),
        Some(report) => Ok(
            DocView::Findings(
                sort_doc(
                    FindingsDocView {
                        findings: report.items().map_values(|i: JsonView| issue_finding(i)),
                        ..FindingsDocView::empty()
                    },
                ),
            ),
        ),
    }
}

pub fn read(json: &Json, ctx: &mut FormatCtx) -> (r: Result<Doc, Error>)
    ensures
        read_result(r) == read_spec(json.deep_view()),
        final(ctx)@ == old(ctx)@,
{
    let report = match decode(json, &report_shape()) {
        Some(report) => report,
        None => {
            return Err(Error::parse(FORMAT, "not the structure of a Code Climate report"));
        },
    };
    let mut doc = FindingsDoc::default();
    doc.findings = map_items(
        &report,
        |i: &Json| -> (o: Finding)
            ensures
                o.deep_view() == issue_finding(i.deep_view())
            { read_issue(i) },
        Ghost(|i: JsonView| issue_finding(i)),
    );
    doc.sort();
    Ok(Doc::Findings(doc))
}

// ---------------------------------------------------------------------------
// Writing
// ---------------------------------------------------------------------------

/// An identity for a finding that has none.
pub open spec fn made_fingerprint(finding: FindingView) -> Seq<char> {
    fingerprint_of(
        seq![finding.location.path, or_text(finding.rule_id, ""@), finding.description],
    )
}

pub fn synth_fingerprint(finding: &Finding) -> (r: String)
    ensures
        r@ == made_fingerprint(finding.deep_view()),
{
    let parts = [
        finding.location.path.as_str(),
        text_or(&finding.rule_id, ""),
        finding.description.as_str(),
    ];
    proof {
        assert(parts@.map_values(|p: &str| p@) =~= seq![
            finding.location.path@,
            or_text(finding.rule_id.deep_view(), ""@),
            finding.description@,
        ]);
    }
    fingerprint(&parts)
}

/// GitLab requires a begin line; a finding about a whole file is anchored at
/// line 1 rather than dropped.
pub open spec fn anchor(location: LocationView) -> u32 {
    match location.begin_line {
        Some(line) => line,
        None => 1,
    }
}

pub open spec fn coords_item(line: u32, column: Option<u32>) -> JsonView {
    members().number("line"@, line as nat).opt_number("column"@, column).done()
}

pub open spec fn positions_item(location: LocationView) -> JsonView {
    members().value("begin"@, coords_item(anchor(location), location.begin_column)).opt_value(
        "end"@,
        match location.end_line {
            Some(line) => Some(coords_item(line, location.end_column)),
            None => None,
        },
    ).done()
}

pub open spec fn location_item(location: LocationView, gitlab: bool) -> JsonView {
    members().text("path"@, location.path).value(
        "lines"@,
        members().number("begin"@, anchor(location) as nat).opt_number(
            "end"@,
            if gitlab {
                None
            } else {
                location.end_line
            },
        ).done(),
    ).opt_value(
        "positions"@,
        if gitlab || location.begin_column is None {
            None
        } else {
            Some(positions_item(location))
        },
    ).done()
}

pub open spec fn issue_item(finding: FindingView, gitlab: bool) -> JsonView {
    members().text("type"@, "issue"@).text("check_name"@, or_text(finding.rule_id, "unknown"@)).text(
        "description"@,
        finding.description,
    ).opt_value(
        "content"@,
        if gitlab {
            None
        } else {
            match finding.help {
                Some(body) => Some(members().text("body"@, body).done()),
                None => None,
            }
        },
    ).some_list(
        "categories"@,
        if gitlab {
            Seq::empty()
        } else {
            text_items(finding.categories)
        },
    ).value("location"@, location_item(finding.location, gitlab)).text(
        "severity"@,
        severity_name(finding.severity),
    ).text("fingerprint"@, or_text(finding.fingerprint, made_fingerprint(finding))).done()
}

fn coords_json(line: u32, column: Option<u32>) -> (r: Json)
    ensures
        r.deep_view() == coords_item(line, column),
{
    let mut m = Members::new();
    m.number("line", line as u64);
    m.opt_number("column", column);
    m.done()
}

fn location_json(location: &Location, gitlab: bool) -> (r: Json)
    ensures
        r.deep_view() == location_item(location.deep_view(), gitlab),
{
    let begin: u32 = match location.begin_line {
        Some(line) => line,
        None => 1,
    };
    let mut lines = Members::new();
    lines.number("begin", begin as u64);
    if !gitlab {
        lines.opt_number("end", location.end_line);
    }
    let mut m = Members::new();
    m.text("path", location.path.as_str());
    m.value("lines", lines.done());
    if !gitlab && location.begin_column.is_some() {
        let mut positions = Members::new();
        positions.value("begin", coords_json(begin, location.begin_column));
        if let Some(line) = location.end_line {
            positions.value("end", coords_json(line, location.end_column));
        }
        m.value("positions", positions.done());
    }
    m.done()
}

fn issue_json(finding: &Finding, gitlab: bool) -> (r: Json)
    ensures
        r.deep_view() == issue_item(finding.deep_view(), gitlab),
{
    let mut m = Members::new();
    m.text("type", "issue");
    m.text("check_name", text_or(&finding.rule_id, "unknown"));
    m.text("description", finding.description.as_str());
    if !gitlab {
        if let Some(body) = &finding.help {
            let mut content = Members::new();
            content.text("body", body.as_str());
            m.value("content", content.done());
        }
        m.some_list("categories", text_list(&finding.categories));
    }
    m.value("location", location_json(&finding.location, gitlab));
    m.text("severity", finding.severity.as_str());
    let made = synth_fingerprint(finding);
    m.text("fingerprint", text_or(&finding.fingerprint, made.as_str()));
    m.done()
}

pub open spec fn has_columns(location: LocationView) -> bool {
    location.begin_column is Some || location.end_column is Some
}

/// What the conversion has to admit to.
pub open spec fn notices(doc: FindingsDocView, gitlab: bool, ctx: CtxView) -> CtxView {
    ctx.lossy_if(
        gitlab && any_in(doc.findings, |f: FindingView| f.categories.len() > 0),
        "codeclimate-gitlab: issue categories are not read by GitLab and were dropped"@,
    ).lossy_if(
        gitlab && any_in(doc.findings, |f: FindingView| f.help is Some),
        "codeclimate-gitlab: remediation guidance has no field in the GitLab subset"@,
    ).lossy_if(
        gitlab && any_in(doc.findings, |f: FindingView| has_columns(f.location)),
        "codeclimate-gitlab: column positions are not read by GitLab and were dropped"@,
    ).lossy_if(
        gitlab && any_in(doc.findings, |f: FindingView| f.location.end_line is Some),
        "codeclimate-gitlab: end lines are not read by GitLab and were dropped"@,
    ).lossy_if(
        any_in(doc.findings, |f: FindingView| f.identifiers.len() > 0),
        "codeclimate: security identifiers (CVE/CWE) have no place in a code quality report"@,
    )
}

/// The issues and the notices, or the refusal of a document of another kind.
pub open spec fn written(doc: DocView, gitlab: bool, ctx: CtxView) -> (
    Result<JsonView, ErrorView>,
    CtxView,
) {
    match doc {
        DocView::Findings(doc) => (
            Ok(
                JsonView::Array(
                    doc.findings.map_values(|f: FindingView| issue_item(f, gitlab)),
                ),
            ),
            notices(doc, gitlab, ctx),
        ),
        _ => (Err(wrong_kind("expected a findings report"@)), ctx),
    }
}

fn give_notices(doc: &FindingsDoc, gitlab: bool, ctx: &mut FormatCtx)
    ensures
        final(ctx)@ == notices(doc.deep_view(), gitlab, old(ctx)@),
{
    let categorized = any_value(
        &doc.findings,
        |f: &Finding| -> (o: bool)
            ensures
                o == (f.deep_view().categories.len() > 0)
            { f.categories.len() > 0 },
        Ghost(|f: FindingView| f.categories.len() > 0),
    );
    if gitlab && categorized {
        ctx.lossy("codeclimate-gitlab: issue categories are not read by GitLab and were dropped");
    }
    let helped = any_value(
        &doc.findings,
        |f: &Finding| -> (o: bool)
            ensures
                o == (f.deep_view().help is Some)
            { f.help.is_some() },
        Ghost(|f: FindingView| f.help is Some),
    );
    if gitlab && helped {
        ctx.lossy("codeclimate-gitlab: remediation guidance has no field in the GitLab subset");
    }
    let placed = any_value(
        &doc.findings,
        |f: &Finding| -> (o: bool)
            ensures
                o == has_columns(f.deep_view().location)
            { f.location.begin_column.is_some() || f.location.end_column.is_some() },
        Ghost(|f: FindingView| has_columns(f.location)),
    );
    if gitlab && placed {
        ctx.lossy("codeclimate-gitlab: column positions are not read by GitLab and were dropped");
    }
    let ended = any_value(
        &doc.findings,
        |f: &Finding| -> (o: bool)
            ensures
                o == (f.deep_view().location.end_line is Some)
            { f.location.end_line.is_some() },
        Ghost(|f: FindingView| f.location.end_line is Some),
    );
    if gitlab && ended {
        ctx.lossy("codeclimate-gitlab: end lines are not read by GitLab and were dropped");
    }
    let identified = any_value(
        &doc.findings,
        |f: &Finding| -> (o: bool)
            ensures
                o == (f.deep_view().identifiers.len() > 0)
            { f.identifiers.len() > 0 },
        Ghost(|f: FindingView| f.identifiers.len() > 0),
    );
    if identified {
        ctx.lossy(
            "codeclimate: security identifiers (CVE/CWE) have no place in a code quality report",
        );
    }
}

pub fn emit(doc: &Doc, ctx: &mut FormatCtx, gitlab: bool) -> (r: Result<Json, Error>)
    ensures
        (json_result(r), final(ctx)@) == written(doc.deep_view(), gitlab, old(ctx)@),
{
    let doc = match doc.as_findings() {
        Ok(doc) => doc,
        Err(e) => {
            return Err(e);
        },
    };
    give_notices(doc, gitlab, ctx);
    let issues = map_list(
        &doc.findings,
        |f: &Finding| -> (o: Json)
            ensures
                o.deep_view() == issue_item(f.deep_view(), gitlab)
            { issue_json(f, gitlab) },
        Ghost(|f: FindingView| issue_item(f, gitlab)),
    );
    proof {
        array_view(issues);
    }
    Ok(Json::Array(issues))
}

/// Full Code Climate output: keeps categories, remediation content and columns.
pub fn write_full(doc: &Doc, ctx: &mut FormatCtx) -> (r: Result<Json, Error>)
    ensures
        (json_result(r), final(ctx)@) == written(doc.deep_view(), false, old(ctx)@),
{
    emit(doc, ctx, false)
}

/// GitLab Code Quality output: the strict subset GitLab reads. Anything else is
/// dropped rather than emitted and ignored, and the loss is reported.
pub fn write_gitlab(doc: &Doc, ctx: &mut FormatCtx) -> (r: Result<Json, Error>)
    ensures
        (json_result(r), final(ctx)@) == written(doc.deep_view(), true, old(ctx)@),
{
    emit(doc, ctx, true)
}

} // verus!
