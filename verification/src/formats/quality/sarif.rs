//! SARIF 2.1.0, the OASIS standard behind GitHub code scanning.
//!
//! Only the subset that survives a projection onto the findings model is read:
//! `runs[].results[]` with their rule metadata and first physical location.
//! Code flows, related locations, fixes and taxonomies have no counterpart and are
//! reported as losses.
//!
//! Writing rebuilds `tool.driver.rules[]` from the findings, one entry per rule
//! id (see [`RuleTable`]).

use vstd::prelude::*;

use crate::error::{parse_error, Error, ErrorView};
use crate::json::{
    decode, decoded, dict_of, field, filter_map_items, json_result, list_of, map_items, maybe,
    members, number_field, text_field, text_items, text_list, Fields, Json, JsonView, Members,
    Shape,
};
use crate::model::findings::{
    fingerprint_all, sort_doc, Finding, FindingView, FindingsDoc, FindingsDocView, Identifier,
    IdentifierView, Location, LocationView, ScanWindow, ScanWindowView, Severity, Tool, ToolView,
};
use crate::paths::{normalize, normalized};
use crate::registry::{read_result, wrong_kind, Doc, DocView};
use crate::text::{
    begins, byte_prefix, byte_prefix_of, chars, concat3, concat5, less, lex_lt, lower, owned, rcut,
    rsplit_once, same, same_ignoring_case, slice, starts_with, strip_prefix, to_lower, to_upper,
    trim, trimmed, uppercase, without_prefix,
};
use crate::value::{
    any_in, any_value, append_all, append_one, either, empty_list, filter_map_list, filter_mapped,
    if_any, index_in, index_in_props, map_list, non_empty, or_else, or_text, text_or, Value,
};
use crate::warn::{CtxView, FormatCtx};

verus! {

pub const FORMAT: &'static str = "sarif";

/// The only major version this reader understands. SARIF 1.x is a different
/// document shape, not an older version of this one.
pub const SUPPORTED_MAJOR: &'static str = "2.";

// ---------------------------------------------------------------------------
// The shape of a log
// ---------------------------------------------------------------------------

#[verifier::allow_in_spec]
pub fn message_shape() -> Shape
    returns
        maybe(Shape::Record(text_field("text", text_field("markdown", Fields::End)))),
{
    maybe(Shape::Record(text_field("text", text_field("markdown", Fields::End))))
}

#[verifier::allow_in_spec]
pub fn invocation_shape() -> Shape
    returns
        Shape::Record(text_field("startTimeUtc", text_field("endTimeUtc", Fields::End))),
{
    Shape::Record(text_field("startTimeUtc", text_field("endTimeUtc", Fields::End)))
}

#[verifier::allow_in_spec]
pub fn properties_shape() -> Shape
    returns
        Shape::Record(
            field(
                "tags",
                list_of(Shape::Text),
                field("security-severity", maybe(Shape::Any), Fields::End),
            ),
        ),
{
    Shape::Record(
        field(
            "tags",
            list_of(Shape::Text),
            field("security-severity", maybe(Shape::Any), Fields::End),
        ),
    )
}

#[verifier::allow_in_spec]
pub fn rule_shape() -> Shape
    returns
        Shape::Record(
            text_field(
                "id",
                text_field(
                    "name",
                    field(
                        "shortDescription",
                        message_shape(),
                        field(
                            "fullDescription",
                            message_shape(),
                            field(
                                "help",
                                message_shape(),
                                text_field(
                                    "helpUri",
                                    field(
                                        "defaultConfiguration",
                                        maybe(Shape::Record(text_field("level", Fields::End))),
                                        field("properties", maybe(properties_shape()), Fields::End),
                                    ),
                                ),
                            ),
                        ),
                    ),
                ),
            ),
        ),
{
    Shape::Record(
        text_field(
            "id",
            text_field(
                "name",
                field(
                    "shortDescription",
                    message_shape(),
                    field(
                        "fullDescription",
                        message_shape(),
                        field(
                            "help",
                            message_shape(),
                            text_field(
                                "helpUri",
                                field(
                                    "defaultConfiguration",
                                    maybe(Shape::Record(text_field("level", Fields::End))),
                                    field("properties", maybe(properties_shape()), Fields::End),
                                ),
                            ),
                        ),
                    ),
                ),
            ),
        ),
    )
}

#[verifier::allow_in_spec]
pub fn tool_shape() -> Shape
    returns
        Shape::Record(
            field(
                "driver",
                maybe(
                    Shape::Record(
                        text_field(
                            "name",
                            text_field(
                                "version",
                                text_field(
                                    "semanticVersion",
                                    text_field(
                                        "informationUri",
                                        field("rules", list_of(rule_shape()), Fields::End),
                                    ),
                                ),
                            ),
                        ),
                    ),
                ),
                Fields::End,
            ),
        ),
{
    Shape::Record(
        field(
            "driver",
            maybe(
                Shape::Record(
                    text_field(
                        "name",
                        text_field(
                            "version",
                            text_field(
                                "semanticVersion",
                                text_field(
                                    "informationUri",
                                    field("rules", list_of(rule_shape()), Fields::End),
                                ),
                            ),
                        ),
                    ),
                ),
            ),
            Fields::End,
        ),
    )
}

#[verifier::allow_in_spec]
pub fn region_shape() -> Shape
    returns
        Shape::Record(
            number_field(
                "startLine",
                4294967295,
                number_field(
                    "endLine",
                    4294967295,
                    number_field(
                        "startColumn",
                        4294967295,
                        number_field("endColumn", 4294967295, Fields::End),
                    ),
                ),
            ),
        ),
{
    Shape::Record(
        number_field(
            "startLine",
            4294967295,
            number_field(
                "endLine",
                4294967295,
                number_field(
                    "startColumn",
                    4294967295,
                    number_field("endColumn", 4294967295, Fields::End),
                ),
            ),
        ),
    )
}

#[verifier::allow_in_spec]
pub fn location_shape() -> Shape
    returns
        Shape::Record(
            field(
                "physicalLocation",
                maybe(
                    Shape::Record(
                        field(
                            "artifactLocation",
                            maybe(Shape::Record(text_field("uri", Fields::End))),
                            field("region", maybe(region_shape()), Fields::End),
                        ),
                    ),
                ),
                Fields::End,
            ),
        ),
{
    Shape::Record(
        field(
            "physicalLocation",
            maybe(
                Shape::Record(
                    field(
                        "artifactLocation",
                        maybe(Shape::Record(text_field("uri", Fields::End))),
                        field("region", maybe(region_shape()), Fields::End),
                    ),
                ),
            ),
            Fields::End,
        ),
    )
}

#[verifier::allow_in_spec]
pub fn result_shape() -> Shape
    returns
        Shape::Record(
            text_field(
                "ruleId",
                number_field(
                    "ruleIndex",
                    18446744073709551615,
                    text_field(
                        "level",
                        field(
                            "message",
                            message_shape(),
                            field(
                                "locations",
                                list_of(location_shape()),
                                field(
                                    "relatedLocations",
                                    list_of(location_shape()),
                                    field(
                                        "codeFlows",
                                        list_of(Shape::Any),
                                        field(
                                            "fingerprints",
                                            dict_of(Shape::Text),
                                            field(
                                                "partialFingerprints",
                                                dict_of(Shape::Text),
                                                field("fixes", Shape::Any, Fields::End),
                                            ),
                                        ),
                                    ),
                                ),
                            ),
                        ),
                    ),
                ),
            ),
        ),
{
    Shape::Record(
        text_field(
            "ruleId",
            number_field(
                "ruleIndex",
                18446744073709551615,
                text_field(
                    "level",
                    field(
                        "message",
                        message_shape(),
                        field(
                            "locations",
                            list_of(location_shape()),
                            field(
                                "relatedLocations",
                                list_of(location_shape()),
                                field(
                                    "codeFlows",
                                    list_of(Shape::Any),
                                    field(
                                        "fingerprints",
                                        dict_of(Shape::Text),
                                        field(
                                            "partialFingerprints",
                                            dict_of(Shape::Text),
                                            field("fixes", Shape::Any, Fields::End),
                                        ),
                                    ),
                                ),
                            ),
                        ),
                    ),
                ),
            ),
        ),
    )
}

#[verifier::allow_in_spec]
pub fn log_shape() -> Shape
    returns
        Shape::Record(
            text_field(
                "version",
                field(
                    "runs",
                    list_of(
                        Shape::Record(
                            field(
                                "tool",
                                maybe(tool_shape()),
                                field(
                                    "invocations",
                                    list_of(invocation_shape()),
                                    field(
                                        "results",
                                        list_of(result_shape()),
                                        field("taxonomies", Shape::Any, Fields::End),
                                    ),
                                ),
                            ),
                        ),
                    ),
                    Fields::End,
                ),
            ),
        ),
{
    Shape::Record(
        text_field(
            "version",
            field(
                "runs",
                list_of(
                    Shape::Record(
                        field(
                            "tool",
                            maybe(tool_shape()),
                            field(
                                "invocations",
                                list_of(invocation_shape()),
                                field(
                                    "results",
                                    list_of(result_shape()),
                                    field("taxonomies", Shape::Any, Fields::End),
                                ),
                            ),
                        ),
                    ),
                ),
                Fields::End,
            ),
        ),
    )
}

// ---------------------------------------------------------------------------
// Version and time
// ---------------------------------------------------------------------------

/// The notices after the declared version was looked at, or its refusal.
pub open spec fn version_checked(declared: Option<Seq<char>>, ctx: CtxView) -> Result<
    CtxView,
    ErrorView,
> {
    let version = match declared {
        Some(v) => non_empty(Some(trim(v))),
        None => None,
    };
    match version {
        None => Ok(ctx),
        Some(v) => if !starts_with(v, SUPPORTED_MAJOR@) {
            Err(
                parse_error(
                    FORMAT@,
                    "document declares SARIF "@ + v
                        + ", which is a structurally different format (`files` dictionary, `resources.rules`, `formattedRuleMessage`), not an older version of SARIF 2. It is not supported."@,
                ),
            )
        } else {
            match ctx.version {
                Some(requested) => Ok(
                    ctx.degraded_if(
                        v != requested,
                        "sarif: document declares version "@ + v + " but "@ + requested
                            + " was requested; parsed leniently, fields specific to "@ + v
                            + " were ignored"@,
                    ),
                ),
                None => Ok(ctx),
            }
        },
    }
}

/// Refuses a document whose declared version this reader cannot honestly read,
/// and flags a mismatch with the version the caller pinned.
pub fn check_version(declared: &Option<String>, ctx: &mut FormatCtx) -> (r: Result<(), Error>)
    ensures
        match version_checked(declared.deep_view(), old(ctx)@) {
            Ok(after) => r is Ok && final(ctx)@ == after,
            Err(e) => r is Err && r->Err_0.deep_view() == e && final(ctx)@ == old(ctx)@,
        },
{
    let version = match declared {
        Some(v) => if_any(Some(trimmed(v.as_str()))),
        None => None,
    };
    let version = match version {
        Some(v) => v,
        None => {
            return Ok(());
        },
    };
    if !begins(version.as_str(), SUPPORTED_MAJOR) {
        return Err(
            Error::parse(
                FORMAT,
                concat3(
                    "document declares SARIF ",
                    version.as_str(),
                    ", which is a structurally different format (`files` dictionary, `resources.rules`, `formattedRuleMessage`), not an older version of SARIF 2. It is not supported.",
                ).as_str(),
            ),
        );
    }
    if let Some(requested) = ctx.version() {
        if !same(version.as_str(), requested) {
            let mut message = concat5(
                "sarif: document declares version ",
                version.as_str(),
                " but ",
                requested,
                " was requested; parsed leniently, fields specific to ",
            );
            message.append(version.as_str());
            message.append(" were ignored");
            ctx.degraded(message.as_str());
        }
    }
    Ok(())
}

/// `yyyy-mm-ddThh:mm:ss`, by its separators.
pub open spec fn time_shaped(bytes: Seq<u8>) -> bool {
    bytes.len() == 19 && bytes[4] == 45 && bytes[7] == 45 && bytes[10] == 84 && bytes[13] == 58
        && bytes[16] == 58
}

/// The first 19 bytes of a timestamp, where they have the shape of a time.
pub open spec fn seconds_of(raw: Seq<char>) -> Option<Seq<char>> {
    match byte_prefix_of(raw, 19) {
        Some(head) => if time_shaped(vstd::utf8::encode_utf8(head)) {
            Some(head)
        } else {
            None
        },
        None => None,
    }
}

/// SARIF timestamps carry fractional seconds and a zone; the pivot stores the
/// `yyyy-mm-ddThh:mm:ss` prefix.
pub fn iso_seconds(raw: &str) -> (r: Option<String>)
    ensures
        r.deep_view() == seconds_of(raw@),
{
    match byte_prefix(raw, 19) {
        Some(head) => {
            let bytes = head.as_str().as_bytes();
            if bytes.len() == 19 && bytes[4] == 45 && bytes[7] == 45 && bytes[10] == 84 && bytes[13]
                == 58 && bytes[16] == 58 {
                Some(head)
            } else {
                None
            }
        },
        None => None,
    }
}

pub open spec fn time_in(invocation: JsonView, key: Seq<char>) -> Option<Seq<char>> {
    match invocation.get(key).text() {
        Some(raw) => seconds_of(raw),
        None => None,
    }
}

/// The first usable time of the invocations, unless there is one already.
pub open spec fn first_time(
    known: Option<Seq<char>>,
    invocations: Seq<JsonView>,
    key: Seq<char>,
) -> Option<Seq<char>>
    decreases invocations.len(),
{
    if invocations.len() == 0 {
        known
    } else {
        or_else(
            first_time(known, invocations.drop_last(), key),
            time_in(invocations.last(), key),
        )
    }
}

fn time_of(invocation: &Json, key: &str) -> (r: Option<String>)
    ensures
        r.deep_view() == time_in(invocation.deep_view(), key@),
{
    match invocation.get(key).text() {
        Some(raw) => iso_seconds(raw.as_str()),
        None => None,
    }
}

fn find_time(known: Option<String>, invocations: &Json, key: &str) -> (r: Option<String>)
    ensures
        r.deep_view() == first_time(known.deep_view(), invocations.deep_view().items(), key@),
{
    let ghost all = invocations.deep_view().items();
    let mut found = known;
    let mut i: usize = 0;
    assert(all.take(0) =~= Seq::empty());
    while i < invocations.count()
        invariant
            i <= all.len(),
            all == invocations.deep_view().items(),
            found.deep_view() == first_time(known.deep_view(), all.take(i as int), key@),
        decreases all.len() - i,
    {
        assert(all.take(i as int + 1).drop_last() =~= all.take(i as int));
        found = either(found, time_of(invocations.item(i), key));
        i = i + 1;
    }
    assert(all.take(i as int) =~= all);
    found
}

// ---------------------------------------------------------------------------
// Rules
// ---------------------------------------------------------------------------

/// A message's text, or its markdown.
pub open spec fn message_text(message: JsonView) -> Option<Seq<char>> {
    or_else(message.get("text"@).text(), message.get("markdown"@).text())
}

fn message_value(message: &Json) -> (r: Option<String>)
    ensures
        r.deep_view() == message_text(message.deep_view()),
{
    either(message.get("text").text(), message.get("markdown").text())
}

/// The first rule with this id; null without one.
pub open spec fn rule_by_id(rules: Seq<JsonView>, id: Seq<char>) -> JsonView
    decreases rules.len(),
{
    if rules.len() == 0 {
        JsonView::Null
    } else if rules[0].get("id"@).text() == Some(id) {
        rules[0]
    } else {
        rule_by_id(rules.skip(1), id)
    }
}

/// The rule of a result: by index where that is in the table, else by id.
pub open spec fn rule_of(rules: Seq<JsonView>, result: JsonView) -> JsonView {
    let by_id = match result.get("ruleId"@).text() {
        Some(id) => rule_by_id(rules, id),
        None => JsonView::Null,
    };
    match result.get("ruleIndex"@).number_u64() {
        Some(i) => if i < rules.len() {
            rules[i as int]
        } else {
            by_id
        },
        None => by_id,
    }
}

fn find_rule<'a>(rules: &'a Json, id: &str) -> (r: &'a Json)
    ensures
        r.deep_view() == rule_by_id(rules.deep_view().items(), id@),
{
    let ghost all = rules.deep_view().items();
    let mut i: usize = 0;
    assert(all.skip(0) =~= all);
    while i < rules.count()
        invariant
            i <= all.len(),
            all == rules.deep_view().items(),
            rule_by_id(all, id@) == rule_by_id(all.skip(i as int), id@),
        decreases all.len() - i,
    {
        assert(all.skip(i as int)[0] == all[i as int]);
        assert(all.skip(i as int).skip(1) =~= all.skip(i as int + 1));
        if let Some(own) = rules.item(i).get("id").text() {
            if same(own.as_str(), id) {
                return rules.item(i);
            }
        }
        i = i + 1;
    }
    &Json::Null
}

/// `ruleIndex` is the fast path SARIF defines; `ruleId` is the one producers
/// actually fill in reliably.
pub fn lookup_rule<'a>(rules: &'a Json, result: &Json) -> (r: &'a Json)
    ensures
        r.deep_view() == rule_of(rules.deep_view().items(), result.deep_view()),
{
    if let Some(i) = result.get("ruleIndex").number_u64() {
        if i < rules.count() as u64 {
            return rules.item(i as usize);
        }
    }
    match result.get("ruleId").text() {
        Some(id) => find_rule(rules, id.as_str()),
        None => &Json::Null,
    }
}

// ---------------------------------------------------------------------------
// Severity
// ---------------------------------------------------------------------------

/// A `security-severity` as a number: how it compares with the bounds of the
/// CVSS v3 qualitative bands.
#[derive(Debug, PartialEq, Eq)]
pub struct Score {
    /// The number's text, without surrounding white space.
    pub text: String,
    pub at_least_nine: bool,
    pub at_least_seven: bool,
    pub at_least_four: bool,
    pub above_zero: bool,
}

/// The content of a [`Score`].
pub struct ScoreView {
    pub text: Seq<char>,
    pub at_least_nine: bool,
    pub at_least_seven: bool,
    pub at_least_four: bool,
    pub above_zero: bool,
}

impl DeepView for Score {
    type V = ScoreView;

    open spec fn deep_view(&self) -> ScoreView {
        ScoreView {
            text: self.text@,
            at_least_nine: self.at_least_nine,
            at_least_seven: self.at_least_seven,
            at_least_four: self.at_least_four,
            above_zero: self.above_zero,
        }
    }
}

/// The CVSS v3 qualitative band.
pub open spec fn band_of(score: ScoreView) -> Severity {
    if score.at_least_nine {
        Severity::Blocker
    } else if score.at_least_seven {
        Severity::Critical
    } else if score.at_least_four {
        Severity::Major
    } else if score.above_zero {
        Severity::Minor
    } else {
        Severity::Info
    }
}

/// What the number with this text ranks as; none for a text that is no number.
pub open spec fn scored(scores: Seq<ScoreView>, text: Seq<char>) -> Option<Severity>
    decreases scores.len(),
{
    if scores.len() == 0 {
        None
    } else if scores[0].text == text {
        Some(band_of(scores[0]))
    } else {
        scored(scores.skip(1), text)
    }
}

/// The text of a rule's score.
pub open spec fn score_text(rule: JsonView) -> Option<Seq<char>> {
    match rule.get("properties"@).get("security-severity"@) {
        JsonView::Number(n) => Some(n),
        JsonView::Text(s) => Some(trim(s)),
        _ => None,
    }
}

pub open spec fn level_word(word: Seq<char>) -> Option<Severity> {
    if word == "error"@ {
        Some(Severity::Major)
    } else if word == "warning"@ {
        Some(Severity::Minor)
    } else if word == "note"@ || word == "none"@ {
        Some(Severity::Info)
    } else {
        None
    }
}

/// The severity a level stands for. `none` means "not a problem", not
/// "unknown".
pub open spec fn level_severity(level: Option<Seq<char>>) -> Option<Severity> {
    match level {
        Some(l) => level_word(lower(trim(l))),
        None => None,
    }
}

/// The score wins, since it is the more precise statement; then the result's
/// own level, then the rule's default level.
pub open spec fn result_severity(
    result: JsonView,
    rule: JsonView,
    scores: Seq<ScoreView>,
) -> Severity {
    let by_score = match score_text(rule) {
        Some(text) => scored(scores, text),
        None => None,
    };
    let by_level = or_else(
        level_severity(result.get("level"@).text()),
        level_severity(rule.get("defaultConfiguration"@).get("level"@).text()),
    );
    match or_else(by_score, by_level) {
        Some(s) => s,
        None => Severity::Minor,
    }
}

fn band(score: &Score) -> (r: Severity)
    ensures
        r == band_of(score.deep_view()),
{
    if score.at_least_nine {
        Severity::Blocker
    } else if score.at_least_seven {
        Severity::Critical
    } else if score.at_least_four {
        Severity::Major
    } else if score.above_zero {
        Severity::Minor
    } else {
        Severity::Info
    }
}

fn find_score(scores: &Vec<Score>, text: &str) -> (r: Option<Severity>)
    ensures
        r == scored(scores.deep_view(), text@),
{
    let ghost all = scores.deep_view();
    let mut i: usize = 0;
    assert(all.skip(0) =~= all);
    while i < scores.len()
        invariant
            i <= scores@.len(),
            all == scores.deep_view(),
            scored(all, text@) == scored(all.skip(i as int), text@),
        decreases scores@.len() - i,
    {
        assert(all.skip(i as int)[0] == all[i as int]);
        assert(all.skip(i as int).skip(1) =~= all.skip(i as int + 1));
        if same(scores[i].text.as_str(), text) {
            return Some(band(&scores[i]));
        }
        i = i + 1;
    }
    None
}

fn score_of(rule: &Json) -> (r: Option<String>)
    ensures
        r.deep_view() == score_text(rule.deep_view()),
{
    match rule.get("properties").get("security-severity") {
        Json::Number(n) => Some(n.clone()),
        Json::Text(s) => Some(trimmed(s.as_str())),
        _ => None,
    }
}

pub fn map_level(level: &str) -> (r: Option<Severity>)
    ensures
        r == level_severity(Some(level@)),
{
    let word = to_lower(trimmed(level).as_str());
    if same(word.as_str(), "error") {
        Some(Severity::Major)
    } else if same(word.as_str(), "warning") {
        Some(Severity::Minor)
    } else if same(word.as_str(), "note") || same(word.as_str(), "none") {
        Some(Severity::Info)
    } else {
        None
    }
}

pub fn severity_of(result: &Json, rule: &Json, scores: &Vec<Score>) -> (r: Severity)
    ensures
        r == result_severity(result.deep_view(), rule.deep_view(), scores.deep_view()),
{
    if let Some(text) = score_of(rule) {
        if let Some(severity) = find_score(scores, text.as_str()) {
            return severity;
        }
    }
    if let Some(level) = result.get("level").text() {
        if let Some(severity) = map_level(level.as_str()) {
            return severity;
        }
    }
    if let Some(level) = rule.get("defaultConfiguration").get("level").text() {
        if let Some(severity) = map_level(level.as_str()) {
            return severity;
        }
    }
    Severity::Minor
}

/// The score texts that reading this document looks up.
pub open spec fn score_texts_of(runs: Seq<JsonView>) -> Seq<Seq<char>>
    decreases runs.len(),
{
    if runs.len() == 0 {
        Seq::empty()
    } else {
        score_texts_of(runs.drop_last()) + filter_mapped(
            runs.last().get("tool"@).get("driver"@).get("rules"@).items(),
            |rule: JsonView| score_text(rule),
        )
    }
}

/// The score texts that reading this document looks up, for a caller that has
/// to rank them first.
pub fn score_texts(json: &Json) -> (r: Vec<String>)
    ensures
        r.deep_view() == match decoded(json.deep_view(), log_shape()) {
            Some(log) => score_texts_of(log.get("runs"@).items()),
            None => Seq::empty(),
        },
{
    let mut out: Vec<String> = empty_list();
    let log = match decode(json, &log_shape()) {
        Some(log) => log,
        None => {
            return out;
        },
    };
    let runs = log.get("runs");
    let ghost all = runs.deep_view().items();
    let mut i: usize = 0;
    assert(all.take(0) =~= Seq::empty());
    while i < runs.count()
        invariant
            i <= all.len(),
            all == runs.deep_view().items(),
            out.deep_view() == score_texts_of(all.take(i as int)),
        decreases all.len() - i,
    {
        assert(all.take(i as int + 1).drop_last() =~= all.take(i as int));
        let found = filter_map_items(
            runs.item(i).get("tool").get("driver").get("rules"),
            |rule: &Json| -> (r: Option<String>)
                ensures
                    r.deep_view() == score_text(rule.deep_view())
                { score_of(rule) },
            Ghost(|rule: JsonView| score_text(rule)),
        );
        append_all(&mut out, found);
        i = i + 1;
    }
    assert(all.take(i as int) =~= all);
    out
}

// ---------------------------------------------------------------------------
// Findings
// ---------------------------------------------------------------------------

/// The CWE that a tag names. `external/cwe/cwe-079` and `CWE-79` both appear in
/// the wild.
pub open spec fn cwe_in(tag: Seq<char>) -> Option<Seq<char>> {
    let last = match rsplit_once(tag, '/') {
        Some((_, t)) => t,
        None => tag,
    };
    if last.len() > 4 && lower(last.take(4)) == lower("cwe-"@) {
        Some(uppercase(last))
    } else {
        None
    }
}

pub open spec fn cwe_identifier(tag: Seq<char>) -> Option<IdentifierView> {
    match cwe_in(tag) {
        Some(value) => Some(IdentifierView { kind: "cwe"@, value, url: None }),
        None => None,
    }
}

pub open spec fn category_of(tag: Seq<char>) -> Option<Seq<char>> {
    if cwe_in(tag) is Some {
        None
    } else {
        Some(tag)
    }
}

fn cwe(tag: &String) -> (r: Option<String>)
    ensures
        r.deep_view() == cwe_in(tag@),
{
    let last = match rcut(tag.as_str(), '/') {
        Some((_, t)) => t,
        None => tag.clone(),
    };
    let cs = chars(last.as_str());
    if cs.len() > 4 {
        proof {
            assert(last@.take(4) =~= cs@.subrange(0, 4));
        }
        if same_ignoring_case(slice(&cs, 0, 4).as_str(), "cwe-") {
            return Some(to_upper(last.as_str()));
        }
    }
    None
}

fn cwe_identifier_of(tag: &String) -> (r: Option<Identifier>)
    ensures
        r.deep_view() == cwe_identifier(tag@),
{
    match cwe(tag) {
        Some(value) => Some(Identifier { kind: owned("cwe"), value, url: None }),
        None => None,
    }
}

fn category(tag: &String) -> (r: Option<String>)
    ensures
        r.deep_view() == category_of(tag@),
{
    match cwe(tag) {
        Some(_) => None,
        None => Some(tag.clone()),
    }
}

/// The member with the least key.
pub open spec fn least_member(list: Seq<(Seq<char>, JsonView)>) -> Option<(Seq<char>, JsonView)>
    decreases list.len(),
{
    if list.len() == 0 {
        None
    } else {
        match least_member(list.drop_last()) {
            Some(m) => if lex_lt(list.last().0, m.0) {
                Some(list.last())
            } else {
                Some(m)
            },
            None => Some(list.last()),
        }
    }
}

/// The value of the least key.
pub open spec fn least_text(dict: JsonView) -> Option<Seq<char>> {
    match least_member(dict.members()) {
        Some(m) => m.1.text(),
        None => None,
    }
}

/// Partial fingerprints come first: SARIF defines those as stable across
/// unrelated edits.
pub open spec fn result_fingerprint(result: JsonView) -> Option<Seq<char>> {
    if result.get("partialFingerprints"@).members().len() > 0 {
        least_text(result.get("partialFingerprints"@))
    } else {
        least_text(result.get("fingerprints"@))
    }
}

fn find_least(dict: &Json) -> (r: Option<String>)
    ensures
        r.deep_view() == least_text(dict.deep_view()),
{
    let ghost all = dict.deep_view().members();
    if dict.member_count() == 0 {
        return None;
    }
    let mut best: usize = 0;
    let mut i: usize = 1;
    assert(all.take(1).drop_last() =~= Seq::empty());
    assert(least_member(all.take(1).drop_last()) is None);
    while i < dict.member_count()
        invariant
            best < i <= all.len(),
            all == dict.deep_view().members(),
            least_member(all.take(i as int)) == Some(all[best as int]),
        decreases all.len() - i,
    {
        assert(all.take(i as int + 1).drop_last() =~= all.take(i as int));
        if less(dict.member_key(i).as_str(), dict.member_key(best).as_str()) {
            best = i;
        }
        i = i + 1;
    }
    assert(all.take(i as int) =~= all);
    dict.member_value(best).text()
}

pub fn pick_fingerprint(result: &Json) -> (r: Option<String>)
    ensures
        r.deep_view() == result_fingerprint(result.deep_view()),
{
    if result.get("partialFingerprints").member_count() > 0 {
        find_least(result.get("partialFingerprints"))
    } else {
        find_least(result.get("fingerprints"))
    }
}

/// The first physical location. Producers emit `file:///builds/x/src/a.js` as
/// often as `src/a.js`.
pub open spec fn result_location(result: JsonView) -> LocationView {
    let locations = result.get("locations"@).items();
    let physical = if locations.len() == 0 {
        JsonView::Null
    } else {
        locations[0].get("physicalLocation"@)
    };
    let region = physical.get("region"@);
    if physical is Null {
        LocationView::empty()
    } else {
        LocationView {
            path: match physical.get("artifactLocation"@).get("uri"@).text() {
                Some(uri) => normalized(or_text(strip_prefix(uri, "file://"@), uri)),
                None => Seq::empty(),
            },
            begin_line: region.get("startLine"@).number_u32(),
            end_line: or_else(
                region.get("endLine"@).number_u32(),
                region.get("startLine"@).number_u32(),
            ),
            begin_column: region.get("startColumn"@).number_u32(),
            end_column: region.get("endColumn"@).number_u32(),
            image: None,
            operating_system: None,
        }
    }
}

pub fn location_of(result: &Json) -> (r: Location)
    ensures
        r.deep_view() == result_location(result.deep_view()),
{
    let locations = result.get("locations");
    if locations.count() == 0 {
        return Location::default();
    }
    let physical = locations.item(0).get("physicalLocation");
    if physical.is_null() {
        return Location::default();
    }
    let path = match physical.get("artifactLocation").get("uri").text() {
        Some(uri) => {
            let bare = without_prefix(uri.as_str(), "file://");
            normalize(text_or(&bare, uri.as_str()))
        },
        None => String::new(),
    };
    let region = physical.get("region");
    Location {
        path,
        begin_line: region.get("startLine").number_u32(),
        end_line: either(
            region.get("endLine").number_u32(),
            region.get("startLine").number_u32(),
        ),
        begin_column: region.get("startColumn").number_u32(),
        end_column: region.get("endColumn").number_u32(),
        image: None,
        operating_system: None,
    }
}

pub open spec fn opt_list(text: Option<Seq<char>>) -> Seq<Seq<char>> {
    match text {
        Some(t) => seq![t],
        None => Seq::empty(),
    }
}

/// The finding that a result and its rule make.
pub open spec fn built(result: JsonView, rule: JsonView, scores: Seq<ScoreView>) -> FindingView {
    let brief = message_text(rule.get("shortDescription"@));
    let tags = rule.get("properties"@).get("tags"@).texts();
    FindingView {
        rule_id: non_empty(or_else(result.get("ruleId"@).text(), rule.get("id"@).text())),
        title: or_else(rule.get("name"@).text(), brief),
        description: or_text(
            or_else(message_text(result.get("message"@)), brief),
            "(no message)"@,
        ),
        severity: result_severity(result, rule, scores),
        categories: filter_mapped(tags, |tag: Seq<char>| category_of(tag)),
        location: result_location(result),
        fingerprint: result_fingerprint(result),
        help: or_else(
            message_text(rule.get("help"@)),
            message_text(rule.get("fullDescription"@)),
        ),
        links: opt_list(rule.get("helpUri"@).text()),
        identifiers: filter_mapped(tags, |tag: Seq<char>| cwe_identifier(tag)),
        component: None,
    }
}

pub fn build(result: &Json, rule: &Json, scores: &Vec<Score>) -> (r: Finding)
    ensures
        r.deep_view() == built(result.deep_view(), rule.deep_view(), scores.deep_view()),
{
    let description = either(
        message_value(result.get("message")),
        message_value(rule.get("shortDescription")),
    );
    let tags = rule.get("properties").get("tags").texts();
    let categories = filter_map_list(
        &tags,
        |tag: &String| -> (r: Option<String>)
            ensures
                r.deep_view() == category_of(tag@)
            { category(tag) },
        Ghost(|tag: Seq<char>| category_of(tag)),
    );
    let identifiers = filter_map_list(
        &tags,
        |tag: &String| -> (r: Option<Identifier>)
            ensures
                r.deep_view() == cwe_identifier(tag@)
            { cwe_identifier_of(tag) },
        Ghost(|tag: Seq<char>| cwe_identifier(tag)),
    );
    let mut links: Vec<String> = empty_list();
    if let Some(url) = rule.get("helpUri").text() {
        append_one(&mut links, url);
    }
    assert(links.deep_view() =~= opt_list(rule.deep_view().get("helpUri"@).text()));
    Finding {
        rule_id: if_any(either(result.get("ruleId").text(), rule.get("id").text())),
        title: either(rule.get("name").text(), message_value(rule.get("shortDescription"))),
        description: owned(text_or(&description, "(no message)")),
        severity: severity_of(result, rule, scores),
        categories,
        location: location_of(result),
        fingerprint: pick_fingerprint(result),
        help: either(
            message_value(rule.get("help")),
            message_value(rule.get("fullDescription")),
        ),
        links,
        identifiers,
        component: None,
    }
}

// ---------------------------------------------------------------------------
// Reading
// ---------------------------------------------------------------------------

pub open spec fn result_notices(results: Seq<JsonView>, ctx: CtxView) -> CtxView
    decreases results.len(),
{
    if results.len() == 0 {
        ctx
    } else {
        result_notices(results.drop_last(), ctx).lossy_if(
            results.last().get("codeFlows"@).items().len() > 0,
            "sarif: code flows have no equivalent in the findings model and were dropped"@,
        ).lossy_if(
            results.last().get("relatedLocations"@).items().len() > 0,
            "sarif: related locations were dropped (only the primary one is kept)"@,
        ).lossy_if(
            results.last().get("fixes"@).items().len() > 0,
            "sarif: fixes have no equivalent in the findings model and were dropped"@,
        )
    }
}

pub open spec fn driver_tool(driver: JsonView) -> Option<ToolView> {
    if driver is Null {
        None
    } else {
        Some(
            ToolView {
                name: or_text(driver.get("name"@).text(), "sarif"@),
                version: or_else(
                    driver.get("version"@).text(),
                    driver.get("semanticVersion"@).text(),
                ),
                url: driver.get("informationUri"@).text(),
            },
        )
    }
}

/// The document with one more run in it.
pub open spec fn with_run(
    doc: FindingsDocView,
    run: JsonView,
    scores: Seq<ScoreView>,
) -> FindingsDocView {
    let driver = run.get("tool"@).get("driver"@);
    let rules = driver.get("rules"@).items();
    FindingsDocView {
        tool: or_else(doc.tool, driver_tool(driver)),
        scan: ScanWindowView {
            start: first_time(
                doc.scan.start,
                run.get("invocations"@).items(),
                "startTimeUtc"@,
            ),
            end: first_time(doc.scan.end, run.get("invocations"@).items(), "endTimeUtc"@),
        },
        findings: doc.findings + run.get("results"@).items().map_values(
            |result: JsonView| built(result, rule_of(rules, result), scores),
        ),
    }
}

pub open spec fn with_runs(runs: Seq<JsonView>, scores: Seq<ScoreView>) -> FindingsDocView
    decreases runs.len(),
{
    if runs.len() == 0 {
        FindingsDocView::empty()
    } else {
        with_run(with_runs(runs.drop_last(), scores), runs.last(), scores)
    }
}

pub open spec fn runs_notices(runs: Seq<JsonView>, ctx: CtxView) -> CtxView
    decreases runs.len(),
{
    if runs.len() == 0 {
        ctx
    } else {
        result_notices(
            runs.last().get("results"@).items(),
            runs_notices(runs.drop_last(), ctx),
        ).lossy_if(
            runs.last().get("taxonomies"@).items().len() > 0,
            "sarif: taxonomies have no equivalent in the findings model and were dropped"@,
        )
    }
}

/// The document and notices that reading gives, or the refusal.
pub open spec fn read_spec(json: JsonView, scores: Seq<ScoreView>, ctx: CtxView) -> (
    Result<DocView, ErrorView>,
    CtxView,
) {
    match decoded(json, log_shape()) {
        None => (Err(parse_error(FORMAT@, "not the structure of a SARIF log"@)), ctx),
        Some(log) => {
            let runs = log.get("runs"@).items();
            if runs.len() == 0 {
                (
                    Err(
                        parse_error(
                            FORMAT@,
                            "no `runs` array — this does not look like a SARIF log"@,
                        ),
                    ),
                    ctx,
                )
            } else {
                match version_checked(log.get("version"@).text(), ctx) {
                    Err(e) => (Err(e), ctx),
                    Ok(after) => {
                        let doc = with_runs(runs, scores);
                        (
                            Ok(
                                DocView::Findings(
                                    sort_doc(
                                        FindingsDocView {
                                            findings: doc.findings.map_values(
                                                |f: FindingView| f.fingerprinted(),
                                            ),
                                            ..doc
                                        },
                                    ),
                                ),
                            ),
                            runs_notices(runs, after),
                        )
                    },
                }
            }
        },
    }
}

fn tool_of(driver: &Json) -> (r: Option<Tool>)
    ensures
        r.deep_view() == driver_tool(driver.deep_view()),
{
    if driver.is_null() {
        return None;
    }
    Some(
        Tool {
            name: owned(text_or(&driver.get("name").text(), "sarif")),
            version: either(driver.get("version").text(), driver.get("semanticVersion").text()),
            url: driver.get("informationUri").text(),
        },
    )
}

fn note_results(results: &Json, ctx: &mut FormatCtx)
    ensures
        final(ctx)@ == result_notices(results.deep_view().items(), old(ctx)@),
{
    let ghost all = results.deep_view().items();
    let ghost start = ctx@;
    let mut i: usize = 0;
    assert(all.take(0) =~= Seq::empty());
    while i < results.count()
        invariant
            i <= all.len(),
            all == results.deep_view().items(),
            ctx@ == result_notices(all.take(i as int), start),
        decreases all.len() - i,
    {
        assert(all.take(i as int + 1).drop_last() =~= all.take(i as int));
        let result = results.item(i);
        if result.get("codeFlows").count() > 0 {
            ctx.lossy(
                "sarif: code flows have no equivalent in the findings model and were dropped",
            );
        }
        if result.get("relatedLocations").count() > 0 {
            ctx.lossy("sarif: related locations were dropped (only the primary one is kept)");
        }
        if result.get("fixes").count() > 0 {
            ctx.lossy("sarif: fixes have no equivalent in the findings model and were dropped");
        }
        i = i + 1;
    }
    assert(all.take(i as int) =~= all);
}

fn add_run(doc: FindingsDoc, run: &Json, scores: &Vec<Score>) -> (r: FindingsDoc)
    ensures
        r.deep_view() == with_run(doc.deep_view(), run.deep_view(), scores.deep_view()),
{
    let invocations = run.get("invocations");
    let start = find_time(doc.scan.start.copy(), invocations, "startTimeUtc");
    let end = find_time(doc.scan.end.copy(), invocations, "endTimeUtc");
    let driver = run.get("tool").get("driver");
    let tool = either(doc.tool.copy(), tool_of(driver));
    let rules = driver.get("rules");
    let ghost known = rules.deep_view().items();
    let ghost ranks = scores.deep_view();
    let built_list = map_items(
        run.get("results"),
        |result: &Json| -> (r: Finding)
            ensures
                r.deep_view() == built(
                    result.deep_view(),
                    rule_of(rules.deep_view().items(), result.deep_view()),
                    scores.deep_view(),
                )
            { build(result, lookup_rule(rules, result), scores) },
        Ghost(|result: JsonView| built(result, rule_of(known, result), ranks)),
    );
    let mut findings = doc.findings;
    append_all(&mut findings, built_list);
    FindingsDoc { tool, scan: ScanWindow { start, end }, findings }
}

/// Reads a SARIF log. `scores` ranks the log's `security-severity` numbers (see
/// [`score_texts`]).
pub fn read(json: &Json, scores: &Vec<Score>, ctx: &mut FormatCtx) -> (r: Result<Doc, Error>)
    ensures
        (read_result(r), final(ctx)@) == read_spec(
            json.deep_view(),
            scores.deep_view(),
            old(ctx)@,
        ),
{
    let log = match decode(json, &log_shape()) {
        Some(log) => log,
        None => {
            return Err(Error::parse(FORMAT, "not the structure of a SARIF log"));
        },
    };
    let runs = log.get("runs");
    if runs.count() == 0 {
        return Err(
            Error::parse(FORMAT, "no `runs` array — this does not look like a SARIF log"),
        );
    }
    match check_version(&log.get("version").text(), ctx) {
        Ok(_) => {},
        Err(e) => {
            return Err(e);
        },
    }
    let ghost all = runs.deep_view().items();
    let ghost start = ctx@;
    let mut doc = FindingsDoc::default();
    let mut i: usize = 0;
    assert(all.take(0) =~= Seq::empty());
    while i < runs.count()
        invariant
            i <= all.len(),
            all == runs.deep_view().items(),
            doc.deep_view() == with_runs(all.take(i as int), scores.deep_view()),
            ctx@ == runs_notices(all.take(i as int), start),
        decreases all.len() - i,
    {
        assert(all.take(i as int + 1).drop_last() =~= all.take(i as int));
        note_results(runs.item(i).get("results"), ctx);
        if runs.item(i).get("taxonomies").count() > 0 {
            ctx.lossy(
                "sarif: taxonomies have no equivalent in the findings model and were dropped",
            );
        }
        doc = add_run(doc, runs.item(i), scores);
        i = i + 1;
    }
    assert(all.take(i as int) =~= all);
    doc.findings = fingerprint_all(&doc.findings);
    doc.sort();
    Ok(Doc::Findings(doc))
}

// ---------------------------------------------------------------------------
// Writing
// ---------------------------------------------------------------------------

/// Canonical schema URI for SARIF 2.1.0.
pub const SCHEMA_URI: &'static str = "https://docs.oasis-open.org/sarif/sarif/v2.1.0/errata01/os/schemas/sarif-schema-2.1.0.json";

pub const VERSION: &'static str = "2.1.0";

/// What a rule is about, as opposed to what one occurrence says.
pub open spec fn summary_of(finding: FindingView) -> Seq<char> {
    or_text(finding.title, finding.description)
}

pub open spec fn level_name(severity: Severity) -> Seq<char> {
    match severity {
        Severity::Info => "note"@,
        Severity::Minor => "warning"@,
        _ => "error"@,
    }
}

/// The midpoint of the CVSS band that the reader maps back to.
pub open spec fn score_name(severity: Severity) -> Seq<char> {
    match severity {
        Severity::Blocker => "9.5"@,
        Severity::Critical => "8.0"@,
        Severity::Major => "5.5"@,
        Severity::Minor => "2.0"@,
        Severity::Info => "0.0"@,
    }
}

pub fn summary(finding: &Finding) -> (r: &str)
    ensures
        r@ == summary_of(finding.deep_view()),
{
    text_or(&finding.title, finding.description.as_str())
}

/// SARIF has three levels; the pivot has five. Anything above "major"
/// collapses.
pub fn level_of(severity: Severity) -> (r: &'static str)
    ensures
        r@ == level_name(severity),
{
    match severity {
        Severity::Info => "note",
        Severity::Minor => "warning",
        Severity::Major | Severity::Critical | Severity::Blocker => "error",
    }
}

pub fn security_severity(severity: Severity) -> (r: &'static str)
    ensures
        r@ == score_name(severity),
{
    match severity {
        Severity::Blocker => "9.5",
        Severity::Critical => "8.0",
        Severity::Major => "5.5",
        Severity::Minor => "2.0",
        Severity::Info => "0.0",
    }
}

/// Ten times the number that [`score_name`] writes.
pub open spec fn score_tenths(severity: Severity) -> int {
    match severity {
        Severity::Blocker => 95,
        Severity::Critical => 80,
        Severity::Major => 55,
        Severity::Minor => 20,
        Severity::Info => 0,
    }
}

/// A severity survives a round trip: the score that is written ranks as the
/// severity it was written for.
pub proof fn severity_survives_a_round_trip(severity: Severity, score: ScoreView)
    requires
        score.text == score_name(severity),
        score.at_least_nine == (score_tenths(severity) >= 90),
        score.at_least_seven == (score_tenths(severity) >= 70),
        score.at_least_four == (score_tenths(severity) >= 40),
        score.above_zero == (score_tenths(severity) > 0),
    ensures
        scored(seq![score], score_name(severity)) == Some(severity),
{
}

/// The tags and the score of a rule. The score is GitHub's marker for "this
/// belongs in the security tab", so it is reserved for findings that carry a
/// security identifier.
pub open spec fn properties_item(finding: FindingView) -> Option<JsonView> {
    let tags = finding.categories + finding.identifiers.map_values(|i: IdentifierView| i.value);
    let score = if finding.identifiers.len() > 0 {
        Some(score_name(finding.severity))
    } else {
        None
    };
    if tags.len() == 0 && score is None {
        None
    } else {
        Some(
            members().some_list("tags"@, text_items(tags)).opt_text(
                "security-severity"@,
                score,
            ).done(),
        )
    }
}

pub fn properties_of(finding: &Finding) -> (r: Option<Json>)
    ensures
        r.deep_view() == properties_item(finding.deep_view()),
{
    let mut tags = finding.categories.copy();
    let values = map_list(
        &finding.identifiers,
        |i: &Identifier| -> (r: String)
            ensures
                r@ == i.deep_view().value
            { i.value.clone() },
        Ghost(|i: IdentifierView| i.value),
    );
    append_all(&mut tags, values);
    let score = if finding.identifiers.len() > 0 {
        Some(owned(security_severity(finding.severity)))
    } else {
        None
    };
    if tags.len() == 0 && score.is_none() {
        return None;
    }
    let mut m = Members::new();
    m.some_list("tags", text_list(&tags));
    m.opt_text("security-severity", &score);
    Some(m.done())
}

pub open spec fn text_item(text: Seq<char>) -> JsonView {
    members().text("text"@, text).done()
}

pub open spec fn rule_item(id: Seq<char>, finding: FindingView) -> JsonView {
    members().text("id"@, id).opt_text("name"@, finding.title).value(
        "shortDescription"@,
        text_item(summary_of(finding)),
    ).opt_value(
        "help"@,
        match finding.help {
            Some(h) => Some(text_item(h)),
            None => None,
        },
    ).opt_text(
        "helpUri"@,
        if finding.links.len() > 0 {
            Some(finding.links[0])
        } else {
            None
        },
    ).value(
        "defaultConfiguration"@,
        members().text("level"@, level_name(finding.severity)).done(),
    ).opt_value("properties"@, properties_item(finding)).done()
}

fn text_json(text: &str) -> (r: Json)
    ensures
        r.deep_view() == text_item(text@),
{
    let mut m = Members::new();
    m.text("text", text);
    m.done()
}

fn rule_json(id: &str, finding: &Finding) -> (r: Json)
    ensures
        r.deep_view() == rule_item(id@, finding.deep_view()),
{
    let mut configuration = Members::new();
    configuration.text("level", level_of(finding.severity));
    let mut m = Members::new();
    m.text("id", id);
    m.opt_text("name", &finding.title);
    m.value("shortDescription", text_json(summary(finding)));
    if let Some(help) = &finding.help {
        m.value("help", text_json(help.as_str()));
    }
    if finding.links.len() > 0 {
        m.text("helpUri", finding.links[0].as_str());
    }
    m.value("defaultConfiguration", configuration.done());
    if let Some(properties) = properties_of(finding) {
        m.value("properties", properties);
    }
    m.done()
}

/// `tool.driver.rules[]` under construction.
///
/// SARIF puts rule metadata in one table and has results point at it by index;
/// the pivot carries it on every finding. Where two findings claim the same
/// rule with different metadata the first one wins, and the conflict is kept in
/// mind.
pub struct RuleTable {
    ids: Vec<String>,
    rules: Vec<Json>,
    conflicts: bool,
}

/// The content of a [`RuleTable`].
pub struct TableView {
    pub ids: Seq<Seq<char>>,
    pub rules: Seq<JsonView>,
    pub conflicts: bool,
}

impl View for RuleTable {
    type V = TableView;

    closed spec fn view(&self) -> TableView {
        TableView {
            ids: self.ids.deep_view(),
            rules: self.rules.deep_view(),
            conflicts: self.conflicts,
        }
    }
}

impl TableView {
    pub open spec fn empty() -> TableView {
        TableView {
            ids: Seq::empty(),
            rules: Seq::empty(),
            conflicts: false,
        }
    }

    /// Every rule has an id, and no id is listed twice.
    pub open spec fn wf(self) -> bool {
        &&& self.ids.len() == self.rules.len()
        &&& self.ids.no_duplicates()
    }

    /// The table once it knows the rule of this finding.
    pub open spec fn interned(self, finding: FindingView) -> TableView {
        match finding.rule_id {
            None => self,
            Some(id) => {
                let at = index_in(self.ids, id);
                if at < self.ids.len() {
                    TableView {
                        conflicts: self.conflicts || self.rules[at] != rule_item(id, finding),
                        ..self
                    }
                } else {
                    TableView {
                        ids: self.ids.push(id),
                        rules: self.rules.push(rule_item(id, finding)),
                        conflicts: self.conflicts,
                    }
                }
            },
        }
    }
}

impl RuleTable {
    pub fn new() -> (r: Self)
        ensures
            r@ == TableView::empty(),
            r@.wf(),
    {
        RuleTable {
            ids: empty_list(),
            rules: empty_list(),
            conflicts: false,
        }
    }

    /// Makes sure that the rule of `finding` is in the table and says where.
    pub fn intern(&mut self, finding: &Finding) -> (r: Option<usize>)
        requires
            old(self)@.wf(),
        ensures
            final(self)@ == old(self)@.interned(finding.deep_view()),
            final(self)@.wf(),
            match finding.deep_view().rule_id {
                Some(id) => r is Some && r->0 == index_in(old(self)@.ids, id) && r->0
                    < final(self)@.ids.len() && final(self)@.ids[r->0 as int] == id,
                None => r is None,
            },
    {
        let id = match &finding.rule_id {
            Some(id) => id,
            None => {
                return None;
            },
        };
        let ghost all = self.ids.deep_view();
        proof {
            index_in_props(all, id@);
        }
        let mut at: usize = 0;
        assert(all.skip(0) =~= all);
        while at < self.ids.len() && !same(self.ids[at].as_str(), id.as_str())
            invariant
                at <= self.ids@.len(),
                all == self.ids.deep_view(),
                index_in(all, id@) == at + index_in(all.skip(at as int), id@),
            decreases self.ids@.len() - at,
        {
            assert(all.skip(at as int)[0] == all[at as int]);
            assert(all.skip(at as int).skip(1) =~= all.skip(at as int + 1));
            at = at + 1;
        }
        if at < self.ids.len() {
            assert(all.skip(at as int)[0] == all[at as int]);
            if !self.rules[at].alike(&rule_json(id.as_str(), finding)) {
                self.conflicts = true;
            }
            return Some(at);
        }
        append_one(&mut self.ids, id.clone());
        append_one(&mut self.rules, rule_json(id.as_str(), finding));
        assert(self.ids.deep_view().no_duplicates()) by {
            assert(!all.contains(id@));
        }
        Some(at)
    }
}

pub open spec fn region_item(location: LocationView) -> Option<JsonView> {
    match location.begin_line {
        Some(line) => Some(
            members().number("startLine"@, line as nat).opt_number(
                "startColumn"@,
                location.begin_column,
            ).opt_number("endLine"@, location.end_line).opt_number(
                "endColumn"@,
                location.end_column,
            ).done(),
        ),
        None => None,
    }
}

pub open spec fn location_items(location: LocationView) -> Seq<JsonView> {
    if location.path.len() == 0 {
        Seq::empty()
    } else {
        seq![
            members().value(
                "physicalLocation"@,
                members().value(
                    "artifactLocation"@,
                    members().text("uri"@, location.path).done(),
                ).opt_value("region"@, region_item(location)).done(),
            ).done(),
        ]
    }
}

pub fn out_locations(location: &Location) -> (r: Vec<Json>)
    ensures
        r.deep_view() == location_items(location.deep_view()),
{
    let mut out: Vec<Json> = empty_list();
    if !location.path.as_str().is_empty() {
        let mut artifact = Members::new();
        artifact.text("uri", location.path.as_str());
        let mut physical = Members::new();
        physical.value("artifactLocation", artifact.done());
        if let Some(line) = location.begin_line {
            let mut region = Members::new();
            region.number("startLine", line as u64);
            region.opt_number("startColumn", location.begin_column);
            region.opt_number("endLine", location.end_line);
            region.opt_number("endColumn", location.end_column);
            physical.value("region", region.done());
        }
        let mut m = Members::new();
        m.value("physicalLocation", physical.done());
        append_one(&mut out, m.done());
    }
    assert(out.deep_view() =~= location_items(location.deep_view()));
    out
}

pub open spec fn result_item(finding: FindingView, index: Option<nat>) -> JsonView {
    members().opt_text("ruleId"@, finding.rule_id).opt_value(
        "ruleIndex"@,
        match index {
            Some(i) => Some(JsonView::Number(crate::text::decimal(i))),
            None => None,
        },
    ).text("level"@, level_name(finding.severity)).value(
        "message"@,
        text_item(finding.description),
    ).some_list("locations"@, location_items(finding.location)).opt_value(
        "partialFingerprints"@,
        match finding.fingerprint {
            Some(print) => Some(members().text("udc/v1"@, print).done()),
            None => None,
        },
    ).done()
}

fn result_json(finding: &Finding, index: Option<usize>) -> (r: Json)
    ensures
        r.deep_view() == result_item(
            finding.deep_view(),
            match index {
                Some(i) => Some(i as nat),
                None => None,
            },
        ),
{
    let mut m = Members::new();
    m.opt_text("ruleId", &finding.rule_id);
    if let Some(i) = index {
        m.number("ruleIndex", i as u64);
    }
    m.text("level", level_of(finding.severity));
    m.value("message", text_json(finding.description.as_str()));
    m.some_list("locations", out_locations(&finding.location));
    if let Some(print) = &finding.fingerprint {
        let mut prints = Members::new();
        prints.text("udc/v1", print.as_str());
        m.value("partialFingerprints", prints.done());
    }
    m.done()
}

/// The rule table of a document.
pub open spec fn table_of(findings: Seq<FindingView>) -> TableView
    decreases findings.len(),
{
    if findings.len() == 0 {
        TableView::empty()
    } else {
        table_of(findings.drop_last()).interned(findings.last())
    }
}

/// Where in the table the rule of a finding is.
pub open spec fn position_in(table: TableView, finding: FindingView) -> Option<nat> {
    match finding.rule_id {
        Some(id) => Some(index_in(table.ids, id) as nat),
        None => None,
    }
}

/// The results of a document, each pointing at the table.
pub open spec fn results_of(findings: Seq<FindingView>) -> Seq<JsonView>
    decreases findings.len(),
{
    if findings.len() == 0 {
        Seq::empty()
    } else {
        let before = table_of(findings.drop_last());
        results_of(findings.drop_last()).push(
            result_item(findings.last(), position_in(before, findings.last())),
        )
    }
}

proof fn prefix_keeps_positions(s: Seq<Seq<char>>, item: Seq<char>, more: Seq<char>)
    requires
        index_in(s, item) < s.len(),
    ensures
        index_in(s.push(more), item) == index_in(s, item),
    decreases s.len(),
{
    if s.len() > 0 && s[0] != item {
        assert(s.push(more).skip(1) =~= s.skip(1).push(more));
        prefix_keeps_positions(s.skip(1), item, more);
    }
}

/// The table of a document lists every rule id once, the first finding of a
/// rule defines it, and every finding's position holds its rule.
pub proof fn rules_are_listed_once(findings: Seq<FindingView>, i: int)
    requires
        0 <= i < findings.len(),
    ensures
        table_of(findings).wf(),
        match findings[i].rule_id {
            Some(id) => {
                let at = index_in(table_of(findings).ids, id);
                0 <= at < table_of(findings).ids.len() && table_of(findings).ids[at] == id
            },
            None => true,
        },
    decreases findings.len(),
{
    let head = findings.drop_last();
    let before = table_of(head);
    let last = findings.last();
    if head.len() > 0 {
        if i < head.len() {
            rules_are_listed_once(head, i);
            assert(head[i] == findings[i]);
        } else {
            rules_are_listed_once(head, 0);
        }
    }
    assert(before.wf());
    match last.rule_id {
        Some(id) => {
            index_in_props(before.ids, id);
            index_in_props(table_of(findings).ids, id);
            if index_in(before.ids, id) == before.ids.len() {
                assert(!before.ids.contains(id));
                assert(table_of(findings).ids[before.ids.len() as int] == id);
                assert(table_of(findings).ids.contains(id));
            }
            if i < head.len() {
                if let Some(own) = findings[i].rule_id {
                    if index_in(before.ids, id) == before.ids.len() {
                        prefix_keeps_positions(before.ids, own, id);
                    }
                }
            }
        },
        None => {},
    }
}

/// What the conversion has to admit to.
pub open spec fn notices(doc: FindingsDocView, ctx: CtxView) -> CtxView {
    ctx.degraded_if(
        table_of(doc.findings).conflicts,
        "sarif: findings sharing a rule id disagreed on its metadata; the first one seen defines the rule"@,
    ).lossy_if(
        any_in(doc.findings, |f: FindingView| f.rule_id is None),
        "sarif: findings with no rule id were emitted without a `ruleId`"@,
    ).degraded_if(
        any_in(doc.findings, |f: FindingView| collapses(f)),
        "sarif: critical and blocker collapsed to level \"error\" (SARIF has three levels); only findings carrying a security identifier keep their rank via `security-severity`"@,
    ).lossy_if(
        any_in(doc.findings, |f: FindingView| f.links.len() > 1),
        "sarif: a rule has a single `helpUri`, so only the first link was kept"@,
    ).lossy_if(
        any_in(doc.findings, |f: FindingView| has_other_identifier(f)),
        "sarif: identifiers other than CWE (CVE, GHSA…) survive only as rule tags, not as taxonomies"@,
    )
}

/// A rank that the three levels cannot express and no score does.
pub open spec fn collapses(finding: FindingView) -> bool {
    (finding.severity == Severity::Critical || finding.severity == Severity::Blocker)
        && finding.identifiers.len() == 0
}

pub open spec fn has_other_identifier(finding: FindingView) -> bool {
    any_in(finding.identifiers, |i: IdentifierView| lower(i.kind) != lower("cwe"@))
}

pub open spec fn log_item(doc: FindingsDocView) -> JsonView {
    let name = match doc.tool {
        Some(t) => t.name,
        None => "udc"@,
    };
    let version = match doc.tool {
        Some(t) => t.version,
        None => None,
    };
    let url = match doc.tool {
        Some(t) => t.url,
        None => None,
    };
    members().text("$schema"@, SCHEMA_URI@).text("version"@, VERSION@).list(
        "runs"@,
        seq![
            members().value(
                "tool"@,
                members().value(
                    "driver"@,
                    members().text("name"@, name).opt_text("version"@, version).opt_text(
                        "informationUri"@,
                        url,
                    ).some_list("rules"@, table_of(doc.findings).rules).done(),
                ).done(),
            ).list("results"@, results_of(doc.findings)).done(),
        ],
    ).done()
}

pub open spec fn written(doc: DocView, ctx: CtxView) -> (Result<JsonView, ErrorView>, CtxView) {
    match doc {
        DocView::Findings(doc) => (Ok(log_item(doc)), notices(doc, ctx)),
        _ => (Err(wrong_kind("expected a findings report"@)), ctx),
    }
}

fn other_identifier(finding: &Finding) -> (r: bool)
    ensures
        r == has_other_identifier(finding.deep_view()),
{
    any_value(
        &finding.identifiers,
        |i: &Identifier| -> (r: bool)
            ensures
                r == (lower(i.deep_view().kind) != lower("cwe"@))
            { !same_ignoring_case(i.kind.as_str(), "cwe") },
        Ghost(|i: IdentifierView| lower(i.kind) != lower("cwe"@)),
    )
}

fn give_notices(doc: &FindingsDoc, conflicts: bool, ctx: &mut FormatCtx)
    requires
        conflicts == table_of(doc.deep_view().findings).conflicts,
    ensures
        final(ctx)@ == notices(doc.deep_view(), old(ctx)@),
{
    if conflicts {
        ctx.degraded(
            "sarif: findings sharing a rule id disagreed on its metadata; the first one seen defines the rule",
        );
    }
    if any_value(
        &doc.findings,
        |f: &Finding| -> (r: bool)
            ensures
                r == (f.deep_view().rule_id is None)
            { f.rule_id.is_none() },
        Ghost(|f: FindingView| f.rule_id is None),
    ) {
        ctx.lossy("sarif: findings with no rule id were emitted without a `ruleId`");
    }
    if any_value(
        &doc.findings,
        |f: &Finding| -> (r: bool)
            ensures
                r == collapses(f.deep_view())
            {
                (f.severity == Severity::Critical || f.severity == Severity::Blocker)
                    && f.identifiers.len() == 0
            },
        Ghost(|f: FindingView| collapses(f)),
    ) {
        ctx.degraded(
            "sarif: critical and blocker collapsed to level \"error\" (SARIF has three levels); only findings carrying a security identifier keep their rank via `security-severity`",
        );
    }
    if any_value(
        &doc.findings,
        |f: &Finding| -> (r: bool)
            ensures
                r == (f.deep_view().links.len() > 1)
            { f.links.len() > 1 },
        Ghost(|f: FindingView| f.links.len() > 1),
    ) {
        ctx.lossy("sarif: a rule has a single `helpUri`, so only the first link was kept");
    }
    if any_value(
        &doc.findings,
        |f: &Finding| -> (r: bool)
            ensures
                r == has_other_identifier(f.deep_view())
            { other_identifier(f) },
        Ghost(|f: FindingView| has_other_identifier(f)),
    ) {
        ctx.lossy(
            "sarif: identifiers other than CWE (CVE, GHSA…) survive only as rule tags, not as taxonomies",
        );
    }
}

pub fn write(doc: &Doc, ctx: &mut FormatCtx) -> (r: Result<Json, Error>)
    ensures
        (json_result(r), final(ctx)@) == written(doc.deep_view(), old(ctx)@),
{
    let doc = match doc.as_findings() {
        Ok(doc) => doc,
        Err(e) => {
            return Err(e);
        },
    };
    let ghost all = doc.deep_view().findings;
    let mut table = RuleTable::new();
    let mut results: Vec<Json> = empty_list();
    let mut i: usize = 0;
    assert(all.take(0) =~= Seq::empty());
    while i < doc.findings.len()
        invariant
            i <= doc.findings@.len(),
            all == doc.findings.deep_view(),
            table@ == table_of(all.take(i as int)),
            table@.wf(),
            results.deep_view() == results_of(all.take(i as int)),
        decreases doc.findings@.len() - i,
    {
        assert(all.take(i as int + 1).drop_last() =~= all.take(i as int));
        let index = table.intern(&doc.findings[i]);
        append_one(&mut results, result_json(&doc.findings[i], index));
        i = i + 1;
    }
    assert(all.take(i as int) =~= all);
    give_notices(doc, table.conflicts, ctx);
    let mut driver = Members::new();
    match &doc.tool {
        Some(tool) => {
            driver.text("name", tool.name.as_str());
            driver.opt_text("version", &tool.version);
            driver.opt_text("informationUri", &tool.url);
        },
        None => {
            driver.text("name", "udc");
        },
    }
    driver.some_list("rules", table.rules);
    let mut tool = Members::new();
    tool.value("driver", driver.done());
    let mut run = Members::new();
    run.value("tool", tool.done());
    run.list("results", results);
    let mut runs: Vec<Json> = empty_list();
    append_one(&mut runs, run.done());
    assert(runs.deep_view() =~= seq![runs.deep_view()[0]]);
    let mut m = Members::new();
    m.text("$schema", SCHEMA_URI);
    m.text("version", VERSION);
    m.list("runs", runs);
    Ok(m.done())
}

} // verus!
