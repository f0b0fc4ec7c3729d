//! What reading and writing a SARIF log promises.

use vstd::prelude::*;

use crate::error::ErrorView;
use crate::formats::quality::sarif::{
    band_of, built, category_of, cwe_identifier, cwe_in, first_time, least_member, level_name,
    location_items, log_shape, message_text, properties_item, read_spec, result_fingerprint,
    result_item, result_severity, rule_by_id, rule_item, rule_of, score_name, scored, time_in,
    version_checked, with_run, with_runs, ScoreView,
};
use crate::json::{decoded, members, JsonView};
use crate::model::coverage::name_part;
use crate::model::findings::{
    Finding, FindingView, FindingsDocView, IdentifierView, LocationView, Severity,
};
use crate::model::findings_laws::{finished, finishing_keeps_every_finding};
use crate::order::sorted_props;
use crate::paths::normalized;
use crate::registry::DocView;
use crate::text::{
    decimal, last, last_props, lex_lt, lex_lt_irreflexive, lex_lt_transitive, lower, starts_with,
    trim, uppercase,
};
use crate::value::{kept_items_are_listed, listed_items_were_kept};
use crate::warn::CtxView;

verus! {

// ---------------------------------------------------------------------------
// Severity
// ---------------------------------------------------------------------------

/// Whether a level is stated as this word, whatever its case and the white space
/// around it.
pub open spec fn is_level(level: Option<Seq<char>>, word: Seq<char>) -> bool {
    level matches Some(stated) && lower(trim(stated)) == word
}

/// Whether a level is one of those that SARIF defines.
pub open spec fn is_known_level(level: Option<Seq<char>>) -> bool {
    is_level(level, "error"@) || is_level(level, "warning"@) || is_level(level, "note"@) || is_level(
        level,
        "none"@,
    )
}

/// What a level stands for: an error is major, a warning minor, and a note, like
/// what is no problem at all, information.
pub open spec fn stands_for(severity: Severity, level: Option<Seq<char>>) -> bool {
    &&& is_level(level, "error"@) ==> severity == Severity::Major
    &&& is_level(level, "warning"@) ==> severity == Severity::Minor
    &&& is_level(level, "note"@) || is_level(level, "none"@) ==> severity == Severity::Info
}

/// Whether a score with this text was ranked.
pub open spec fn is_ranked(scores: Seq<ScoreView>, text: Seq<char>) -> bool {
    exists|i: int| 0 <= i < scores.len() && (#[trigger] scores[i]).text == text
}

proof fn levels_differ()
    ensures
        "error"@ != "warning"@ && "error"@ != "note"@ && "error"@ != "none"@,
        "warning"@ != "note"@ && "warning"@ != "none"@,
{
    reveal_strlit("error");
    reveal_strlit("warning");
    reveal_strlit("note");
    reveal_strlit("none");
    assert("error"@.len() == 5 && "warning"@.len() == 7 && "note"@.len() == 4 && "none"@.len() == 4);
}

proof fn scores_are_found(scores: Seq<ScoreView>, text: Seq<char>)
    ensures
        scored(scores, text) is Some <==> is_ranked(scores, text),
        scored(scores, text) matches Some(severity) ==> exists|i: int|
            0 <= i < scores.len() && (#[trigger] scores[i]).text == text && band_of(scores[i])
                == severity,
    decreases scores.len(),
{
    if scores.len() > 0 {
        let tail = scores.skip(1);
        scores_are_found(tail, text);
        if scores[0].text == text {
            assert(is_ranked(scores, text));
        } else {
            if is_ranked(scores, text) {
                let i = choose|i: int| 0 <= i < scores.len() && (#[trigger] scores[i]).text == text;
                assert(tail[i - 1] == scores[i]);
            }
            if is_ranked(tail, text) {
                let i = choose|i: int| 0 <= i < tail.len() && (#[trigger] tail[i]).text == text;
                assert(scores[i + 1] == tail[i]);
            }
            if let Some(severity) = scored(tail, text) {
                let i = choose|i: int|
                    0 <= i < tail.len() && (#[trigger] tail[i]).text == text && band_of(tail[i])
                        == severity;
                assert(scores[i + 1] == tail[i]);
            }
        }
    }
}

/// The score of a rule as text, without the white space around it.
pub open spec fn score_stated(rule: JsonView) -> Option<Seq<char>> {
    match rule.get("properties"@).get("security-severity"@) {
        JsonView::Number(n) => Some(n),
        JsonView::Text(s) => Some(trim(s)),
        _ => None,
    }
}

/// The rule's score decides where it is ranked; then the result's own level, where
/// it is one that SARIF defines; then the rule's default level; and without any of
/// them the severity is minor.
pub proof fn severity_is_the_most_precise_statement(
    result: JsonView,
    rule: JsonView,
    scores: Seq<ScoreView>,
)
    ensures
        ({
            let severity = result_severity(result, rule, scores);
            let own = result.get("level"@).text();
            let default = rule.get("defaultConfiguration"@).get("level"@).text();
            let by_score = score_stated(rule) matches Some(text) && is_ranked(scores, text);
            &&& by_score ==> exists|i: int|
                0 <= i < scores.len() && (#[trigger] scores[i]).text == score_stated(rule)->0 && {
                    &&& severity == Severity::Blocker <==> scores[i].at_least_nine
                    &&& severity == Severity::Critical <==> !scores[i].at_least_nine
                        && scores[i].at_least_seven
                    &&& severity == Severity::Major <==> !scores[i].at_least_nine
                        && !scores[i].at_least_seven && scores[i].at_least_four
                    &&& severity == Severity::Minor <==> !scores[i].at_least_nine
                        && !scores[i].at_least_seven && !scores[i].at_least_four
                        && scores[i].above_zero
                }
            &&& !by_score && is_known_level(own) ==> stands_for(severity, own)
            &&& !by_score && !is_known_level(own) && is_known_level(default) ==> stands_for(
                severity,
                default,
            )
            &&& !by_score && !is_known_level(own) && !is_known_level(default) ==> severity
                == Severity::Minor
        }),
{
    levels_differ();
    if let Some(text) = score_stated(rule) {
        scores_are_found(scores, text);
        if let Some(severity) = scored(scores, text) {
            let i = choose|i: int|
                0 <= i < scores.len() && (#[trigger] scores[i]).text == text && band_of(scores[i])
                    == severity;
            assert(scores[i].text == text);
        }
    }
}

// ---------------------------------------------------------------------------
// Rules
// ---------------------------------------------------------------------------

proof fn rules_are_found_by_id(rules: Seq<JsonView>, id: Seq<char>)
    ensures
        match rule_by_id(rules, id) {
            JsonView::Null => true,
            rule => exists|i: int|
                0 <= i < rules.len() && #[trigger] rules[i] == rule && rule.get("id"@).text()
                    == Some(id) && forall|j: int|
                    0 <= j < i ==> (#[trigger] rules[j]).get("id"@).text() != Some(id),
        },
        (exists|i: int| 0 <= i < rules.len() && (#[trigger] rules[i]).get("id"@).text() == Some(id))
            ==> !(rule_by_id(rules, id) is Null),
    decreases rules.len(),
{
    if rules.len() > 0 {
        let tail = rules.skip(1);
        rules_are_found_by_id(tail, id);
        if rules[0].get("id"@).text() == Some(id) {
            assert(rules[0] == rule_by_id(rules, id));
        } else {
            let rule = rule_by_id(tail, id);
            if !(rule is Null) {
                let i = choose|i: int|
                    0 <= i < tail.len() && #[trigger] tail[i] == rule && rule.get("id"@).text()
                        == Some(id) && forall|j: int|
                        0 <= j < i ==> (#[trigger] tail[j]).get("id"@).text() != Some(id);
                assert(rules[i + 1] == tail[i]);
                assert forall|j: int| 0 <= j < i + 1 implies (#[trigger] rules[j]).get(
                    "id"@,
                ).text() != Some(id) by {
                    if j > 0 {
                        assert(rules[j] == tail[j - 1]);
                    }
                }
            }
            if exists|i: int|
                0 <= i < rules.len() && (#[trigger] rules[i]).get("id"@).text() == Some(id) {
                let i = choose|i: int|
                    0 <= i < rules.len() && (#[trigger] rules[i]).get("id"@).text() == Some(id);
                assert(tail[i - 1] == rules[i]);
            }
        }
    }
}

/// The rule of a result is the one its index points at; where that points at
/// none, the first one with its id; and none that another id names.
pub proof fn results_find_their_rule(rules: Seq<JsonView>, result: JsonView)
    ensures
        match (result.get("ruleIndex"@).number_u64(), result.get("ruleId"@).text()) {
            (Some(i), id) => i < rules.len() ==> rule_of(rules, result) == rules[i as int],
            (None, Some(id)) => match rule_of(rules, result) {
                JsonView::Null => forall|i: int|
                    0 <= i < rules.len() ==> (#[trigger] rules[i]).get("id"@).text() != Some(id),
                rule => rule.get("id"@).text() == Some(id) && rules.contains(rule),
            },
            (None, None) => rule_of(rules, result) is Null,
        },
        match (result.get("ruleIndex"@).number_u64(), result.get("ruleId"@).text()) {
            (Some(i), Some(id)) => i >= rules.len() ==> match rule_of(rules, result) {
                JsonView::Null => forall|i: int|
                    0 <= i < rules.len() ==> (#[trigger] rules[i]).get("id"@).text() != Some(id),
                rule => rule.get("id"@).text() == Some(id) && rules.contains(rule),
            },
            _ => true,
        },
{
    if let Some(id) = result.get("ruleId"@).text() {
        rules_are_found_by_id(rules, id);
    }
}

// ---------------------------------------------------------------------------
// Findings
// ---------------------------------------------------------------------------

/// Where a result is: its first physical location. A `file://` in front of the
/// path says nothing, and a region that states no end ends on the line it starts.
pub open spec fn is_at(location: LocationView, result: JsonView) -> bool {
    let all = result.get("locations"@).items();
    if all.len() == 0 || all[0].get("physicalLocation"@) is Null {
        location.path.len() == 0 && location.begin_line is None && location.end_line is None
            && location.begin_column is None && location.end_column is None
    } else {
        let place = all[0].get("physicalLocation"@);
        let region = place.get("region"@);
        &&& match place.get("artifactLocation"@).get("uri"@).text() {
            Some(uri) => location.path == normalized(
                if starts_with(uri, "file://"@) {
                    uri.skip("file://"@.len() as int)
                } else {
                    uri
                },
            ),
            None => location.path.len() == 0,
        }
        &&& location.begin_line == region.get("startLine"@).number_u32()
        &&& match region.get("endLine"@).number_u32() {
            Some(line) => location.end_line == Some(line),
            None => location.end_line == region.get("startLine"@).number_u32(),
        }
        &&& location.begin_column == region.get("startColumn"@).number_u32()
        &&& location.end_column == region.get("endColumn"@).number_u32()
    }
}

/// The text of a message, else its markdown.
pub open spec fn is_text_of(text: Option<Seq<char>>, message: JsonView) -> bool {
    match message.get("text"@).text() {
        Some(plain) => text == Some(plain),
        None => text == message.get("markdown"@).text(),
    }
}

/// What a finding says of its result and its rule: the result's own id and
/// message come before the rule's.
pub open spec fn says(
    f: FindingView,
    result: JsonView,
    rule: JsonView,
    scores: Seq<ScoreView>,
) -> bool {
    &&& is_at(f.location, result)
    &&& f.severity == result_severity(result, rule, scores)
    &&& match (result.get("ruleId"@).text(), rule.get("id"@).text()) {
        (Some(id), _) => id.len() > 0 ==> f.rule_id == Some(id),
        (None, Some(id)) => id.len() > 0 ==> f.rule_id == Some(id),
        (None, None) => f.rule_id is None,
    }
    &&& match (message_text(result.get("message"@)), message_text(rule.get("shortDescription"@))) {
        (Some(text), _) => f.description == text,
        (None, Some(text)) => f.description == text,
        (None, None) => f.description == "(no message)"@,
    }
    &&& match rule.get("name"@).text() {
        Some(name) => f.title == Some(name),
        None => f.title == message_text(rule.get("shortDescription"@)),
    }
    &&& match message_text(rule.get("help"@)) {
        Some(help) => f.help == Some(help),
        None => f.help == message_text(rule.get("fullDescription"@)),
    }
    &&& match rule.get("helpUri"@).text() {
        Some(url) => f.links == seq![url],
        None => f.links.len() == 0,
    }
    &&& (result_fingerprint(result) is Some ==> f.fingerprint == result_fingerprint(result))
}

proof fn built_findings_say(result: JsonView, rule: JsonView, scores: Seq<ScoreView>)
    ensures
        says(built(result, rule, scores), result, rule, scores),
        built(result, rule, scores).fingerprint == result_fingerprint(result),
{
}

/// Messages are told by their text, else by their markdown.
pub proof fn messages_are_told_by_their_text(message: JsonView)
    ensures
        is_text_of(message_text(message), message),
{
}

proof fn results_are_taken_in(
    runs: Seq<JsonView>,
    scores: Seq<ScoreView>,
    r: int,
    i: int,
) -> (at: int)
    requires
        0 <= r < runs.len(),
        0 <= i < runs[r].get("results"@).items().len(),
    ensures
        0 <= at < with_runs(runs, scores).findings.len(),
        ({
            let result = runs[r].get("results"@).items()[i];
            let rules = runs[r].get("tool"@).get("driver"@).get("rules"@).items();
            let f = with_runs(runs, scores).findings[at];
            says(f, result, rule_of(rules, result), scores) && f.fingerprint == result_fingerprint(
                result,
            )
        }),
    decreases runs.len(),
{
    let head = runs.drop_last();
    let before = with_runs(head, scores).findings;
    let all = with_runs(runs, scores).findings;
    if r == runs.len() - 1 {
        let result = runs[r].get("results"@).items()[i];
        let rules = runs[r].get("tool"@).get("driver"@).get("rules"@).items();
        built_findings_say(result, rule_of(rules, result), scores);
        assert(all[before.len() + i] == built(result, rule_of(rules, result), scores));
        before.len() + i
    } else {
        assert(head[r] == runs[r]);
        let at = results_are_taken_in(head, scores, r, i);
        assert(all[at] == before[at]);
        at
    }
}

/// Every result of every run becomes a finding that says what the result and its
/// rule say.
pub proof fn results_become_findings(
    json: JsonView,
    scores: Seq<ScoreView>,
    ctx: CtxView,
    r: int,
    i: int,
)
    requires
        decoded(json, log_shape()) is Some,
        read_spec(json, scores, ctx).0 is Ok,
        0 <= r < decoded(json, log_shape())->0.get("runs"@).items().len(),
        0 <= i < decoded(json, log_shape())->0.get("runs"@).items()[r].get("results"@).items().len(),
    ensures
        match read_spec(json, scores, ctx).0 {
            Ok(DocView::Findings(doc)) => {
                let run = decoded(json, log_shape())->0.get("runs"@).items()[r];
                let result = run.get("results"@).items()[i];
                let rules = run.get("tool"@).get("driver"@).get("rules"@).items();
                exists|k: int|
                    0 <= k < doc.findings.len() && says(
                        #[trigger] doc.findings[k],
                        result,
                        rule_of(rules, result),
                        scores,
                    ) && doc.findings[k].fingerprint is Some
            },
            _ => false,
        },
{
    let runs = decoded(json, log_shape())->0.get("runs"@).items();
    let at = results_are_taken_in(runs, scores, r, i);
    let found = with_runs(runs, scores).findings;
    let k = finishing_keeps_every_finding(found, at);
    let doc = read_spec(json, scores, ctx).0->Ok_0->Findings_0;
    assert(doc.findings == finished(found));
    let result = runs[r].get("results"@).items()[i];
    let rules = runs[r].get("tool"@).get("driver"@).get("rules"@).items();
    assert(says(doc.findings[k], result, rule_of(rules, result), scores));
}

/// How many results the runs hold.
pub open spec fn result_count(runs: Seq<JsonView>) -> nat
    decreases runs.len(),
{
    if runs.len() == 0 {
        0
    } else {
        result_count(runs.drop_last()) + runs.last().get("results"@).items().len()
    }
}

proof fn results_are_counted(runs: Seq<JsonView>, scores: Seq<ScoreView>)
    ensures
        with_runs(runs, scores).findings.len() == result_count(runs),
    decreases runs.len(),
{
    if runs.len() > 0 {
        results_are_counted(runs.drop_last(), scores);
    }
}

/// There are as many findings as results.
pub proof fn every_result_is_one_finding(json: JsonView, scores: Seq<ScoreView>, ctx: CtxView)
    ensures
        match (decoded(json, log_shape()), read_spec(json, scores, ctx).0) {
            (Some(log), Ok(DocView::Findings(doc))) => doc.findings.len() == result_count(
                log.get("runs"@).items(),
            ),
            (_, Ok(_)) => false,
            _ => true,
        },
{
    if let (Some(log), Ok(_)) = (decoded(json, log_shape()), read_spec(json, scores, ctx).0) {
        let runs = log.get("runs"@).items();
        results_are_counted(runs, scores);
        let found = with_runs(runs, scores).findings;
        sorted_props::<Finding>(
            found.map_values(|f: FindingView| f.fingerprinted()),
        );
    }
}

// ---------------------------------------------------------------------------
// Tags, fingerprints, times and versions
// ---------------------------------------------------------------------------

/// A tag whose last segment begins like a CWE, whatever its case, is that CWE's
/// identifier and no category; any other tag is a category and no identifier.
pub proof fn tags_are_identifiers_or_categories(
    result: JsonView,
    rule: JsonView,
    scores: Seq<ScoreView>,
    i: int,
)
    requires
        0 <= i < rule.get("properties"@).get("tags"@).texts().len(),
    ensures
        ({
            let f = built(result, rule, scores);
            let tag = rule.get("properties"@).get("tags"@).texts()[i];
            if names_cwe(tag) {
                f.identifiers.contains(
                    IdentifierView { kind: "cwe"@, value: uppercase(last_segment(tag)), url: None },
                )
            } else {
                f.categories.contains(tag)
            }
        }),
        forall|k: int|
            0 <= k < built(result, rule, scores).categories.len() ==> !names_cwe(
                #[trigger] built(result, rule, scores).categories[k],
            ),
{
    let tags = rule.get("properties"@).get("tags"@).texts();
    let tag = tags[i];
    let f = built(result, rule, scores);
    let to_category = |tag: Seq<char>| category_of(tag);
    let to_identifier = |tag: Seq<char>| cwe_identifier(tag);
    cwe_tags_are_told(tag);
    if names_cwe(tag) {
        kept_items_are_listed(tags, to_identifier, i);
    } else {
        kept_items_are_listed(tags, to_category, i);
    }
    assert forall|k: int| 0 <= k < f.categories.len() implies !names_cwe(
        #[trigger] f.categories[k],
    ) by {
        listed_items_were_kept(tags, to_category, k);
        let j = choose|j: int|
            0 <= j < tags.len() && to_category(#[trigger] tags[j]) == Some(f.categories[k]);
        cwe_tags_are_told(tags[j]);
    }
}

/// What stands behind the last slash of a tag.
pub open spec fn last_segment(tag: Seq<char>) -> Seq<char> {
    name_part(tag)
}

/// Whether the last segment of a tag begins like a CWE and goes on.
pub open spec fn names_cwe(tag: Seq<char>) -> bool {
    last_segment(tag).len() > 4 && lower(last_segment(tag).take(4)) == "cwe-"@
}

proof fn cwe_tags_are_told(tag: Seq<char>)
    ensures
        cwe_in(tag) == if names_cwe(tag) {
            Some(uppercase(last_segment(tag)))
        } else {
            None
        },
{
    reveal_strlit("cwe-");
    assert(lower("cwe-"@) =~= "cwe-"@);
    last_props(tag, '/');
    if last(tag, '/') < 0 {
        assert(tag.skip(0) =~= tag);
    }
}

proof fn the_least_member_is_least(list: Seq<(Seq<char>, JsonView)>)
    ensures
        match least_member(list) {
            Some(m) => list.contains(m) && forall|i: int|
                0 <= i < list.len() ==> !lex_lt((#[trigger] list[i]).0, m.0),
            None => list.len() == 0,
        },
    decreases list.len(),
{
    if list.len() > 0 {
        let head = list.drop_last();
        the_least_member_is_least(head);
        let m = least_member(list)->0;
        lex_lt_irreflexive(list.last().0);
        assert(list[list.len() - 1] == list.last());
        if let Some(b) = least_member(head) {
            let w = choose|w: int| 0 <= w < head.len() && head[w] == b;
            assert(list[w] == b);
            assert forall|i: int| 0 <= i < list.len() implies !lex_lt(
                (#[trigger] list[i]).0,
                m.0,
            ) by {
                if i < head.len() {
                    assert(head[i] == list[i]);
                    if lex_lt(list[i].0, m.0) && m == list.last() {
                        lex_lt_transitive(list[i].0, m.0, b.0);
                    }
                }
            }
        }
    }
}

/// The fingerprints that count: the partial ones, where there are any.
pub open spec fn fingerprints_of(result: JsonView) -> Seq<(Seq<char>, JsonView)> {
    if result.get("partialFingerprints"@).members().len() > 0 {
        result.get("partialFingerprints"@).members()
    } else {
        result.get("fingerprints"@).members()
    }
}

/// Whether the `i`th member has the least key.
pub open spec fn is_least(list: Seq<(Seq<char>, JsonView)>, i: int) -> bool {
    0 <= i < list.len() && forall|j: int|
        0 <= j < list.len() ==> !lex_lt((#[trigger] list[j]).0, list[i].0)
}

/// A result's fingerprint is a partial one where it has any, the one with the
/// least key; else one of its fingerprints, chosen the same way.
pub proof fn fingerprints_prefer_the_partial_ones(result: JsonView)
    ensures
        fingerprints_of(result).len() == 0 ==> result_fingerprint(result) is None,
        fingerprints_of(result).len() > 0 ==> exists|i: int| #[trigger]
            is_least(fingerprints_of(result), i) && fingerprints_of(result)[i].1.text()
                == result_fingerprint(result),
{
    let list = fingerprints_of(result);
    the_least_member_is_least(list);
    if list.len() > 0 {
        let m = least_member(list)->0;
        let i = choose|i: int| 0 <= i < list.len() && list[i] == m;
        assert(is_least(list, i));
    }
}

/// A log of another major version is refused; one without a version is read; and
/// one of another minor version than was asked for is read with a notice.
pub proof fn only_sarif_2_is_read(declared: Option<Seq<char>>, ctx: CtxView)
    ensures
        match declared {
            Some(version) => {
                let v = trim(version);
                &&& v.len() > 0 && !starts_with(v, "2."@) ==> version_checked(declared, ctx) is Err
                &&& v.len() == 0 ==> version_checked(declared, ctx) == Ok::<
                    CtxView,
                    ErrorView,
                >(ctx)
                &&& v.len() > 0 && starts_with(v, "2."@) && (ctx.version is None || ctx.version
                    == Some(v)) ==> version_checked(declared, ctx) == Ok::<
                    CtxView,
                    ErrorView,
                >(ctx)
                &&& v.len() > 0 && starts_with(v, "2."@) ==> version_checked(declared, ctx) is Ok
            },
            None => version_checked(declared, ctx) == Ok::<CtxView, ErrorView>(ctx),
        },
{
}

// ---------------------------------------------------------------------------
// Writing
// ---------------------------------------------------------------------------

/// Whether an object has this text under this key.
pub open spec fn states(object: JsonView, key: Seq<char>, text: Seq<char>) -> bool {
    object.members().contains((key, JsonView::Text(text)))
}

/// Whether an object has this number under this key, where there is one.
pub open spec fn counts(object: JsonView, key: Seq<char>, n: Option<u32>) -> bool {
    n matches Some(n) ==> object.members().contains((key, JsonView::Number(decimal(n as nat))))
}

/// Information is written as a note, a minor finding as a warning, anything above
/// as an error; the score, where there is one, tells the ranks apart.
pub proof fn severities_are_written_as_levels(severity: Severity)
    ensures
        level_name(severity) == match severity {
            Severity::Info => "note"@,
            Severity::Minor => "warning"@,
            Severity::Major => "error"@,
            Severity::Critical => "error"@,
            Severity::Blocker => "error"@,
        },
        score_name(severity) == match severity {
            Severity::Info => "0.0"@,
            Severity::Minor => "2.0"@,
            Severity::Major => "5.5"@,
            Severity::Critical => "8.0"@,
            Severity::Blocker => "9.5"@,
        },
{
}

/// A result is written with its rule, its level, its message, its place and its
/// fingerprint.
pub proof fn results_are_written_whole(f: FindingView, index: Option<nat>)
    ensures
        ({
            let item = result_item(f, index);
            let list = item.members();
            &&& (f.rule_id matches Some(rule) ==> states(item, "ruleId"@, rule))
            &&& (index matches Some(n) ==> list.contains(
                ("ruleIndex"@, JsonView::Number(decimal(n))),
            ))
            &&& states(item, "level"@, level_name(f.severity))
            &&& list.contains(("message"@, members().text("text"@, f.description).done()))
            &&& f.location.path.len() > 0 ==> list.contains(
                ("locations"@, JsonView::Array(location_items(f.location))),
            )
            &&& (f.fingerprint matches Some(print) ==> list.contains(
                ("partialFingerprints"@, members().text("udc/v1"@, print).done()),
            ))
        }),
{
    let list = result_item(f, index).members();
    let mut n: int = 0;
    if f.rule_id is Some {
        assert(list[n].0 == "ruleId"@);
        n = n + 1;
    }
    if index is Some {
        assert(list[n].0 == "ruleIndex"@);
        n = n + 1;
    }
    assert(list[n].0 == "level"@ && list[n + 1].0 == "message"@);
    n = n + 2;
    if f.location.path.len() > 0 {
        assert(location_items(f.location).len() == 1);
        assert(list[n].0 == "locations"@);
        n = n + 1;
    }
    if f.fingerprint is Some {
        assert(list[n].0 == "partialFingerprints"@);
    }
}

/// A place is written with its path and, where its first line is known, with the
/// lines and columns that are.
pub proof fn places_are_written_whole(l: LocationView)
    requires
        l.path.len() > 0,
    ensures
        ({
            let place = location_items(l)[0].get("physicalLocation"@);
            &&& location_items(l).len() == 1
            &&& place.members()[0].0 == "artifactLocation"@
            &&& states(place.members()[0].1, "uri"@, l.path)
            &&& l.begin_line is None ==> place.members().len() == 1
            &&& (l.begin_line matches Some(line) ==> {
                let region = place.members()[1].1;
                &&& place.members()[1].0 == "region"@
                &&& counts(region, "startLine"@, Some(line))
                &&& counts(region, "startColumn"@, l.begin_column)
                &&& counts(region, "endLine"@, l.end_line)
                &&& counts(region, "endColumn"@, l.end_column)
            })
        }),
{
    let item = location_items(l)[0];
    assert(item.members()[0].0 == "physicalLocation"@);
    let place = item.members()[0].1;
    assert(item.get("physicalLocation"@) == place);
    assert(place.members()[0].1.members()[0].0 == "uri"@);
    if l.begin_line is Some {
        let region = place.members()[1].1.members();
        assert(region[0].0 == "startLine"@);
        let mut n: int = 1;
        if l.begin_column is Some {
            assert(region[n].0 == "startColumn"@);
            n = n + 1;
        }
        if l.end_line is Some {
            assert(region[n].0 == "endLine"@);
            n = n + 1;
        }
        if l.end_column is Some {
            assert(region[n].0 == "endColumn"@);
        }
    }
}

/// A rule is written with its id and the level of the finding that defines it, and
/// with a score exactly where that finding has a security identifier.
pub proof fn rules_are_written_whole(id: Seq<char>, f: FindingView)
    ensures
        ({
            let item = rule_item(id, f);
            let list = item.members();
            let scored = members().text("level"@, level_name(f.severity)).done();
            &&& states(item, "id"@, id)
            &&& (f.title matches Some(title) ==> states(item, "name"@, title))
            &&& (f.help matches Some(help) ==> list.contains(
                ("help"@, members().text("text"@, help).done()),
            ))
            &&& f.links.len() > 0 ==> states(item, "helpUri"@, f.links[0])
            &&& list.contains(("defaultConfiguration"@, scored))
            &&& match properties_item(f) {
                Some(properties) => {
                    &&& list.contains(("properties"@, properties))
                    &&& f.identifiers.len() > 0 ==> states(
                        properties,
                        "security-severity"@,
                        score_name(f.severity),
                    )
                    &&& f.identifiers.len() == 0 ==> properties.members().len() == 1
                },
                None => f.identifiers.len() == 0 && f.categories.len() == 0,
            }
        }),
{
    let list = rule_item(id, f).members();
    assert(list[0].0 == "id"@);
    let mut n: int = 1;
    if f.title is Some {
        assert(list[n].0 == "name"@);
        n = n + 1;
    }
    assert(list[n].0 == "shortDescription"@);
    n = n + 1;
    if f.help is Some {
        assert(list[n].0 == "help"@);
        n = n + 1;
    }
    if f.links.len() > 0 {
        assert(list[n].0 == "helpUri"@);
        n = n + 1;
    }
    assert(list[n].0 == "defaultConfiguration"@);
    n = n + 1;
    if let Some(properties) = properties_item(f) {
        assert(list[n].0 == "properties"@);
        let own = properties.members();
        if f.identifiers.len() > 0 {
            assert(own[0].0 == "tags"@ && own[1].0 == "security-severity"@);
        }
    }
}

// ---------------------------------------------------------------------------
// Runs
// ---------------------------------------------------------------------------

/// The tool of a log is the driver of the first run that has one, and the scan
/// begins and ends with the first times that an invocation states.
pub proof fn runs_name_their_tool_and_time(
    doc: FindingsDocView,
    run: JsonView,
    scores: Seq<ScoreView>,
)
    ensures
        ({
            let after = with_run(doc, run, scores);
            let driver = run.get("tool"@).get("driver"@);
            let invocations = run.get("invocations"@).items();
            &&& doc.tool is Some ==> after.tool == doc.tool
            &&& doc.tool is None && driver is Null ==> after.tool is None
            &&& doc.tool is None && !(driver is Null) ==> {
                &&& after.tool is Some
                &&& after.tool->0.name == match driver.get("name"@).text() {
                    Some(name) => name,
                    None => "sarif"@,
                }
                &&& after.tool->0.version == match driver.get("version"@).text() {
                    Some(version) => Some(version),
                    None => driver.get("semanticVersion"@).text(),
                }
                &&& after.tool->0.url == driver.get("informationUri"@).text()
            }
            &&& doc.scan.start is Some ==> after.scan.start == doc.scan.start
            &&& doc.scan.end is Some ==> after.scan.end == doc.scan.end
            &&& doc.scan.start is None ==> is_first_time(
                after.scan.start,
                invocations,
                "startTimeUtc"@,
            )
            &&& doc.scan.end is None ==> is_first_time(after.scan.end, invocations, "endTimeUtc"@)
            &&& after.findings.len() == doc.findings.len() + run.get("results"@).items().len()
        }),
{
    let invocations = run.get("invocations"@).items();
    times_are_the_first(doc.scan.start, invocations, "startTimeUtc"@);
    times_are_the_first(doc.scan.end, invocations, "endTimeUtc"@);
}

/// Whether a time is the first that an invocation states under this key.
pub open spec fn is_first_time(
    time: Option<Seq<char>>,
    invocations: Seq<JsonView>,
    key: Seq<char>,
) -> bool {
    match time {
        Some(time) => exists|i: int|
            0 <= i < invocations.len() && time_in(#[trigger] invocations[i], key) == Some(time)
                && forall|j: int| 0 <= j < i ==> time_in(#[trigger] invocations[j], key) is None,
        None => forall|i: int|
            0 <= i < invocations.len() ==> time_in(#[trigger] invocations[i], key) is None,
    }
}

proof fn times_are_the_first(
    known: Option<Seq<char>>,
    invocations: Seq<JsonView>,
    key: Seq<char>,
)
    ensures
        known is Some ==> first_time(known, invocations, key) == known,
        known is None ==> is_first_time(first_time(known, invocations, key), invocations, key),
    decreases invocations.len(),
{
    if invocations.len() > 0 {
        let head = invocations.drop_last();
        let n = invocations.len() - 1;
        times_are_the_first(known, head, key);
        if known is None {
            let before = first_time(known, head, key);
            assert forall|i: int| 0 <= i < n implies #[trigger] invocations[i] == head[i] by {}
            if before is Some {
                let i = choose|i: int|
                    0 <= i < head.len() && time_in(#[trigger] head[i], key) == before && forall|
                        j: int,
                    | 0 <= j < i ==> time_in(#[trigger] head[j], key) is None;
                assert(time_in(invocations[i], key) == before);
                assert forall|j: int| 0 <= j < i implies time_in(
                    #[trigger] invocations[j],
                    key,
                ) is None by {
                    assert(time_in(head[j], key) is None);
                }
            } else {
                assert forall|j: int| 0 <= j < n implies time_in(
                    #[trigger] invocations[j],
                    key,
                ) is None by {
                    assert(time_in(head[j], key) is None);
                }
                assert(time_in(invocations[n], key) == time_in(invocations.last(), key));
            }
        }
    }
}

} // verus!
