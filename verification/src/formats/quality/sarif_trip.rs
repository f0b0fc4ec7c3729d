//! The round trip of findings through a SARIF log: what reading gives back of
//! what was written.

use vstd::prelude::*;

use crate::error::ErrorView;
use crate::formats::quality::sarif::{
    built, category_of, cwe_identifier, driver_tool, invocation_shape, least_member, least_text,
    level_name, level_severity, location_items, location_shape, log_item, log_shape, message_shape,
    message_text, properties_item, properties_shape, read_spec, region_item, region_shape,
    result_fingerprint, result_item, result_location, result_notices, result_shape, results_of,
    rule_item, rule_of, rule_shape, runs_notices, score_name, scored, summary_of, table_of,
    text_item, tool_shape, version_checked, with_run, with_runs, written, ScoreView, TableView,
    SCHEMA_URI, SUPPORTED_MAJOR, VERSION,
};
use crate::json::{
    decoded, decoded_members, default_of, dict_of, field, list_of, maybe, member_at, members,
    number_field, put_member, text_field, text_items, texts_of, Fields, JsonView, MembersView,
    Shape,
};
use crate::json_echo::{
    fields_fit, filled, list_json, lists_decode, number_json, numbers_decode, record_field,
    shape_of, slot, slot_of_opt, slot_of_value, text_json, texts_decode, Slot,
};
use crate::model::findings::{
    sort_doc, FindingView, FindingsDocView, IdentifierView, LocationView, ScanWindowView, Severity,
    ToolView,
};
use crate::paths::normalized;
use crate::registry::DocView;
use crate::text::{decimal, is_white, lower, strip_prefix, trim};
use crate::value::{filter_mapped, index_in, index_in_props, non_empty, or_else, or_text};
use crate::warn::CtxView;

verus! {

// ---------------------------------------------------------------------------
// What is kept
// ---------------------------------------------------------------------------

/// The finding that defines a rule: the first one that claims it.
pub open spec fn definer(findings: Seq<FindingView>, id: Seq<char>) -> Option<FindingView>
    decreases findings.len(),
{
    if findings.len() == 0 {
        None
    } else {
        match definer(findings.drop_last(), id) {
            Some(f) => Some(f),
            None => if findings.last().rule_id == Some(id) {
                Some(findings.last())
            } else {
                None
            },
        }
    }
}

/// The finding that defines the rule of this one.
pub open spec fn rule_source(findings: Seq<FindingView>, finding: FindingView) -> Option<
    FindingView,
> {
    match finding.rule_id {
        Some(id) => definer(findings, id),
        None => None,
    }
}

/// What is kept of a place: a position only with a path, columns and ends only
/// with a line, and an end that is not given is the beginning.
pub open spec fn kept_location(location: LocationView) -> LocationView {
    let has_region = location.path.len() > 0 && location.begin_line is Some;
    LocationView {
        path: if location.path.len() == 0 {
            Seq::empty()
        } else {
            normalized(or_text(strip_prefix(location.path, "file://"@), location.path))
        },
        begin_line: if has_region {
            location.begin_line
        } else {
            None
        },
        end_line: if has_region {
            or_else(location.end_line, location.begin_line)
        } else {
            None
        },
        begin_column: if has_region {
            location.begin_column
        } else {
            None
        },
        end_column: if has_region {
            location.end_column
        } else {
            None
        },
        image: None,
        operating_system: None,
    }
}

/// The tags of a rule.
pub open spec fn tags_of(source: FindingView) -> Seq<Seq<char>> {
    source.categories + source.identifiers.map_values(|i: IdentifierView| i.value)
}

/// What is kept of a severity: the rule's own where it has a score, else the
/// level of the finding.
pub open spec fn kept_severity(
    finding: FindingView,
    source: Option<FindingView>,
    scores: Seq<ScoreView>,
) -> Severity {
    let by_score = match source {
        Some(source) => if source.identifiers.len() > 0 {
            scored(scores, score_name(source.severity))
        } else {
            None
        },
        None => None,
    };
    match by_score {
        Some(severity) => severity,
        None => match finding.severity {
            Severity::Info => Severity::Info,
            Severity::Minor => Severity::Minor,
            _ => Severity::Major,
        },
    }
}

/// What is kept of a finding, with what its rule says of it.
pub open spec fn kept_finding(
    finding: FindingView,
    source: Option<FindingView>,
    scores: Seq<ScoreView>,
) -> FindingView {
    FindingView {
        rule_id: non_empty(finding.rule_id),
        title: match source {
            Some(source) => Some(summary_of(source)),
            None => None,
        },
        description: finding.description,
        severity: kept_severity(finding, source, scores),
        categories: match source {
            Some(source) => filter_mapped(tags_of(source), |tag: Seq<char>| category_of(tag)),
            None => Seq::empty(),
        },
        location: kept_location(finding.location),
        fingerprint: finding.fingerprint,
        help: match source {
            Some(source) => source.help,
            None => None,
        },
        links: match source {
            Some(source) => if source.links.len() > 0 {
                seq![source.links[0]]
            } else {
                Seq::empty()
            },
            None => Seq::empty(),
        },
        identifiers: match source {
            Some(source) => filter_mapped(tags_of(source), |tag: Seq<char>| cwe_identifier(tag)),
            None => Seq::empty(),
        },
        component: None,
    }
}

/// The tool that a log names. A document without one names the writer.
pub open spec fn kept_tool(tool: Option<ToolView>) -> ToolView {
    match tool {
        Some(tool) => tool,
        None => ToolView { name: "udc"@, version: None, url: None },
    }
}

// ---------------------------------------------------------------------------
// The rule table
// ---------------------------------------------------------------------------

/// Every rule of the table is written by the finding that defines it, and every
/// rule that a finding claims is in the table.
proof fn table_is_defined(findings: Seq<FindingView>)
    ensures
        ({
            let table = table_of(findings);
            &&& table.ids.len() == table.rules.len()
            &&& table.ids.len() <= findings.len()
            &&& forall|k: int|
                0 <= k < table.ids.len() ==> {
                    &&& definer(findings, #[trigger] table.ids[k]) is Some
                    &&& table.rules[k] == rule_item(
                        table.ids[k],
                        definer(findings, table.ids[k])->0,
                    )
                }
            &&& forall|id: Seq<char>|
                (#[trigger] definer(findings, id) is Some) ==> table.ids.contains(id)
        }),
    decreases findings.len(),
{
    if findings.len() > 0 {
        let head = findings.drop_last();
        let last = findings.last();
        let before = table_of(head);
        let table = table_of(findings);
        table_is_defined(head);
        if let Some(id) = last.rule_id {
            index_in_props(before.ids, id);
            if index_in(before.ids, id) == before.ids.len() {
                assert(definer(head, id) is None);
                assert(table.ids[before.ids.len() as int] == id);
            }
        }
        assert forall|k: int| 0 <= k < table.ids.len() implies {
            &&& definer(findings, #[trigger] table.ids[k]) is Some
            &&& table.rules[k] == rule_item(table.ids[k], definer(findings, table.ids[k])->0)
        } by {
            if k < before.ids.len() {
                assert(table.ids[k] == before.ids[k]);
                assert(definer(head, before.ids[k]) is Some);
            }
        }
        assert forall|id: Seq<char>| (#[trigger] definer(findings, id) is Some) implies {
            table.ids.contains(id)
        } by {
            if definer(head, id) is Some {
                assert(before.ids.contains(id));
                let k = index_in(before.ids, id);
                index_in_props(before.ids, id);
                assert(table.ids[k] == id);
            } else {
                assert(last.rule_id == Some(id));
                index_in_props(before.ids, id);
                let k = index_in(before.ids, id);
                assert(table.ids[k] == id);
            }
        }
    }
}

/// A result points at the rule of its finding.
proof fn results_point_at_rules(findings: Seq<FindingView>)
    ensures
        results_of(findings).len() == findings.len(),
        forall|i: int|
            0 <= i < findings.len() ==> points_well(
                table_of(findings),
                findings[i],
                #[trigger] results_of(findings)[i],
            ),
    decreases findings.len(),
{
    if findings.len() > 0 {
        let head = findings.drop_last();
        let last = findings.last();
        let before = table_of(head);
        let table = table_of(findings);
        results_point_at_rules(head);
        table_is_defined(head);
        table_is_defined(findings);
        if let Some(id) = last.rule_id {
            index_in_props(before.ids, id);
        }
        assert forall|i: int| 0 <= i < findings.len() implies points_well(
            table,
            findings[i],
            #[trigger] results_of(findings)[i],
        ) by {
            if i < head.len() {
                assert(findings[i] == head[i]);
                assert(results_of(findings)[i] == results_of(head)[i]);
                assert(points_well(before, head[i], results_of(head)[i]));
                if let Some(id) = head[i].rule_id {
                    let at = choose|at: nat|
                        #![trigger before.ids[at as int]]
                        at < before.ids.len() && before.ids[at as int] == id && results_of(head)[i]
                            == result_item(head[i], Some(at));
                    assert(table.ids[at as int] == id);
                }
            } else if let Some(id) = last.rule_id {
                let at = index_in(before.ids, id) as nat;
                assert(table.ids[at as int] == id);
            }
        }
    }
}

spec fn points_well(table: TableView, finding: FindingView, result: JsonView) -> bool {
    match finding.rule_id {
        None => result == result_item(finding, None),
        Some(id) => exists|at: nat|
            #![trigger table.ids[at as int]]
            at < table.ids.len() && table.ids[at as int] == id && result == result_item(
                finding,
                Some(at),
            ),
    }
}

// ---------------------------------------------------------------------------
// Rules
// ---------------------------------------------------------------------------

proof fn text_reads(text: Seq<char>)
    ensures
        ({
            let r = decoded(text_item(text), message_shape());
            &&& r is Some
            &&& message_text(r->0) == Some(text)
        }),
{
    reveal_strlit("text");
    reveal_strlit("markdown");
    assert("text"@.len() == 4 && "markdown"@.len() == 8);
    let fields = text_field("text", text_field("markdown", Fields::End));
    let m = members().value("text"@, JsonView::Text(text));
    slot_of_value(members(), "text"@, JsonView::Text(text), "text"@);
    slot_of_value(members(), "text"@, JsonView::Text(text), "markdown"@);
    reveal_with_fuel(fields_fit, 3);
    reveal_with_fuel(shape_of, 3);
    reveal_with_fuel(decoded, 3);
    record_field(m, fields, "text"@);
    assert(text_item(text) == m.done());
}

spec fn score_json(source: FindingView) -> Option<JsonView> {
    if source.identifiers.len() > 0 {
        Some(JsonView::Text(score_name(source.severity)))
    } else {
        None
    }
}

proof fn properties_read(source: FindingView)
    ensures
        match properties_item(source) {
            Some(item) => {
                let r = decoded(item, properties_shape());
                &&& r is Some
                &&& item is Object
                &&& r->0.get("tags"@).texts() == tags_of(source)
                &&& r->0.get("security-severity"@) == match score_json(source) {
                    Some(value) => value,
                    None => JsonView::Null,
                }
            },
            None => tags_of(source) == Seq::<Seq<char>>::empty() && score_json(source) is None,
        },
{
    reveal_strlit("tags");
    reveal_strlit("security-severity");
    assert("tags"@.len() == 4 && "security-severity"@.len() == 17);
    let tags = tags_of(source);
    let fields = field(
        "tags",
        list_of(Shape::Text),
        field("security-severity", maybe(Shape::Any), Fields::End),
    );
    let items = text_items(tags);
    let score = score_json(source);
    let one = members().opt_value("tags"@, list_json(items));
    let m = one.opt_value("security-severity"@, score);
    slot_of_opt(members(), "tags"@, list_json(items), "tags"@);
    slot_of_opt(members(), "tags"@, list_json(items), "security-severity"@);
    slot_of_opt(one, "security-severity"@, score, "tags"@);
    slot_of_opt(one, "security-severity"@, score, "security-severity"@);
    texts_decode(tags);
    reveal_with_fuel(fields_fit, 3);
    reveal_with_fuel(shape_of, 3);
    reveal_with_fuel(decoded, 3);
    reveal_with_fuel(default_of, 2);
    record_field(m, fields, "tags"@);
    record_field(m, fields, "security-severity"@);
    if let Some(item) = properties_item(source) {
        assert(item == m.done());
        if tags.len() == 0 {
            assert(texts_of(Seq::<JsonView>::empty()) =~= tags);
        }
    } else {
        assert(tags =~= Seq::empty());
    }
}

proof fn rule_keys()
    ensures
        "id"@.len() == 2,
        "name"@.len() == 4 && "name"@[0] == 'n',
        "shortDescription"@.len() == 16,
        "fullDescription"@.len() == 15,
        "help"@.len() == 4 && "help"@[0] == 'h',
        "helpUri"@.len() == 7,
        "defaultConfiguration"@.len() == 20,
        "properties"@.len() == 10,
        "level"@.len() == 5,
{
    reveal_strlit("id");
    reveal_strlit("name");
    reveal_strlit("shortDescription");
    reveal_strlit("fullDescription");
    reveal_strlit("help");
    reveal_strlit("helpUri");
    reveal_strlit("defaultConfiguration");
    reveal_strlit("properties");
    reveal_strlit("level");
}

spec fn help_json(source: FindingView) -> Option<JsonView> {
    match source.help {
        Some(help) => Some(text_item(help)),
        None => None,
    }
}

spec fn first_link(source: FindingView) -> Option<Seq<char>> {
    if source.links.len() > 0 {
        Some(source.links[0])
    } else {
        None
    }
}

spec fn default_json(source: FindingView) -> JsonView {
    members().text("level"@, level_name(source.severity)).done()
}

/// The members of a rule.
spec fn rule_members(id: Seq<char>, source: FindingView) -> MembersView {
    members().value("id"@, JsonView::Text(id)).opt_value("name"@, text_json(source.title)).value(
        "shortDescription"@,
        text_item(summary_of(source)),
    ).opt_value("help"@, help_json(source)).opt_value(
        "helpUri"@,
        text_json(first_link(source)),
    ).value("defaultConfiguration"@, default_json(source)).opt_value(
        "properties"@,
        properties_item(source),
    )
}

proof fn rule_slot(id: Seq<char>, source: FindingView, key: Seq<char>)
    ensures
        slot(rule_members(id, source).list, key) == if key == "id"@ {
            Slot::Once { value: JsonView::Text(id) }
        } else if key == "name"@ {
            filled(text_json(source.title))
        } else if key == "shortDescription"@ {
            Slot::Once { value: text_item(summary_of(source)) }
        } else if key == "help"@ {
            filled(help_json(source))
        } else if key == "helpUri"@ {
            filled(text_json(first_link(source)))
        } else if key == "defaultConfiguration"@ {
            Slot::Once { value: default_json(source) }
        } else if key == "properties"@ {
            filled(properties_item(source))
        } else {
            Slot::Absent
        },
{
    rule_keys();
    let a = JsonView::Text(id);
    let b = text_json(source.title);
    let c = text_item(summary_of(source));
    let d = help_json(source);
    let e = text_json(first_link(source));
    let f = default_json(source);
    let m1 = members().value("id"@, a);
    let m2 = m1.opt_value("name"@, b);
    let m3 = m2.value("shortDescription"@, c);
    let m4 = m3.opt_value("help"@, d);
    let m5 = m4.opt_value("helpUri"@, e);
    let m6 = m5.value("defaultConfiguration"@, f);
    slot_of_value(members(), "id"@, a, key);
    slot_of_opt(m1, "name"@, b, key);
    slot_of_value(m2, "shortDescription"@, c, key);
    slot_of_opt(m3, "help"@, d, key);
    slot_of_opt(m4, "helpUri"@, e, key);
    slot_of_value(m5, "defaultConfiguration"@, f, key);
    slot_of_opt(m6, "properties"@, properties_item(source), key);
}

spec fn default_shape() -> Shape {
    Shape::Record(text_field("level", Fields::End))
}

proof fn default_reads(source: FindingView)
    ensures
        decoded(default_json(source), default_shape()) is Some,
{
    let level = JsonView::Text(level_name(source.severity));
    let m = members().value("level"@, level);
    slot_of_value(members(), "level"@, level, "level"@);
    reveal_with_fuel(fields_fit, 2);
    reveal_with_fuel(shape_of, 2);
    reveal_with_fuel(decoded, 2);
    record_field(m, text_field("level", Fields::End), "level"@);
}

spec fn rule_fields() -> Fields {
    text_field(
        "id",
        text_field(
            "name",
            field(
                "shortDescription",
                message_shape(),
                field(
                    "fullDescription",
                    message_shape(),
                    field(
                        "help",
                        message_shape(),
                        text_field(
                            "helpUri",
                            field(
                                "defaultConfiguration",
                                maybe(default_shape()),
                                field("properties", maybe(properties_shape()), Fields::End),
                            ),
                        ),
                    ),
                ),
            ),
        ),
    )
}

proof fn rule_fits(id: Seq<char>, source: FindingView)
    ensures
        fields_fit(rule_members(id, source).list, rule_fields()),
{
    rule_keys();
    rule_slot(id, source, "id"@);
    rule_slot(id, source, "name"@);
    rule_slot(id, source, "shortDescription"@);
    rule_slot(id, source, "fullDescription"@);
    rule_slot(id, source, "help"@);
    rule_slot(id, source, "helpUri"@);
    rule_slot(id, source, "defaultConfiguration"@);
    rule_slot(id, source, "properties"@);
    text_reads(summary_of(source));
    if let Some(help) = source.help {
        text_reads(help);
    }
    default_reads(source);
    properties_read(source);
    reveal_with_fuel(fields_fit, 9);
    reveal_with_fuel(decoded, 2);
}

/// What a rule reads as.
spec fn rule_says(rule: JsonView, id: Seq<char>, source: FindingView) -> bool {
    &&& rule is Object
    &&& rule.get("id"@).text() == Some(id)
    &&& rule.get("name"@).text() == source.title
    &&& message_text(rule.get("shortDescription"@)) == Some(summary_of(source))
    &&& message_text(rule.get("fullDescription"@)) is None
    &&& message_text(rule.get("help"@)) == source.help
    &&& rule.get("helpUri"@).text() == first_link(source)
    &&& rule.get("properties"@).get("tags"@).texts() == tags_of(source)
    &&& rule.get("properties"@).get("security-severity"@) == match score_json(source) {
        Some(value) => value,
        None => JsonView::Null,
    }
}

proof fn rule_reads(id: Seq<char>, source: FindingView)
    ensures
        decoded(rule_item(id, source), rule_shape()) is Some,
        rule_says(decoded(rule_item(id, source), rule_shape())->0, id, source),
{
    rule_keys();
    rule_fits(id, source);
    let m = rule_members(id, source);
    let fields = rule_fields();
    assert(rule_item(id, source) == m.done());
    assert(rule_shape() == Shape::Record(fields));
    rule_slot(id, source, "id"@);
    rule_slot(id, source, "name"@);
    rule_slot(id, source, "shortDescription"@);
    rule_slot(id, source, "fullDescription"@);
    rule_slot(id, source, "help"@);
    rule_slot(id, source, "helpUri"@);
    rule_slot(id, source, "properties"@);
    reveal_with_fuel(shape_of, 9);
    reveal_with_fuel(decoded, 2);
    reveal_with_fuel(default_of, 2);
    record_field(m, fields, "id"@);
    record_field(m, fields, "name"@);
    record_field(m, fields, "shortDescription"@);
    record_field(m, fields, "fullDescription"@);
    record_field(m, fields, "help"@);
    record_field(m, fields, "helpUri"@);
    record_field(m, fields, "properties"@);
    text_reads(summary_of(source));
    if let Some(help) = source.help {
        text_reads(help);
    }
    properties_read(source);
    assert(texts_of(Seq::<JsonView>::empty()) =~= Seq::empty());
}

// ---------------------------------------------------------------------------
// Places
// ---------------------------------------------------------------------------

proof fn place_keys()
    ensures
        "physicalLocation"@.len() == 16,
        "artifactLocation"@.len() == 16,
        "uri"@.len() == 3,
        "region"@.len() == 6,
        "startLine"@.len() == 9 && "startLine"@[0] == 's',
        "endLine"@.len() == 7,
        "startColumn"@.len() == 11,
        "endColumn"@.len() == 9 && "endColumn"@[0] == 'e',
{
    reveal_strlit("physicalLocation");
    reveal_strlit("artifactLocation");
    reveal_strlit("uri");
    reveal_strlit("region");
    reveal_strlit("startLine");
    reveal_strlit("endLine");
    reveal_strlit("startColumn");
    reveal_strlit("endColumn");
}

proof fn number_decodes(n: Option<u32>)
    ensures
        match number_json(n) {
            Some(value) => decoded(value, Shape::Number(4294967295)) == Some(value)
                && value.number_u32() == n,
            None => n is None,
        },
{
    if let Some(n) = n {
        numbers_decode(n as nat, 4294967295);
    }
}

spec fn region_members(location: LocationView, line: u32) -> MembersView {
    members().value("startLine"@, JsonView::Number(decimal(line as nat))).opt_value(
        "startColumn"@,
        number_json(location.begin_column),
    ).opt_value("endLine"@, number_json(location.end_line)).opt_value(
        "endColumn"@,
        number_json(location.end_column),
    )
}

proof fn region_slot(location: LocationView, line: u32, key: Seq<char>)
    ensures
        slot(region_members(location, line).list, key) == if key == "startLine"@ {
            Slot::Once { value: JsonView::Number(decimal(line as nat)) }
        } else if key == "startColumn"@ {
            filled(number_json(location.begin_column))
        } else if key == "endLine"@ {
            filled(number_json(location.end_line))
        } else if key == "endColumn"@ {
            filled(number_json(location.end_column))
        } else {
            Slot::Absent
        },
{
    place_keys();
    let a = JsonView::Number(decimal(line as nat));
    let m1 = members().value("startLine"@, a);
    let m2 = m1.opt_value("startColumn"@, number_json(location.begin_column));
    let m3 = m2.opt_value("endLine"@, number_json(location.end_line));
    slot_of_value(members(), "startLine"@, a, key);
    slot_of_opt(m1, "startColumn"@, number_json(location.begin_column), key);
    slot_of_opt(m2, "endLine"@, number_json(location.end_line), key);
    slot_of_opt(m3, "endColumn"@, number_json(location.end_column), key);
}

proof fn region_reads(location: LocationView)
    requires
        location.begin_line is Some,
    ensures
        region_item(location) is Some,
        ({
            let r = decoded(region_item(location)->0, region_shape());
            &&& r is Some
            &&& r->0 is Object
            &&& r->0.get("startLine"@).number_u32() == location.begin_line
            &&& r->0.get("endLine"@).number_u32() == location.end_line
            &&& r->0.get("startColumn"@).number_u32() == location.begin_column
            &&& r->0.get("endColumn"@).number_u32() == location.end_column
        }),
{
    place_keys();
    let line = location.begin_line->0;
    let m = region_members(location, line);
    let fields = number_field(
        "startLine",
        4294967295,
        number_field(
            "endLine",
            4294967295,
            number_field(
                "startColumn",
                4294967295,
                number_field("endColumn", 4294967295, Fields::End),
            ),
        ),
    );
    assert(region_shape() == Shape::Record(fields));
    assert(region_item(location) == Some(m.done()));
    region_slot(location, line, "startLine"@);
    region_slot(location, line, "endLine"@);
    region_slot(location, line, "startColumn"@);
    region_slot(location, line, "endColumn"@);
    number_decodes(Some(line));
    number_decodes(location.end_line);
    number_decodes(location.begin_column);
    number_decodes(location.end_column);
    reveal_with_fuel(fields_fit, 5);
    reveal_with_fuel(shape_of, 5);
    reveal_with_fuel(decoded, 2);
    reveal_with_fuel(default_of, 2);
    record_field(m, fields, "startLine"@);
    record_field(m, fields, "endLine"@);
    record_field(m, fields, "startColumn"@);
    record_field(m, fields, "endColumn"@);
}

spec fn artifact_fields() -> Fields {
    text_field("uri", Fields::End)
}

spec fn artifact_json(path: Seq<char>) -> JsonView {
    members().value("uri"@, JsonView::Text(path)).done()
}

proof fn artifact_reads(path: Seq<char>)
    ensures
        ({
            let r = decoded(artifact_json(path), Shape::Record(artifact_fields()));
            &&& r is Some
            &&& r->0 is Object
            &&& r->0.get("uri"@).text() == Some(path)
        }),
{
    let m = members().value("uri"@, JsonView::Text(path));
    slot_of_value(members(), "uri"@, JsonView::Text(path), "uri"@);
    reveal_with_fuel(fields_fit, 2);
    reveal_with_fuel(shape_of, 2);
    reveal_with_fuel(decoded, 2);
    record_field(m, artifact_fields(), "uri"@);
}

spec fn physical_fields() -> Fields {
    field(
        "artifactLocation",
        maybe(Shape::Record(artifact_fields())),
        field("region", maybe(region_shape()), Fields::End),
    )
}

spec fn physical_members(location: LocationView) -> MembersView {
    members().value("artifactLocation"@, artifact_json(location.path)).opt_value(
        "region"@,
        region_item(location),
    )
}

proof fn physical_reads(location: LocationView)
    ensures
        ({
            let r = decoded(
                physical_members(location).done(),
                Shape::Record(physical_fields()),
            );
            &&& r is Some
            &&& r->0 is Object
            &&& r->0.get("artifactLocation"@).get("uri"@).text() == Some(location.path)
            &&& match location.begin_line {
                Some(line) => {
                    &&& r->0.get("region"@).get("startLine"@).number_u32() == location.begin_line
                    &&& r->0.get("region"@).get("endLine"@).number_u32() == location.end_line
                    &&& r->0.get("region"@).get("startColumn"@).number_u32()
                        == location.begin_column
                    &&& r->0.get("region"@).get("endColumn"@).number_u32() == location.end_column
                },
                None => r->0.get("region"@) is Null,
            }
        }),
{
    place_keys();
    reveal_strlit("artifactLocation");
    reveal_strlit("region");
    let m = physical_members(location);
    let artifact = artifact_json(location.path);
    let region = region_item(location);
    let one = members().value("artifactLocation"@, artifact);
    slot_of_value(members(), "artifactLocation"@, artifact, "artifactLocation"@);
    slot_of_value(members(), "artifactLocation"@, artifact, "region"@);
    slot_of_opt(one, "region"@, region, "artifactLocation"@);
    slot_of_opt(one, "region"@, region, "region"@);
    artifact_reads(location.path);
    if location.begin_line is Some {
        region_reads(location);
    }
    reveal_with_fuel(fields_fit, 3);
    reveal_with_fuel(shape_of, 3);
    reveal_with_fuel(decoded, 2);
    reveal_with_fuel(default_of, 2);
    record_field(m, physical_fields(), "artifactLocation"@);
    record_field(m, physical_fields(), "region"@);
}

/// The list of places reads as one place, or none.
proof fn places_read(location: LocationView)
    ensures
        ({
            let items = location_items(location);
            let r = decoded(JsonView::Array(items), list_of(location_shape()));
            &&& r is Some
            &&& r->0 is Array
            &&& r->0.items().len() == items.len()
            &&& items.len() > 0 ==> {
                let physical = r->0.items()[0].get("physicalLocation"@);
                &&& physical == decoded(
                    physical_members(location).done(),
                    Shape::Record(physical_fields()),
                )->0
            }
        }),
{
    let items = location_items(location);
    let physical = physical_members(location).done();
    let fields = field(
        "physicalLocation",
        maybe(Shape::Record(physical_fields())),
        Fields::End,
    );
    let m = members().value("physicalLocation"@, physical);
    assert(location_shape() == Shape::Record(fields));
    if items.len() > 0 {
        assert(items[0] == m.done());
        slot_of_value(members(), "physicalLocation"@, physical, "physicalLocation"@);
        physical_reads(location);
        reveal_with_fuel(fields_fit, 2);
        reveal_with_fuel(shape_of, 2);
        reveal_with_fuel(decoded, 2);
        record_field(m, fields, "physicalLocation"@);
    }
    lists_decode(items, location_shape());
}

// ---------------------------------------------------------------------------
// Results
// ---------------------------------------------------------------------------

proof fn result_keys()
    ensures
        "ruleId"@.len() == 6,
        "ruleIndex"@.len() == 9 && "ruleIndex"@[0] == 'r',
        "level"@.len() == 5,
        "message"@.len() == 7,
        "locations"@.len() == 9 && "locations"@[0] == 'l',
        "relatedLocations"@.len() == 16,
        "codeFlows"@.len() == 9 && "codeFlows"@[0] == 'c',
        "fingerprints"@.len() == 12,
        "partialFingerprints"@.len() == 19,
        "fixes"@.len() == 5 && "fixes"@[0] == 'f',
        "level"@[0] == 'l',
{
    reveal_strlit("ruleId");
    reveal_strlit("ruleIndex");
    reveal_strlit("level");
    reveal_strlit("message");
    reveal_strlit("locations");
    reveal_strlit("relatedLocations");
    reveal_strlit("codeFlows");
    reveal_strlit("fingerprints");
    reveal_strlit("partialFingerprints");
    reveal_strlit("fixes");
}

spec fn index_json(index: Option<nat>) -> Option<JsonView> {
    match index {
        Some(i) => Some(JsonView::Number(decimal(i))),
        None => None,
    }
}

spec fn print_json(finding: FindingView) -> Option<JsonView> {
    match finding.fingerprint {
        Some(print) => Some(members().text("udc/v1"@, print).done()),
        None => None,
    }
}

proof fn print_reads(finding: FindingView)
    ensures
        match print_json(finding) {
            Some(value) => decoded(value, dict_of(Shape::Text)) == Some(value)
                && value.members().len() == 1 && least_text(value) == finding.fingerprint,
            None => finding.fingerprint is None,
        },
{
    if let Some(print) = finding.fingerprint {
        let list = members().text("udc/v1"@, print).list;
        assert(list.len() == 1);
        assert(list.drop_last() =~= Seq::empty());
        assert(decoded_members(list.drop_last(), Shape::Text) == Some(
            Seq::<(Seq<char>, JsonView)>::empty(),
        ));
        assert(member_at(Seq::<(Seq<char>, JsonView)>::empty(), "udc/v1"@) == 0);
        assert(list.last() == ("udc/v1"@, JsonView::Text(print)));
        assert(decoded(list.last().1, Shape::Text) == Some(list.last().1));
        assert(put_member(
            Seq::<(Seq<char>, JsonView)>::empty(),
            "udc/v1"@,
            JsonView::Text(print),
        ) =~= list);
        assert(decoded_members(list, Shape::Text) == Some(list));
        assert(least_member(list.drop_last()) is None);
        reveal_with_fuel(decoded, 2);
    }
}

/// The members of a result.
spec fn result_members(finding: FindingView, index: Option<nat>) -> MembersView {
    members().opt_value("ruleId"@, text_json(finding.rule_id)).opt_value(
        "ruleIndex"@,
        index_json(index),
    ).value("level"@, JsonView::Text(level_name(finding.severity))).value(
        "message"@,
        text_item(finding.description),
    ).opt_value("locations"@, list_json(location_items(finding.location))).opt_value(
        "partialFingerprints"@,
        print_json(finding),
    )
}

proof fn result_slot(finding: FindingView, index: Option<nat>, key: Seq<char>)
    ensures
        slot(result_members(finding, index).list, key) == if key == "ruleId"@ {
            filled(text_json(finding.rule_id))
        } else if key == "ruleIndex"@ {
            filled(index_json(index))
        } else if key == "level"@ {
            Slot::Once { value: JsonView::Text(level_name(finding.severity)) }
        } else if key == "message"@ {
            Slot::Once { value: text_item(finding.description) }
        } else if key == "locations"@ {
            filled(list_json(location_items(finding.location)))
        } else if key == "partialFingerprints"@ {
            filled(print_json(finding))
        } else {
            Slot::Absent
        },
{
    result_keys();
    let a = text_json(finding.rule_id);
    let b = index_json(index);
    let c = JsonView::Text(level_name(finding.severity));
    let d = text_item(finding.description);
    let e = list_json(location_items(finding.location));
    let m1 = members().opt_value("ruleId"@, a);
    let m2 = m1.opt_value("ruleIndex"@, b);
    let m3 = m2.value("level"@, c);
    let m4 = m3.value("message"@, d);
    let m5 = m4.opt_value("locations"@, e);
    slot_of_opt(members(), "ruleId"@, a, key);
    slot_of_opt(m1, "ruleIndex"@, b, key);
    slot_of_value(m2, "level"@, c, key);
    slot_of_value(m3, "message"@, d, key);
    slot_of_opt(m4, "locations"@, e, key);
    slot_of_opt(m5, "partialFingerprints"@, print_json(finding), key);
}

spec fn result_fields() -> Fields {
    text_field(
        "ruleId",
        number_field(
            "ruleIndex",
            18446744073709551615,
            text_field(
                "level",
                field(
                    "message",
                    message_shape(),
                    field(
                        "locations",
                        list_of(location_shape()),
                        field(
                            "relatedLocations",
                            list_of(location_shape()),
                            field(
                                "codeFlows",
                                list_of(Shape::Any),
                                field(
                                    "fingerprints",
                                    dict_of(Shape::Text),
                                    field(
                                        "partialFingerprints",
                                        dict_of(Shape::Text),
                                        field("fixes", Shape::Any, Fields::End),
                                    ),
                                ),
                            ),
                        ),
                    ),
                ),
            ),
        ),
    )
}

proof fn all_result_slots(finding: FindingView, index: Option<nat>)
    ensures
        ({
            let list = result_members(finding, index).list;
            &&& slot(list, "ruleId"@) == filled(text_json(finding.rule_id))
            &&& slot(list, "ruleIndex"@) == filled(index_json(index))
            &&& slot(list, "level"@) == (Slot::Once {
                value: JsonView::Text(level_name(finding.severity)),
            })
            &&& slot(list, "message"@) == (Slot::Once { value: text_item(finding.description) })
            &&& slot(list, "locations"@) == filled(list_json(location_items(finding.location)))
            &&& slot(list, "relatedLocations"@) is Absent
            &&& slot(list, "codeFlows"@) is Absent
            &&& slot(list, "fingerprints"@) is Absent
            &&& slot(list, "fixes"@) is Absent
            &&& slot(list, "partialFingerprints"@) == filled(print_json(finding))
        }),
{
    result_keys();
    result_slot(finding, index, "ruleId"@);
    result_slot(finding, index, "ruleIndex"@);
    result_slot(finding, index, "level"@);
    result_slot(finding, index, "message"@);
    result_slot(finding, index, "locations"@);
    result_slot(finding, index, "relatedLocations"@);
    result_slot(finding, index, "codeFlows"@);
    result_slot(finding, index, "fingerprints"@);
    result_slot(finding, index, "partialFingerprints"@);
    result_slot(finding, index, "fixes"@);
}

proof fn result_fits(finding: FindingView, index: Option<nat>)
    requires
        index is Some ==> index->0 <= u64::MAX,
    ensures
        fields_fit(result_members(finding, index).list, result_fields()),
{
    all_result_slots(finding, index);
    if let Some(i) = index {
        numbers_decode(i, 18446744073709551615);
    }
    text_reads(finding.description);
    places_read(finding.location);
    print_reads(finding);
    reveal_with_fuel(fields_fit, 11);
    reveal_with_fuel(decoded, 2);
}

/// What a result reads as.
spec fn result_says(result: JsonView, finding: FindingView, index: Option<nat>) -> bool {
    &&& result is Object
    &&& result.get("ruleId"@).text() == finding.rule_id
    &&& result.get("ruleIndex"@).number_u64() == match index {
        Some(i) => Some(i as u64),
        None => None,
    }
    &&& result.get("level"@).text() == Some(level_name(finding.severity))
    &&& message_text(result.get("message"@)) == Some(finding.description)
    &&& result_location(result) == kept_location(finding.location)
    &&& result_fingerprint(result) == finding.fingerprint
    &&& result.get("relatedLocations"@).items().len() == 0
    &&& result.get("codeFlows"@).items().len() == 0
    &&& result.get("fixes"@).items().len() == 0
}

proof fn result_reads(finding: FindingView, index: Option<nat>)
    requires
        index is Some ==> index->0 <= u64::MAX,
    ensures
        decoded(result_item(finding, index), result_shape()) is Some,
        result_says(decoded(result_item(finding, index), result_shape())->0, finding, index),
{
    result_keys();
    result_fits(finding, index);
    all_result_slots(finding, index);
    let m = result_members(finding, index);
    let fields = result_fields();
    assert(result_item(finding, index) == m.done());
    assert(result_shape() == Shape::Record(fields));
    reveal_with_fuel(shape_of, 11);
    reveal_with_fuel(decoded, 2);
    reveal_with_fuel(default_of, 2);
    record_field(m, fields, "ruleId"@);
    record_field(m, fields, "ruleIndex"@);
    record_field(m, fields, "level"@);
    record_field(m, fields, "message"@);
    record_field(m, fields, "locations"@);
    record_field(m, fields, "relatedLocations"@);
    record_field(m, fields, "codeFlows"@);
    record_field(m, fields, "fingerprints"@);
    record_field(m, fields, "partialFingerprints"@);
    record_field(m, fields, "fixes"@);
    if let Some(i) = index {
        numbers_decode(i, 18446744073709551615);
    }
    text_reads(finding.description);
    places_read(finding.location);
    physical_reads(finding.location);
    print_reads(finding);
    let r = decoded(result_item(finding, index), result_shape())->0;
    assert(result_fingerprint(r) == finding.fingerprint);
    assert(result_location(r) == kept_location(finding.location));
}

// ---------------------------------------------------------------------------
// The log
// ---------------------------------------------------------------------------

proof fn trimmed_is_itself(s: Seq<char>)
    requires
        s.len() > 0,
        !is_white(s[0]),
        !is_white(s.last()),
    ensures
        trim(s) == s,
{
}

proof fn written_scores_are_found(source: FindingView)
    ensures
        trim(score_name(source.severity)) == score_name(source.severity),
{
    reveal_strlit("9.5");
    reveal_strlit("8.0");
    reveal_strlit("5.5");
    reveal_strlit("2.0");
    reveal_strlit("0.0");
    trimmed_is_itself(score_name(source.severity));
}

proof fn written_levels_read_back(severity: Severity)
    ensures
        level_severity(Some(level_name(severity))) == Some(
            match severity {
                Severity::Info => Severity::Info,
                Severity::Minor => Severity::Minor,
                _ => Severity::Major,
            },
        ),
{
    reveal_strlit("note");
    reveal_strlit("warning");
    reveal_strlit("error");
    reveal_strlit("none");
    let name = level_name(severity);
    trimmed_is_itself(name);
    assert(lower(name) =~= name);
    assert("note"@.len() == 4 && "warning"@.len() == 7 && "error"@.len() == 5);
}

/// A result and its rule make the finding that is kept.
proof fn finding_is_built(
    result: JsonView,
    rule: JsonView,
    finding: FindingView,
    index: Option<nat>,
    source: Option<FindingView>,
    scores: Seq<ScoreView>,
)
    requires
        result_says(result, finding, index),
        match source {
            Some(source) => finding.rule_id is Some && rule_says(
                rule,
                finding.rule_id->0,
                source,
            ),
            None => finding.rule_id is None && rule is Null,
        },
    ensures
        built(result, rule, scores) == kept_finding(finding, source, scores),
{
    written_levels_read_back(finding.severity);
    let made = built(result, rule, scores);
    let kept = kept_finding(finding, source, scores);
    assert(texts_of(Seq::<JsonView>::empty()) =~= Seq::empty());
    match source {
        Some(source) => {
            written_scores_are_found(source);
        },
        None => {
            assert(rule.get("properties"@).get("tags"@).texts() =~= Seq::empty());
        },
    }
    assert(made.severity == kept.severity);
    assert(made.links =~= kept.links);
    assert(made.categories =~= kept.categories);
    assert(made.identifiers =~= kept.identifiers);
}

proof fn log_keys()
    ensures
        "$schema"@.len() == 7 && "$schema"@[0] == '$',
        "version"@.len() == 7 && "version"@[0] == 'v',
        "runs"@.len() == 4,
        "tool"@.len() == 4,
        "invocations"@.len() == 11,
        "results"@.len() == 7,
        "taxonomies"@.len() == 10,
        "driver"@.len() == 6,
        "name"@.len() == 4,
        "semanticVersion"@.len() == 15,
        "informationUri"@.len() == 14,
        "rules"@.len() == 5,
{
    reveal_strlit("$schema");
    reveal_strlit("version");
    reveal_strlit("runs");
    reveal_strlit("tool");
    reveal_strlit("invocations");
    reveal_strlit("results");
    reveal_strlit("taxonomies");
    reveal_strlit("driver");
    reveal_strlit("name");
    reveal_strlit("semanticVersion");
    reveal_strlit("informationUri");
    reveal_strlit("rules");
}

spec fn driver_members(doc: FindingsDocView) -> MembersView {
    members().value("name"@, JsonView::Text(kept_tool(doc.tool).name)).opt_value(
        "version"@,
        text_json(kept_tool(doc.tool).version),
    ).opt_value("informationUri"@, text_json(kept_tool(doc.tool).url)).opt_value(
        "rules"@,
        list_json(table_of(doc.findings).rules),
    )
}

proof fn driver_slot(doc: FindingsDocView, key: Seq<char>)
    ensures
        slot(driver_members(doc).list, key) == if key == "name"@ {
            Slot::Once { value: JsonView::Text(kept_tool(doc.tool).name) }
        } else if key == "version"@ {
            filled(text_json(kept_tool(doc.tool).version))
        } else if key == "informationUri"@ {
            filled(text_json(kept_tool(doc.tool).url))
        } else if key == "rules"@ {
            filled(list_json(table_of(doc.findings).rules))
        } else {
            Slot::Absent
        },
{
    log_keys();
    let tool = kept_tool(doc.tool);
    let rules = list_json(table_of(doc.findings).rules);
    let m1 = members().value("name"@, JsonView::Text(tool.name));
    let m2 = m1.opt_value("version"@, text_json(tool.version));
    let m3 = m2.opt_value("informationUri"@, text_json(tool.url));
    slot_of_value(members(), "name"@, JsonView::Text(tool.name), key);
    slot_of_opt(m1, "version"@, text_json(tool.version), key);
    slot_of_opt(m2, "informationUri"@, text_json(tool.url), key);
    slot_of_opt(m3, "rules"@, rules, key);
}

spec fn driver_fields() -> Fields {
    text_field(
        "name",
        text_field(
            "version",
            text_field(
                "semanticVersion",
                text_field(
                    "informationUri",
                    field("rules", list_of(rule_shape()), Fields::End),
                ),
            ),
        ),
    )
}

/// The rules as they are read.
spec fn rules_read(findings: Seq<FindingView>) -> Seq<JsonView> {
    table_of(findings).rules.map_values(|item: JsonView| decoded(item, rule_shape())->0)
}

proof fn rules_decode(findings: Seq<FindingView>)
    ensures
        decoded(JsonView::Array(table_of(findings).rules), list_of(rule_shape())) == Some(
            JsonView::Array(rules_read(findings)),
        ),
{
    let rules = table_of(findings).rules;
    table_is_defined(findings);
    assert forall|i: int| 0 <= i < rules.len() implies decoded(
        #[trigger] rules[i],
        rule_shape(),
    ) is Some by {
        let id = table_of(findings).ids[i];
        rule_reads(id, definer(findings, id)->0);
    }
    lists_decode(rules, rule_shape());
}

proof fn driver_reads(doc: FindingsDocView)
    ensures
        ({
            let r = decoded(driver_members(doc).done(), Shape::Record(driver_fields()));
            &&& r is Some
            &&& r->0 is Object
            &&& driver_tool(r->0) == Some(kept_tool(doc.tool))
            &&& r->0.get("rules"@).items() == rules_read(doc.findings)
        }),
{
    log_keys();
    let m = driver_members(doc);
    let fields = driver_fields();
    driver_slot(doc, "name"@);
    driver_slot(doc, "version"@);
    driver_slot(doc, "semanticVersion"@);
    driver_slot(doc, "informationUri"@);
    driver_slot(doc, "rules"@);
    rules_decode(doc.findings);
    reveal_with_fuel(fields_fit, 6);
    reveal_with_fuel(shape_of, 6);
    reveal_with_fuel(decoded, 2);
    reveal_with_fuel(default_of, 2);
    record_field(m, fields, "name"@);
    record_field(m, fields, "version"@);
    record_field(m, fields, "semanticVersion"@);
    record_field(m, fields, "informationUri"@);
    record_field(m, fields, "rules"@);
    if table_of(doc.findings).rules.len() == 0 {
        assert(rules_read(doc.findings) =~= Seq::empty());
    }
}

spec fn tool_members(doc: FindingsDocView) -> MembersView {
    members().value("driver"@, driver_members(doc).done())
}

proof fn tool_reads(doc: FindingsDocView)
    ensures
        ({
            let r = decoded(tool_members(doc).done(), tool_shape());
            &&& r is Some
            &&& r->0 is Object
            &&& driver_tool(r->0.get("driver"@)) == Some(kept_tool(doc.tool))
            &&& r->0.get("driver"@).get("rules"@).items() == rules_read(doc.findings)
        }),
{
    let driver = driver_members(doc).done();
    let fields = field("driver", maybe(Shape::Record(driver_fields())), Fields::End);
    assert(tool_shape() == Shape::Record(fields));
    slot_of_value(members(), "driver"@, driver, "driver"@);
    driver_reads(doc);
    reveal_with_fuel(fields_fit, 2);
    reveal_with_fuel(shape_of, 2);
    reveal_with_fuel(decoded, 2);
    record_field(tool_members(doc), fields, "driver"@);
}

/// The results as they are read.
spec fn results_read(findings: Seq<FindingView>) -> Seq<JsonView> {
    results_of(findings).map_values(|item: JsonView| decoded(item, result_shape())->0)
}

/// What each result is read as, and which rule it has.
proof fn results_decode(findings: Seq<FindingView>, scores: Seq<ScoreView>)
    requires
        findings.len() <= u64::MAX,
    ensures
        decoded(JsonView::Array(results_of(findings)), list_of(result_shape())) == Some(
            JsonView::Array(results_read(findings)),
        ),
        results_read(findings).len() == findings.len(),
        forall|i: int|
            0 <= i < findings.len() ==> {
                let result = #[trigger] results_read(findings)[i];
                &&& result.get("relatedLocations"@).items().len() == 0
                &&& result.get("codeFlows"@).items().len() == 0
                &&& result.get("fixes"@).items().len() == 0
                &&& built(result, rule_of(rules_read(findings), result), scores) == kept_finding(
                    findings[i],
                    rule_source(findings, findings[i]),
                    scores,
                )
            },
{
    let results = results_of(findings);
    let table = table_of(findings);
    let rules = rules_read(findings);
    table_is_defined(findings);
    results_point_at_rules(findings);
    assert forall|i: int| 0 <= i < findings.len() implies ({
        let result = decoded(#[trigger] results[i], result_shape())->0;
        &&& decoded(results[i], result_shape()) is Some
        &&& result.get("relatedLocations"@).items().len() == 0
        &&& result.get("codeFlows"@).items().len() == 0
        &&& result.get("fixes"@).items().len() == 0
        &&& built(result, rule_of(rules, result), scores) == kept_finding(
            findings[i],
            rule_source(findings, findings[i]),
            scores,
        )
    }) by {
        let finding = findings[i];
        assert(points_well(table, finding, results[i]));
        match finding.rule_id {
            None => {
                result_reads(finding, None);
                let result = decoded(results[i], result_shape())->0;
                finding_is_built(result, rule_of(rules, result), finding, None, None, scores);
            },
            Some(id) => {
                let at = choose|at: nat|
                    #![trigger table.ids[at as int]]
                    at < table.ids.len() && table.ids[at as int] == id && results[i]
                        == result_item(finding, Some(at));
                result_reads(finding, Some(at));
                let result = decoded(results[i], result_shape())->0;
                let source = definer(findings, id)->0;
                rule_reads(id, source);
                assert(table.ids[at as int] == id);
                assert(rule_of(rules, result) == rules[at as int]);
                finding_is_built(
                    result,
                    rule_of(rules, result),
                    finding,
                    Some(at),
                    Some(source),
                    scores,
                );
            },
        }
    }
    lists_decode(results, result_shape());
    assert forall|i: int| 0 <= i < findings.len() implies ({
        let result = #[trigger] results_read(findings)[i];
        &&& result.get("relatedLocations"@).items().len() == 0
        &&& result.get("codeFlows"@).items().len() == 0
        &&& result.get("fixes"@).items().len() == 0
        &&& built(result, rule_of(rules, result), scores) == kept_finding(
            findings[i],
            rule_source(findings, findings[i]),
            scores,
        )
    }) by {
        assert(results_read(findings)[i] == decoded(results[i], result_shape())->0);
    }
}

spec fn run_fields() -> Fields {
    field(
        "tool",
        maybe(tool_shape()),
        field(
            "invocations",
            list_of(invocation_shape()),
            field(
                "results",
                list_of(result_shape()),
                field("taxonomies", Shape::Any, Fields::End),
            ),
        ),
    )
}

spec fn run_members(doc: FindingsDocView) -> MembersView {
    members().value("tool"@, tool_members(doc).done()).value(
        "results"@,
        JsonView::Array(results_of(doc.findings)),
    )
}

proof fn run_reads(doc: FindingsDocView)
    requires
        doc.findings.len() <= u64::MAX,
    ensures
        ({
            let r = decoded(run_members(doc).done(), Shape::Record(run_fields()));
            &&& r is Some
            &&& driver_tool(r->0.get("tool"@).get("driver"@)) == Some(kept_tool(doc.tool))
            &&& r->0.get("tool"@).get("driver"@).get("rules"@).items() == rules_read(doc.findings)
            &&& r->0.get("invocations"@).items() == Seq::<JsonView>::empty()
            &&& r->0.get("results"@).items() == results_read(doc.findings)
            &&& r->0.get("taxonomies"@).items() == Seq::<JsonView>::empty()
        }),
{
    log_keys();
    let m = run_members(doc);
    let fields = run_fields();
    let tool = tool_members(doc).done();
    let results = JsonView::Array(results_of(doc.findings));
    let one = members().value("tool"@, tool);
    slot_of_value(members(), "tool"@, tool, "tool"@);
    slot_of_value(members(), "tool"@, tool, "invocations"@);
    slot_of_value(members(), "tool"@, tool, "results"@);
    slot_of_value(members(), "tool"@, tool, "taxonomies"@);
    slot_of_value(one, "results"@, results, "tool"@);
    slot_of_value(one, "results"@, results, "invocations"@);
    slot_of_value(one, "results"@, results, "results"@);
    slot_of_value(one, "results"@, results, "taxonomies"@);
    tool_reads(doc);
    results_decode(doc.findings, Seq::empty());
    reveal_with_fuel(fields_fit, 5);
    reveal_with_fuel(shape_of, 5);
    reveal_with_fuel(decoded, 2);
    reveal_with_fuel(default_of, 2);
    record_field(m, fields, "tool"@);
    record_field(m, fields, "invocations"@);
    record_field(m, fields, "results"@);
    record_field(m, fields, "taxonomies"@);
}

spec fn log_members(doc: FindingsDocView) -> MembersView {
    members().value("$schema"@, JsonView::Text(SCHEMA_URI@)).value(
        "version"@,
        JsonView::Text(VERSION@),
    ).value("runs"@, JsonView::Array(seq![run_members(doc).done()]))
}

proof fn log_reads(doc: FindingsDocView)
    requires
        doc.findings.len() <= u64::MAX,
    ensures
        log_item(doc) == log_members(doc).done(),
        ({
            let r = decoded(log_item(doc), log_shape());
            let run = decoded(run_members(doc).done(), Shape::Record(run_fields()))->0;
            &&& r is Some
            &&& r->0.get("version"@).text() == Some(VERSION@)
            &&& r->0.get("runs"@).items() == seq![run]
        }),
{
    log_keys();
    let m = log_members(doc);
    let shape = Shape::Record(run_fields());
    let fields = text_field("version", field("runs", list_of(shape), Fields::End));
    assert(log_shape() == Shape::Record(fields));
    let a = JsonView::Text(SCHEMA_URI@);
    let b = JsonView::Text(VERSION@);
    let items = seq![run_members(doc).done()];
    let c = JsonView::Array(items);
    let m1 = members().value("$schema"@, a);
    let m2 = m1.value("version"@, b);
    slot_of_value(members(), "$schema"@, a, "version"@);
    slot_of_value(members(), "$schema"@, a, "runs"@);
    slot_of_value(m1, "version"@, b, "version"@);
    slot_of_value(m1, "version"@, b, "runs"@);
    slot_of_value(m2, "runs"@, c, "version"@);
    slot_of_value(m2, "runs"@, c, "runs"@);
    run_reads(doc);
    lists_decode(items, shape);
    assert(items.map_values(|item: JsonView| decoded(item, shape)->0) =~= seq![
        decoded(run_members(doc).done(), shape)->0,
    ]);
    assert(log_item(doc) == m.done());
    reveal_with_fuel(fields_fit, 3);
    reveal_with_fuel(shape_of, 3);
    reveal_with_fuel(decoded, 2);
    record_field(m, fields, "version"@);
    record_field(m, fields, "runs"@);
}

proof fn nothing_is_noticed(results: Seq<JsonView>, ctx: CtxView)
    requires
        forall|i: int|
            0 <= i < results.len() ==> {
                &&& (#[trigger] results[i]).get("relatedLocations"@).items().len() == 0
                &&& results[i].get("codeFlows"@).items().len() == 0
                &&& results[i].get("fixes"@).items().len() == 0
            },
    ensures
        result_notices(results, ctx) == ctx,
    decreases results.len(),
{
    if results.len() > 0 {
        let head = results.drop_last();
        assert forall|i: int| 0 <= i < head.len() implies {
            &&& (#[trigger] head[i]).get("relatedLocations"@).items().len() == 0
            &&& head[i].get("codeFlows"@).items().len() == 0
            &&& head[i].get("fixes"@).items().len() == 0
        } by {
            assert(head[i] == results[i]);
        }
        nothing_is_noticed(head, ctx);
        assert(results[results.len() - 1] == results.last());
    }
}

/// What is written as a SARIF log reads back: the tool, and every finding with
/// its rule, level, message, place and fingerprint and with what the first
/// finding of its rule says of the rule, in canonical order. Reading it loses
/// nothing more.
pub proof fn reports_read_back(
    doc: FindingsDocView,
    scores: Seq<ScoreView>,
    writing: CtxView,
    reading: CtxView,
)
    requires
        doc.findings.len() <= u64::MAX,
    ensures
        match written(DocView::Findings(doc), writing).0 {
            Ok(json) => {
                let read = read_spec(json, scores, reading);
                &&& read.0 == Ok::<DocView, ErrorView>(
                    DocView::Findings(
                        sort_doc(
                            FindingsDocView {
                                tool: Some(kept_tool(doc.tool)),
                                scan: ScanWindowView { start: None, end: None },
                                findings: doc.findings.map_values(
                                    |f: FindingView|
                                        kept_finding(
                                            f,
                                            rule_source(doc.findings, f),
                                            scores,
                                        ).fingerprinted(),
                                ),
                            },
                        ),
                    ),
                )
                &&& version_checked(Some(VERSION@), reading) == Ok::<CtxView, ErrorView>(read.1)
            },
            Err(_) => false,
        },
{
    reveal_strlit("2.1.0");
    reveal_strlit("2.");
    trimmed_is_itself(VERSION@);
    assert(VERSION@.take(2) =~= SUPPORTED_MAJOR@);
    log_reads(doc);
    run_reads(doc);
    results_decode(doc.findings, scores);
    let run = decoded(run_members(doc).done(), Shape::Record(run_fields()))->0;
    let runs = seq![run];
    assert(runs.drop_last() =~= Seq::empty());
    let after = version_checked(Some(VERSION@), reading)->Ok_0;
    assert(version_checked(Some(VERSION@), reading) is Ok);
    nothing_is_noticed(results_read(doc.findings), after);
    assert(runs_notices(runs.drop_last(), after) == after);
    assert(runs_notices(runs, after) == after);
    assert(with_runs(runs.drop_last(), scores) == FindingsDocView::empty());
    let start = FindingsDocView::empty();
    let got = with_runs(runs, scores);
    assert(got == with_run(start, run, scores));
    let kept = doc.findings.map_values(
        |f: FindingView| kept_finding(f, rule_source(doc.findings, f), scores),
    );
    assert(got.findings =~= kept);
    assert(got.findings.map_values(|f: FindingView| f.fingerprinted()) =~= doc.findings.map_values(
        |f: FindingView|
            kept_finding(f, rule_source(doc.findings, f), scores).fingerprinted(),
    ));
}

} // verus!
