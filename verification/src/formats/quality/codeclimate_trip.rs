//! The round trip of findings through a Code Climate report: what reading gives
//! back of what was written.

use vstd::prelude::*;

use crate::error::ErrorView;
use crate::formats::quality::codeclimate::{
    anchor, coords_item, coords_shape, issue_finding, issue_item, location_in, location_item,
    location_shape, made_fingerprint, positions_item, read_spec, report_shape, written,
};
use crate::json::{
    decoded, default_of, field, list_of, maybe, members, number_field, text_field, text_items,
    Fields, JsonView, MembersView, Shape,
};
use crate::json_echo::{
    fields_fit, filled, lists_decode, number_json, numbers_decode, record_field, records_decode,
    shape_of, slot, slot_of_opt, slot_of_value, texts_decode, Slot,
};
use crate::model::findings::{
    severity_name, severity_names_read_back, sort_doc, FindingView, FindingsDocView, LocationView,
};
use crate::paths::normalized;
use crate::registry::DocView;
use crate::text::decimal;
use crate::value::{non_empty, or_text};
use crate::warn::CtxView;

verus! {

// ---------------------------------------------------------------------------
// What is kept
// ---------------------------------------------------------------------------

/// What is kept of a place: it begins on the first line unless it says
/// otherwise. Columns come with the full report alone, and the column of an end
/// only with its line.
pub open spec fn kept_location(location: LocationView, gitlab: bool) -> LocationView {
    LocationView {
        path: normalized(location.path),
        begin_line: Some(anchor(location)),
        end_line: if gitlab {
            None
        } else {
            location.end_line
        },
        begin_column: if gitlab {
            None
        } else {
            location.begin_column
        },
        end_column: if gitlab || location.begin_column is None || location.end_line is None {
            None
        } else {
            location.end_column
        },
        ..LocationView::empty()
    }
}

/// What is kept of a finding. One without a rule is of an unknown one, and one
/// without a fingerprint has one made for it.
pub open spec fn kept_finding(finding: FindingView, gitlab: bool) -> FindingView {
    (FindingView {
        rule_id: non_empty(Some(or_text(finding.rule_id, "unknown"@))),
        categories: if gitlab {
            Seq::empty()
        } else {
            finding.categories
        },
        location: kept_location(finding.location, gitlab),
        fingerprint: non_empty(Some(or_text(finding.fingerprint, made_fingerprint(finding)))),
        ..FindingView::of(finding.description, finding.severity)
    }).fingerprinted()
}

// ---------------------------------------------------------------------------
// Places
// ---------------------------------------------------------------------------

proof fn keys()
    ensures
        "line"@.len() == 4,
        "column"@.len() == 6,
        "begin"@.len() == 5,
        "end"@.len() == 3,
        "path"@.len() == 4,
        "lines"@.len() == 5,
        "positions"@.len() == 9,
        "body"@.len() == 4,
        "type"@.len() == 4,
        "check_name"@.len() == 10 && "check_name"@[1] == 'h',
        "description"@.len() == 11 && "description"@[0] == 'd',
        "content"@.len() == 7,
        "categories"@.len() == 10 && "categories"@[1] == 'a',
        "location"@.len() == 8 && "location"@[0] == 'l',
        "severity"@.len() == 8 && "severity"@[0] == 's',
        "fingerprint"@.len() == 11 && "fingerprint"@[0] == 'f',
{
    reveal_strlit("line");
    reveal_strlit("column");
    reveal_strlit("begin");
    reveal_strlit("end");
    reveal_strlit("path");
    reveal_strlit("lines");
    reveal_strlit("positions");
    reveal_strlit("body");
    reveal_strlit("type");
    reveal_strlit("check_name");
    reveal_strlit("description");
    reveal_strlit("content");
    reveal_strlit("categories");
    reveal_strlit("location");
    reveal_strlit("severity");
    reveal_strlit("fingerprint");
}

/// An object of one number and, where there is one, another.
proof fn pairs_read(a: &'static str, n: u32, b: &'static str, k: Option<u32>)
    requires
        a@ != b@,
    ensures
        ({
            let m = members().number(a@, n as nat).opt_number(b@, k);
            let shape = Shape::Record(
                number_field(a, 4294967295, number_field(b, 4294967295, Fields::End)),
            );
            &&& decoded(m.done(), shape) is Some
            &&& decoded(m.done(), shape)->0 is Object
            &&& decoded(m.done(), shape)->0.get(a@).number_u32() == Some(n)
            &&& decoded(m.done(), shape)->0.get(b@).number_u32() == k
        }),
{
    let one = members().number(a@, n as nat);
    let m = one.opt_number(b@, k);
    let fields = number_field(a, 4294967295, number_field(b, 4294967295, Fields::End));
    let first = JsonView::Number(decimal(n as nat));
    assert(m == one.opt_value(b@, number_json(k)));
    slot_of_value(members(), a@, first, a@);
    slot_of_value(members(), a@, first, b@);
    slot_of_opt(one, b@, number_json(k), a@);
    slot_of_opt(one, b@, number_json(k), b@);
    numbers_decode(n as nat, 4294967295);
    if let Some(k) = k {
        numbers_decode(k as nat, 4294967295);
    }
    reveal_with_fuel(fields_fit, 3);
    reveal_with_fuel(shape_of, 3);
    reveal_with_fuel(decoded, 2);
    reveal_with_fuel(default_of, 2);
    record_field(m, fields, a@);
    record_field(m, fields, b@);
}

proof fn coords_read(line: u32, column: Option<u32>)
    ensures
        decoded(coords_item(line, column), coords_shape()) is Some,
        !(decoded(coords_item(line, column), coords_shape())->0 is Null),
        decoded(coords_item(line, column), coords_shape())->0.get("line"@).number_u32() == Some(
            line,
        ),
        decoded(coords_item(line, column), coords_shape())->0.get("column"@).number_u32()
            == column,
{
    keys();
    pairs_read("line", line, "column", column);
}

spec fn end_coords(location: LocationView) -> Option<JsonView> {
    match location.end_line {
        Some(line) => Some(coords_item(line, location.end_column)),
        None => None,
    }
}

proof fn positions_read(location: LocationView)
    ensures
        ({
            let shape = Shape::Record(
                field("begin", coords_shape(), field("end", coords_shape(), Fields::End)),
            );
            let r = decoded(positions_item(location), shape);
            &&& r is Some
            &&& r->0 is Object
            &&& r->0.get("begin"@).get("line"@).number_u32() == Some(anchor(location))
            &&& r->0.get("begin"@).get("column"@).number_u32() == location.begin_column
            &&& r->0.get("end"@).get("line"@).number_u32() == location.end_line
            &&& r->0.get("end"@).get("column"@).number_u32() == if location.end_line is Some {
                location.end_column
            } else {
                None
            }
        }),
{
    keys();
    let fields = field("begin", coords_shape(), field("end", coords_shape(), Fields::End));
    let first = coords_item(anchor(location), location.begin_column);
    let one = members().value("begin"@, first);
    let m = one.opt_value("end"@, end_coords(location));
    assert(positions_item(location) == m.done());
    slot_of_value(members(), "begin"@, first, "begin"@);
    slot_of_value(members(), "begin"@, first, "end"@);
    slot_of_opt(one, "end"@, end_coords(location), "begin"@);
    slot_of_opt(one, "end"@, end_coords(location), "end"@);
    coords_read(anchor(location), location.begin_column);
    if let Some(line) = location.end_line {
        coords_read(line, location.end_column);
    }
    reveal_with_fuel(fields_fit, 3);
    reveal_with_fuel(shape_of, 3);
    reveal_with_fuel(default_of, 2);
    record_field(m, fields, "begin"@);
    record_field(m, fields, "end"@);
}

/// The lines of a place, as an object.
spec fn span(location: LocationView, gitlab: bool) -> MembersView {
    members().number("begin"@, anchor(location) as nat).opt_number(
        "end"@,
        if gitlab {
            None
        } else {
            location.end_line
        },
    )
}

spec fn positions(location: LocationView, gitlab: bool) -> Option<JsonView> {
    if gitlab || location.begin_column is None {
        None
    } else {
        Some(positions_item(location))
    }
}

proof fn location_reads(location: LocationView, gitlab: bool)
    ensures
        ({
            let r = decoded(location_item(location, gitlab), location_shape());
            &&& r is Some
            &&& r->0 is Object
            &&& location_in(r->0) == kept_location(location, gitlab)
        }),
{
    keys();
    let lines_shape = Shape::Record(
        number_field("begin", 4294967295, number_field("end", 4294967295, Fields::End)),
    );
    let places_shape = Shape::Record(
        field("begin", coords_shape(), field("end", coords_shape(), Fields::End)),
    );
    let fields = text_field(
        "path",
        field("lines", maybe(lines_shape), field("positions", maybe(places_shape), Fields::End)),
    );
    let path = JsonView::Text(location.path);
    let lines = span(location, gitlab).done();
    let more = positions(location, gitlab);
    let one = members().value("path"@, path);
    let two = one.value("lines"@, lines);
    let m = two.opt_value("positions"@, more);
    assert(location_item(location, gitlab) == m.done());
    slot_of_value(members(), "path"@, path, "path"@);
    slot_of_value(members(), "path"@, path, "lines"@);
    slot_of_value(members(), "path"@, path, "positions"@);
    slot_of_value(one, "lines"@, lines, "path"@);
    slot_of_value(one, "lines"@, lines, "lines"@);
    slot_of_value(one, "lines"@, lines, "positions"@);
    slot_of_opt(two, "positions"@, more, "path"@);
    slot_of_opt(two, "positions"@, more, "lines"@);
    slot_of_opt(two, "positions"@, more, "positions"@);
    pairs_read(
        "begin",
        anchor(location),
        "end",
        if gitlab {
            None
        } else {
            location.end_line
        },
    );
    positions_read(location);
    reveal_with_fuel(fields_fit, 4);
    reveal_with_fuel(shape_of, 4);
    reveal_with_fuel(default_of, 2);
    reveal_with_fuel(decoded, 3);
    record_field(m, fields, "path"@);
    record_field(m, fields, "lines"@);
    record_field(m, fields, "positions"@);
    assert(location_shape() == Shape::Record(fields));
}

// ---------------------------------------------------------------------------
// Issues
// ---------------------------------------------------------------------------

spec fn content(finding: FindingView, gitlab: bool) -> Option<JsonView> {
    if gitlab {
        None
    } else {
        match finding.help {
            Some(body) => Some(members().text("body"@, body).done()),
            None => None,
        }
    }
}

spec fn categories(finding: FindingView, gitlab: bool) -> Option<JsonView> {
    if gitlab || finding.categories.len() == 0 {
        None
    } else {
        Some(JsonView::Array(text_items(finding.categories)))
    }
}

/// The members of an issue.
spec fn issue(finding: FindingView, gitlab: bool) -> MembersView {
    members().value("type"@, JsonView::Text("issue"@)).value(
        "check_name"@,
        JsonView::Text(or_text(finding.rule_id, "unknown"@)),
    ).value("description"@, JsonView::Text(finding.description)).opt_value(
        "content"@,
        content(finding, gitlab),
    ).opt_value("categories"@, categories(finding, gitlab)).value(
        "location"@,
        location_item(finding.location, gitlab),
    ).value("severity"@, JsonView::Text(severity_name(finding.severity))).value(
        "fingerprint"@,
        JsonView::Text(or_text(finding.fingerprint, made_fingerprint(finding))),
    )
}

proof fn issue_is_written(finding: FindingView, gitlab: bool)
    ensures
        issue_item(finding, gitlab) == issue(finding, gitlab).done(),
{
    assert(text_items(Seq::<Seq<char>>::empty()).len() == 0);
}

proof fn issue_slot(finding: FindingView, gitlab: bool, key: Seq<char>)
    ensures
        slot(issue(finding, gitlab).list, key) == if key == "type"@ {
            Slot::Once { value: JsonView::Text("issue"@) }
        } else if key == "check_name"@ {
            Slot::Once { value: JsonView::Text(or_text(finding.rule_id, "unknown"@)) }
        } else if key == "description"@ {
            Slot::Once { value: JsonView::Text(finding.description) }
        } else if key == "content"@ {
            filled(content(finding, gitlab))
        } else if key == "categories"@ {
            filled(categories(finding, gitlab))
        } else if key == "location"@ {
            Slot::Once { value: location_item(finding.location, gitlab) }
        } else if key == "severity"@ {
            Slot::Once { value: JsonView::Text(severity_name(finding.severity)) }
        } else if key == "fingerprint"@ {
            Slot::Once {
                value: JsonView::Text(or_text(finding.fingerprint, made_fingerprint(finding))),
            }
        } else {
            Slot::Absent
        },
{
    keys();
    let a = JsonView::Text("issue"@);
    let b = JsonView::Text(or_text(finding.rule_id, "unknown"@));
    let c = JsonView::Text(finding.description);
    let d = content(finding, gitlab);
    let e = categories(finding, gitlab);
    let f = location_item(finding.location, gitlab);
    let g = JsonView::Text(severity_name(finding.severity));
    let h = JsonView::Text(or_text(finding.fingerprint, made_fingerprint(finding)));
    let m1 = members().value("type"@, a);
    let m2 = m1.value("check_name"@, b);
    let m3 = m2.value("description"@, c);
    let m4 = m3.opt_value("content"@, d);
    let m5 = m4.opt_value("categories"@, e);
    let m6 = m5.value("location"@, f);
    let m7 = m6.value("severity"@, g);
    slot_of_value(members(), "type"@, a, key);
    slot_of_value(m1, "check_name"@, b, key);
    slot_of_value(m2, "description"@, c, key);
    slot_of_opt(m3, "content"@, d, key);
    slot_of_opt(m4, "categories"@, e, key);
    slot_of_value(m5, "location"@, f, key);
    slot_of_value(m6, "severity"@, g, key);
    slot_of_value(m7, "fingerprint"@, h, key);
}

spec fn body_shape() -> Shape {
    Shape::Record(text_field("body", Fields::End))
}

proof fn content_reads(body: Seq<char>)
    ensures
        decoded(members().text("body"@, body).done(), body_shape()) is Some,
{
    let m = members().value("body"@, JsonView::Text(body));
    slot_of_value(members(), "body"@, JsonView::Text(body), "body"@);
    reveal_with_fuel(fields_fit, 2);
    reveal_with_fuel(decoded, 2);
    records_decode(m, text_field("body", Fields::End));
}

spec fn issue_fields() -> Fields {
    text_field(
        "check_name",
        text_field(
            "description",
            field(
                "content",
                maybe(body_shape()),
                field(
                    "categories",
                    list_of(Shape::Text),
                    field(
                        "location",
                        maybe(location_shape()),
                        text_field("severity", text_field("fingerprint", Fields::End)),
                    ),
                ),
            ),
        ),
    )
}

proof fn issue_fits(finding: FindingView, gitlab: bool)
    ensures
        fields_fit(issue(finding, gitlab).list, issue_fields()),
{
    keys();
    issue_slot(finding, gitlab, "check_name"@);
    issue_slot(finding, gitlab, "description"@);
    issue_slot(finding, gitlab, "content"@);
    issue_slot(finding, gitlab, "categories"@);
    issue_slot(finding, gitlab, "location"@);
    issue_slot(finding, gitlab, "severity"@);
    issue_slot(finding, gitlab, "fingerprint"@);
    if let Some(body) = finding.help {
        content_reads(body);
    }
    texts_decode(finding.categories);
    location_reads(finding.location, gitlab);
    reveal_with_fuel(fields_fit, 8);
    reveal_with_fuel(decoded, 2);
}

proof fn issue_reads(finding: FindingView, gitlab: bool)
    ensures
        ({
            let r = decoded(issue_item(finding, gitlab), Shape::Record(issue_fields()));
            &&& r is Some
            &&& issue_finding(r->0) == kept_finding(finding, gitlab)
        }),
{
    keys();
    issue_is_written(finding, gitlab);
    issue_fits(finding, gitlab);
    let m = issue(finding, gitlab);
    let fields = issue_fields();
    issue_slot(finding, gitlab, "check_name"@);
    issue_slot(finding, gitlab, "description"@);
    issue_slot(finding, gitlab, "categories"@);
    issue_slot(finding, gitlab, "location"@);
    issue_slot(finding, gitlab, "severity"@);
    issue_slot(finding, gitlab, "fingerprint"@);
    reveal_with_fuel(shape_of, 8);
    reveal_with_fuel(decoded, 2);
    reveal_with_fuel(default_of, 2);
    record_field(m, fields, "check_name"@);
    record_field(m, fields, "description"@);
    record_field(m, fields, "categories"@);
    record_field(m, fields, "location"@);
    record_field(m, fields, "severity"@);
    record_field(m, fields, "fingerprint"@);
    texts_decode(finding.categories);
    location_reads(finding.location, gitlab);
    severity_names_read_back(finding.severity);
    let r = decoded(issue_item(finding, gitlab), Shape::Record(fields))->0;
    assert(r.get("categories"@).texts() =~= kept_finding(finding, gitlab).categories);
}

/// What is written as a Code Climate report reads back, in the full form and in
/// the one for GitLab: every finding with its rule, description, severity, place
/// and fingerprint, in canonical order.
pub proof fn reports_read_back(doc: FindingsDocView, gitlab: bool, ctx: CtxView)
    ensures
        match written(DocView::Findings(doc), gitlab, ctx).0 {
            Ok(json) => read_spec(json) == Ok::<DocView, ErrorView>(
                DocView::Findings(
                    sort_doc(
                        FindingsDocView {
                            findings: doc.findings.map_values(
                                |f: FindingView| kept_finding(f, gitlab),
                            ),
                            ..FindingsDocView::empty()
                        },
                    ),
                ),
            ),
            Err(_) => false,
        },
{
    let items = doc.findings.map_values(|f: FindingView| issue_item(f, gitlab));
    let shape = Shape::Record(issue_fields());
    assert(report_shape() == list_of(shape));
    assert forall|i: int| 0 <= i < items.len() implies decoded(#[trigger] items[i], shape) is Some by {
        issue_reads(doc.findings[i], gitlab);
    }
    lists_decode(items, shape);
    let read = items.map_values(|item: JsonView| decoded(item, shape)->0);
    let kept = doc.findings.map_values(|f: FindingView| kept_finding(f, gitlab));
    assert(read.map_values(|i: JsonView| issue_finding(i)) =~= kept) by {
        assert forall|i: int| 0 <= i < kept.len() implies read.map_values(
            |i: JsonView| issue_finding(i),
        )[i] == kept[i] by {
            issue_reads(doc.findings[i], gitlab);
        }
    }
}

} // verus!
