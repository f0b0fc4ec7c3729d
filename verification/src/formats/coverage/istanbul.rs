//! Istanbul JSON — `coverage-final.json`, produced by `nyc` and by Jest's
//! `json` coverage reporter.
//!
//! The model is position-based rather than line-based: statements, functions
//! and branches are ranges with columns, and their counters live in separate
//! maps keyed by the same ids. A statement is collapsed to the line it starts
//! on, and of the statements starting on a line the highest count is kept, as
//! `istanbul-lib-coverage` itself does.
//!
//! Read-only: without columns, writing this format would mean fabricating every
//! position.

use vstd::prelude::*;

use crate::error::{parse_error, Error, ErrorView};
use crate::formats::coverage::gocover::{hits_on, mark, marked, marking_keeps_the_highest_count};
use crate::formats::coverage::{find_line, line_at};
use crate::json::{
    decode, decoded, dict_of, field, list_of, maybe, number_field, text_field, Fields, Json,
    JsonView, Shape,
};
use crate::model::coverage::{
    add_branch, branch_sum, no_branch, sort_doc, Branch, CoverageDoc, CoverageDocView, FileCoverage,
    FileCoverageView, Function, FunctionView, Line,
};
use crate::paths::{normalize, normalized};
use crate::registry::{read_result, Doc, DocView};
use crate::text::concat3;
use crate::value::{append_one, either, or_else, replace_at};
use crate::warn::FormatCtx;

verus! {

pub const FORMAT: &'static str = "istanbul";

// ---------------------------------------------------------------------------
// Structure
// ---------------------------------------------------------------------------

#[verifier::allow_in_spec]
pub fn range_shape() -> Shape
    returns
        Shape::Record(
            field(
                "start",
                Shape::Record(number_field("line", 4294967295, Fields::End)),
                Fields::End,
            ),
        ),
{
    Shape::Record(
        field(
            "start",
            Shape::Record(number_field("line", 4294967295, Fields::End)),
            Fields::End,
        ),
    )
}

#[verifier::allow_in_spec]
pub fn function_shape() -> Shape
    returns
        Shape::Record(
            text_field("name", field("decl", maybe(range_shape()), field(
                "loc",
                maybe(range_shape()),
                number_field("line", 4294967295, Fields::End),
            ))),
        ),
{
    Shape::Record(
        text_field("name", field("decl", maybe(range_shape()), field(
            "loc",
            maybe(range_shape()),
            number_field("line", 4294967295, Fields::End),
        ))),
    )
}

#[verifier::allow_in_spec]
pub fn branch_shape() -> Shape
    returns
        Shape::Record(
            number_field("line", 4294967295, field("loc", maybe(range_shape()), field(
                "locations",
                list_of(range_shape()),
                Fields::End,
            ))),
        ),
{
    Shape::Record(
        number_field("line", 4294967295, field("loc", maybe(range_shape()), field(
            "locations",
            list_of(range_shape()),
            Fields::End,
        ))),
    )
}

#[verifier::allow_in_spec]
pub fn counts_shape() -> Shape
    returns
        dict_of(Shape::Number(18446744073709551615)),
{
    dict_of(Shape::Number(18446744073709551615))
}

#[verifier::allow_in_spec]
pub fn report_shape() -> Shape
    returns
        dict_of(
            Shape::Record(
                text_field("path", field("statementMap", dict_of(range_shape()), field(
                    "fnMap",
                    dict_of(function_shape()),
                    field("branchMap", dict_of(branch_shape()), field("s", counts_shape(), field(
                        "f",
                        counts_shape(),
                        field(
                            "b",
                            dict_of(list_of(Shape::Number(18446744073709551615))),
                            Fields::End,
                        ),
                    ))),
                ))),
            ),
        ),
{
    dict_of(
        Shape::Record(
            text_field("path", field("statementMap", dict_of(range_shape()), field(
                "fnMap",
                dict_of(function_shape()),
                field("branchMap", dict_of(branch_shape()), field("s", counts_shape(), field(
                    "f",
                    counts_shape(),
                    field(
                        "b",
                        dict_of(list_of(Shape::Number(18446744073709551615))),
                        Fields::End,
                    ),
                ))),
            ))),
        ),
    )
}

// ---------------------------------------------------------------------------
// Lines
// ---------------------------------------------------------------------------

/// The line that a range starts on.
pub open spec fn start_line(range: JsonView) -> Option<u32> {
    range.get("start"@).get("line"@).number_u32()
}

/// Where a reader expects the function: its declaration, else its body, else
/// the line that older reports state.
pub open spec fn function_line(function: JsonView) -> Option<u32> {
    or_else(
        or_else(start_line(function.get("decl"@)), start_line(function.get("loc"@))),
        function.get("line"@).number_u32(),
    )
}

pub open spec fn first_location(branch: JsonView) -> Option<u32> {
    let all = branch.get("locations"@).items();
    if all.len() > 0 {
        start_line(all[0])
    } else {
        None
    }
}

pub open spec fn branch_line(branch: JsonView) -> Option<u32> {
    or_else(
        or_else(branch.get("line"@).number_u32(), start_line(branch.get("loc"@))),
        first_location(branch),
    )
}

pub open spec fn count_value(count: JsonView) -> u64 {
    match count.number_u64() {
        Some(n) => n,
        None => 0,
    }
}

/// The lines of these statement counts: of the statements that start on a line
/// the highest count.
pub open spec fn statement_lines(
    counts: Seq<(Seq<char>, JsonView)>,
    statements: JsonView,
) -> Seq<Line>
    decreases counts.len(),
{
    if counts.len() == 0 {
        Seq::empty()
    } else {
        let before = statement_lines(counts.drop_last(), statements);
        match start_line(statements.get(counts.last().0)) {
            Some(number) => marked(before, number, count_value(counts.last().1)),
            None => before,
        }
    }
}

/// How many of these counts are not zero.
pub open spec fn taken(counts: Seq<JsonView>) -> nat
    decreases counts.len(),
{
    if counts.len() == 0 {
        0
    } else {
        taken(counts.drop_last()) + if count_value(counts.last()) > 0 {
            1nat
        } else {
            0nat
        }
    }
}

pub open spec fn arms(counts: Seq<JsonView>) -> Branch {
    Branch { covered: taken(counts) as u32, total: counts.len() as u32 }
}

/// The lines with branches added to one. It is executable though no statement
/// may start there.
pub open spec fn branched(lines: Seq<Line>, number: u32, branch: Branch) -> Seq<Line> {
    let at = line_at(lines, number);
    if at < lines.len() {
        let known = match lines[at].branch {
            Some(b) => b,
            None => no_branch(),
        };
        lines.update(at, Line { branch: Some(add_branch(known, branch)), ..lines[at] })
    } else {
        lines.push(Line { number, hits: 0, branch: Some(branch) })
    }
}

/// The lines with these branches: several on one line contribute to the same
/// total.
pub open spec fn branched_lines(
    lines: Seq<Line>,
    counts: Seq<(Seq<char>, JsonView)>,
    branches: JsonView,
) -> Seq<Line>
    decreases counts.len(),
{
    if counts.len() == 0 {
        lines
    } else {
        let before = branched_lines(lines, counts.drop_last(), branches);
        match branch_line(branches.get(counts.last().0)) {
            Some(number) => branched(before, number, arms(counts.last().1.items())),
            None => before,
        }
    }
}

pub open spec fn function_name(function: JsonView, id: Seq<char>) -> Seq<char> {
    match function.get("name"@).text() {
        Some(name) => name,
        None => "(anonymous_"@ + id + ")"@,
    }
}

/// The functions that have a count.
pub open spec fn counted_functions(
    counts: Seq<(Seq<char>, JsonView)>,
    functions: JsonView,
) -> Seq<FunctionView>
    decreases counts.len(),
{
    if counts.len() == 0 {
        Seq::empty()
    } else {
        let before = counted_functions(counts.drop_last(), functions);
        let (id, count) = counts.last();
        let function = functions.get(id);
        if function is Null {
            before
        } else {
            before.push(
                FunctionView {
                    name: function_name(function, id),
                    signature: None,
                    line: function_line(function),
                    hits: count_value(count),
                },
            )
        }
    }
}

pub open spec fn built(path: Seq<char>, raw: JsonView) -> FileCoverageView {
    FileCoverageView {
        lines: branched_lines(
            statement_lines(raw.get("s"@).members(), raw.get("statementMap"@)),
            raw.get("b"@).members(),
            raw.get("branchMap"@),
        ),
        functions: counted_functions(raw.get("f"@).members(), raw.get("fnMap"@)),
        ..FileCoverageView::of(path)
    }
}

fn starts_on(range: &Json) -> (r: Option<u32>)
    ensures
        r == start_line(range.deep_view()),
{
    range.get("start").get("line").number_u32()
}

fn line_of_function(function: &Json) -> (r: Option<u32>)
    ensures
        r == function_line(function.deep_view()),
{
    either(
        either(starts_on(function.get("decl")), starts_on(function.get("loc"))),
        function.get("line").number_u32(),
    )
}

fn line_of_branch(branch: &Json) -> (r: Option<u32>)
    ensures
        r == branch_line(branch.deep_view()),
{
    let locations = branch.get("locations");
    let first = if locations.count() > 0 {
        starts_on(locations.item(0))
    } else {
        None
    };
    either(
        either(branch.get("line").number_u32(), starts_on(branch.get("loc"))),
        first,
    )
}

fn value_of(count: &Json) -> (r: u64)
    ensures
        r == count_value(count.deep_view()),
{
    match count.number_u64() {
        Some(n) => n,
        None => 0,
    }
}

fn read_statements(counts: &Json, statements: &Json) -> (r: Vec<Line>)
    ensures
        r.deep_view() == statement_lines(counts.deep_view().members(), statements.deep_view()),
{
    let ghost all = counts.deep_view().members();
    let mut lines: Vec<Line> = Vec::new();
    let mut i: usize = 0;
    assert(all.take(0) =~= Seq::empty());
    assert(lines.deep_view() =~= Seq::empty());
    while i < counts.member_count()
        invariant
            i <= all.len(),
            all == counts.deep_view().members(),
            lines.deep_view() == statement_lines(all.take(i as int), statements.deep_view()),
        decreases all.len() - i,
    {
        assert(all.take(i as int + 1).drop_last() =~= all.take(i as int));
        let id = counts.member_key(i);
        if let Some(number) = starts_on(statements.get(id.as_str())) {
            mark(&mut lines, number, value_of(counts.member_value(i)));
        }
        i = i + 1;
    }
    assert(all.take(i as int) =~= all);
    lines
}

fn count_arms(counts: &Json) -> (r: Branch)
    ensures
        r == arms(counts.deep_view().items()),
{
    let ghost all = counts.deep_view().items();
    let count = counts.count();
    let mut covered: usize = 0;
    let mut i: usize = 0;
    assert(all.take(0) =~= Seq::empty());
    while i < count
        invariant
            i <= count,
            count == all.len(),
            all == counts.deep_view().items(),
            covered <= i,
            covered == taken(all.take(i as int)),
        decreases count - i,
    {
        assert(all.take(i as int + 1).drop_last() =~= all.take(i as int));
        if value_of(counts.item(i)) > 0 {
            covered = covered + 1;
        }
        i = i + 1;
    }
    assert(all.take(i as int) =~= all);
    Branch {
        covered: #[verifier::truncate]
        (covered as u32),
        total: #[verifier::truncate]
        (count as u32),
    }
}

fn add_arms(lines: &mut Vec<Line>, number: u32, branch: Branch)
    ensures
        final(lines).deep_view() == branched(old(lines).deep_view(), number, branch),
{
    let at = find_line(lines, number);
    if at < lines.len() {
        let mut line = lines[at];
        let known = match line.branch {
            Some(b) => b,
            None => Branch::default(),
        };
        line.branch = Some(branch_sum(known, branch));
        replace_at(lines, at, line);
    } else {
        append_one(lines, Line { number, hits: 0, branch: Some(branch) });
    }
}

fn read_branches(lines: &mut Vec<Line>, counts: &Json, branches: &Json)
    ensures
        final(lines).deep_view() == branched_lines(
            old(lines).deep_view(),
            counts.deep_view().members(),
            branches.deep_view(),
        ),
{
    let ghost start = lines.deep_view();
    let ghost all = counts.deep_view().members();
    let mut i: usize = 0;
    assert(all.take(0) =~= Seq::empty());
    while i < counts.member_count()
        invariant
            i <= all.len(),
            all == counts.deep_view().members(),
            lines.deep_view() == branched_lines(
                start,
                all.take(i as int),
                branches.deep_view(),
            ),
        decreases all.len() - i,
    {
        assert(all.take(i as int + 1).drop_last() =~= all.take(i as int));
        let id = counts.member_key(i);
        if let Some(number) = line_of_branch(branches.get(id.as_str())) {
            add_arms(lines, number, count_arms(counts.member_value(i)));
        }
        i = i + 1;
    }
    assert(all.take(i as int) =~= all);
}

fn read_functions(counts: &Json, functions: &Json) -> (r: Vec<Function>)
    ensures
        r.deep_view() == counted_functions(counts.deep_view().members(), functions.deep_view()),
{
    let ghost all = counts.deep_view().members();
    let mut out: Vec<Function> = Vec::new();
    let mut i: usize = 0;
    assert(all.take(0) =~= Seq::empty());
    assert(out.deep_view() =~= Seq::empty());
    while i < counts.member_count()
        invariant
            i <= all.len(),
            all == counts.deep_view().members(),
            out.deep_view() == counted_functions(all.take(i as int), functions.deep_view()),
        decreases all.len() - i,
    {
        assert(all.take(i as int + 1).drop_last() =~= all.take(i as int));
        let id = counts.member_key(i);
        let function = functions.get(id.as_str());
        if !function.is_null() {
            let name = match function.get("name").text() {
                Some(name) => name,
                None => concat3("(anonymous_", id.as_str(), ")"),
            };
            append_one(
                &mut out,
                Function {
                    name,
                    signature: None,
                    line: line_of_function(function),
                    hits: value_of(counts.member_value(i)),
                },
            );
        }
        i = i + 1;
    }
    assert(all.take(i as int) =~= all);
    out
}

pub fn build(path: &str, raw: &Json) -> (r: FileCoverage)
    ensures
        r.deep_view() == built(path@, raw.deep_view()),
{
    let mut file = FileCoverage::new(path);
    let mut lines = read_statements(raw.get("s"), raw.get("statementMap"));
    read_branches(&mut lines, raw.get("b"), raw.get("branchMap"));
    file.lines = lines;
    file.functions = read_functions(raw.get("f"), raw.get("fnMap"));
    file
}

// ---------------------------------------------------------------------------
// Reading
// ---------------------------------------------------------------------------

pub open spec fn file_path(key: Seq<char>, raw: JsonView) -> Seq<char> {
    match raw.get("path"@).text() {
        Some(path) => normalized(path),
        None => normalized(key),
    }
}

pub open spec fn files_of(members: Seq<(Seq<char>, JsonView)>) -> Seq<FileCoverageView> {
    members.map_values(|m: (Seq<char>, JsonView)| built(file_path(m.0, m.1), m.1))
}

/// Whether an entry has the one key that every entry of a report has.
pub open spec fn has_statements(members: Seq<(Seq<char>, JsonView)>) -> bool {
    exists|i: int|
        0 <= i < members.len() && (#[trigger] members[i]).1.get("statementMap"@).members().len()
            > 0
}

/// The document that reading gives, or the refusal: a random document is
/// rejected rather than read as a report with nothing in it.
pub open spec fn read_spec(json: JsonView) -> Result<DocView, ErrorView> {
    match decoded(json, report_shape()) {
        None => Err(parse_error(FORMAT@, "not the structure of an Istanbul coverage map"@)),
        Some(report) => {
            let members = report.members();
            if members.len() == 0 {
                Err(
                    parse_error(
                        FORMAT@,
                        "no file entries — this does not look like an Istanbul coverage map"@,
                    ),
                )
            } else if !has_statements(members) {
                Err(
                    parse_error(
                        FORMAT@,
                        "no entry carries a `statementMap` — this does not look like an Istanbul coverage map"@,
                    ),
                )
            } else {
                Ok(
                    DocView::Coverage(
                        sort_doc(
                            CoverageDocView {
                                files: files_of(members),
                                ..CoverageDocView::empty()
                            },
                        ),
                    ),
                )
            }
        },
    }
}

fn any_statements(report: &Json) -> (r: bool)
    ensures
        r == has_statements(report.deep_view().members()),
{
    let ghost all = report.deep_view().members();
    let mut i: usize = 0;
    while i < report.member_count()
        invariant
            i <= all.len(),
            all == report.deep_view().members(),
            forall|j: int|
                0 <= j < i ==> (#[trigger] all[j]).1.get("statementMap"@).members().len() == 0,
        decreases all.len() - i,
    {
        if report.member_value(i).get("statementMap").member_count() > 0 {
            assert(all[i as int].1.get("statementMap"@).members().len() > 0);
            return true;
        }
        i = i + 1;
    }
    false
}

pub fn read(json: &Json, ctx: &mut FormatCtx) -> (r: Result<Doc, Error>)
    ensures
        read_result(r) == read_spec(json.deep_view()),
        final(ctx)@ == old(ctx)@,
{
    let report = match decode(json, &report_shape()) {
        Some(report) => report,
        None => {
            return Err(Error::parse(FORMAT, "not the structure of an Istanbul coverage map"));
        },
    };
    if report.member_count() == 0 {
        return Err(
            Error::parse(
                FORMAT,
                "no file entries — this does not look like an Istanbul coverage map",
            ),
        );
    }
    if !any_statements(&report) {
        return Err(
            Error::parse(
                FORMAT,
                "no entry carries a `statementMap` — this does not look like an Istanbul coverage map",
            ),
        );
    }
    let ghost all = report.deep_view().members();
    let ghost goal = files_of(all);
    let mut doc = CoverageDoc::default();
    let mut i: usize = 0;
    assert(doc.files.deep_view() =~= goal.take(0));
    while i < report.member_count()
        invariant
            i <= all.len(),
            all == report.deep_view().members(),
            goal == files_of(all),
            doc.deep_view() == (CoverageDocView {
                files: goal.take(i as int),
                ..CoverageDocView::empty()
            }),
        decreases all.len() - i,
    {
        let raw = report.member_value(i);
        let path = match raw.get("path").text() {
            Some(path) => normalize(path.as_str()),
            None => normalize(report.member_key(i).as_str()),
        };
        append_one(&mut doc.files, build(path.as_str(), raw));
        i = i + 1;
        assert(doc.files.deep_view() =~= goal.take(i as int));
    }
    assert(goal.take(i as int) =~= goal);
    doc.sort();
    Ok(Doc::Coverage(doc))
}

// ---------------------------------------------------------------------------
// Laws
// ---------------------------------------------------------------------------

/// Whether the `i`th count is of a statement that starts on this line.
pub open spec fn counts_line(
    counts: Seq<(Seq<char>, JsonView)>,
    statements: JsonView,
    number: u32,
    i: int,
) -> bool {
    0 <= i < counts.len() && start_line(statements.get(counts[i].0)) == Some(number)
}

/// A line has the highest count among the statements that start on it, and is
/// there only if one does.
pub proof fn lines_have_the_highest_count(
    counts: Seq<(Seq<char>, JsonView)>,
    statements: JsonView,
    number: u32,
)
    ensures
        match hits_on(statement_lines(counts, statements), number) {
            Some(hits) => {
                &&& exists|i: int|
                    #[trigger] counts_line(counts, statements, number, i) && count_value(
                        counts[i].1,
                    ) == hits
                &&& forall|i: int| #[trigger]
                    counts_line(counts, statements, number, i) ==> count_value(counts[i].1) <= hits
            },
            None => forall|i: int| !(#[trigger] counts_line(counts, statements, number, i)),
        },
    decreases counts.len(),
{
    if counts.len() > 0 {
        let rest = counts.drop_last();
        let last = counts.len() - 1;
        lines_have_the_highest_count(rest, statements, number);
        assert forall|i: int| 0 <= i < rest.len() implies counts_line(
            counts,
            statements,
            number,
            i,
        ) == #[trigger] counts_line(rest, statements, number, i) by {
            assert(rest[i] == counts[i]);
        }
        if let Some(line) = start_line(statements.get(counts.last().0)) {
            marking_keeps_the_highest_count(
                statement_lines(rest, statements),
                line,
                count_value(counts.last().1),
                number,
            );
        }
        assert(counts_line(counts, statements, number, last) == (start_line(
            statements.get(counts.last().0),
        ) == Some(number)));
        if hits_on(statement_lines(rest, statements), number) is Some {
            let w = choose|i: int| #[trigger]
                counts_line(rest, statements, number, i) && count_value(rest[i].1) == hits_on(
                    statement_lines(rest, statements),
                    number,
                )->0;
            assert(counts_line(counts, statements, number, w));
        }
        assert forall|i: int| #[trigger]
            counts_line(counts, statements, number, i) implies i == last || counts_line(
            rest,
            statements,
            number,
            i,
        ) by {
            if i < last {
                assert(counts_line(rest, statements, number, i));
            }
        }
    }
}

} // verus!
