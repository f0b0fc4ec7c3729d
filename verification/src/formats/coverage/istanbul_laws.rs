//! What reading an Istanbul coverage map promises.

use vstd::prelude::*;

use crate::formats::coverage::line_at;
use crate::formats::coverage::gocover::{hits_on, line_at_props};
use crate::formats::coverage::istanbul::{
    arms, branch_line, branched, branched_lines, built, count_value, counted_functions, counts_line,
    file_path, files_of, function_line, function_name, lines_have_the_highest_count, read_spec,
    report_shape, start_line, statement_lines, taken,
};
use crate::json::{decoded, JsonView};
use crate::model::coverage::{
    distinct_lines, has_line, sort_file, Branch, FileCoverage, Function, FunctionView, Line,
};
use crate::order::{sorted, sorted_props, sorting_keeps_members};
use crate::paths::normalized;
use crate::registry::DocView;
use crate::value::flat;

verus! {

/// Whether a count is of something that ran.
pub open spec fn ran(count: JsonView) -> bool {
    count.number_u64() matches Some(n) && n != 0
}

/// Whether the `i`th branch that was counted sits on this line.
pub open spec fn sits_on(
    counts: Seq<(Seq<char>, JsonView)>,
    branches: JsonView,
    number: u32,
    i: int,
) -> bool {
    0 <= i < counts.len() && branch_line(branches.get(counts[i].0)) == Some(number)
}

/// The counts of all arms of all branches that sit on this line.
pub open spec fn arms_on(
    counts: Seq<(Seq<char>, JsonView)>,
    branches: JsonView,
    number: u32,
) -> Seq<JsonView> {
    flat(
        counts,
        |m: (Seq<char>, JsonView)|
            if branch_line(branches.get(m.0)) == Some(number) {
                m.1.items()
            } else {
                Seq::empty()
            },
    )
}

proof fn taken_arms_ran(counts: Seq<JsonView>)
    ensures
        taken(counts) == counts.filter(|c: JsonView| ran(c)).len(),
        taken(counts) <= counts.len(),
    decreases counts.len(),
{
    reveal(Seq::filter);
    if counts.len() > 0 {
        taken_arms_ran(counts.drop_last());
    }
}

/// What the lines say once these branches were added: each line once; a line has
/// a record exactly where a branch sits on it, and that record counts the arms.
spec fn tells_arms(
    lines: Seq<Line>,
    counts: Seq<(Seq<char>, JsonView)>,
    branches: JsonView,
) -> bool {
    &&& distinct_lines(lines)
    &&& forall|k: int|
        #![trigger lines[k]]
        0 <= k < lines.len() ==> {
            let all = arms_on(counts, branches, lines[k].number);
            &&& lines[k].branch is Some <==> exists|i: int| #[trigger]
                sits_on(counts, branches, lines[k].number, i)
            &&& (lines[k].branch matches Some(b) ==> (all.len() <= u32::MAX ==> b.total
                == all.len() && b.covered == all.filter(|c: JsonView| ran(c)).len()))
        }
    &&& forall|number: u32, i: int| #[trigger]
        sits_on(counts, branches, number, i) ==> has_line(lines, number)
}

proof fn one_more_branch(counts: Seq<(Seq<char>, JsonView)>, branches: JsonView, number: u32)
    requires
        counts.len() > 0,
    ensures
        arms_on(counts, branches, number) == arms_on(counts.drop_last(), branches, number) + (if
        branch_line(branches.get(counts.last().0)) == Some(number) {
            counts.last().1.items()
        } else {
            Seq::empty()
        }),
        arms_on(counts, branches, number).filter(|c: JsonView| ran(c)).len() == arms_on(
            counts.drop_last(),
            branches,
            number,
        ).filter(|c: JsonView| ran(c)).len() + (if branch_line(branches.get(counts.last().0))
            == Some(number) {
            taken(counts.last().1.items())
        } else {
            0
        }),
        (exists|i: int| #[trigger] sits_on(counts, branches, number, i)) <==> (exists|i: int|
         #[trigger] sits_on(counts.drop_last(), branches, number, i)) || branch_line(
            branches.get(counts.last().0),
        ) == Some(number),
{
    let head = counts.drop_last();
    let own = if branch_line(branches.get(counts.last().0)) == Some(number) {
        counts.last().1.items()
    } else {
        Seq::empty()
    };
    assert(arms_on(counts, branches, number) =~= arms_on(head, branches, number) + own);
    Seq::filter_distributes_over_add(
        arms_on(head, branches, number),
        own,
        |c: JsonView| ran(c),
    );
    taken_arms_ran(counts.last().1.items());
    reveal(Seq::filter);
    if exists|i: int| #[trigger] sits_on(counts, branches, number, i) {
        let i = choose|i: int| #[trigger] sits_on(counts, branches, number, i);
        if i < head.len() {
            assert(head[i] == counts[i]);
            assert(sits_on(head, branches, number, i));
        }
    }
    if exists|i: int| #[trigger] sits_on(head, branches, number, i) {
        let i = choose|i: int| #[trigger] sits_on(head, branches, number, i);
        assert(head[i] == counts[i]);
        assert(sits_on(counts, branches, number, i));
    }
    if branch_line(branches.get(counts.last().0)) == Some(number) {
        assert(sits_on(counts, branches, number, counts.len() - 1));
    }
}

#[verifier::spinoff_prover]
#[verifier::rlimit(60)]
proof fn branches_are_told(
    lines: Seq<Line>,
    counts: Seq<(Seq<char>, JsonView)>,
    branches: JsonView,
)
    requires
        distinct_lines(lines),
        forall|k: int| 0 <= k < lines.len() ==> (#[trigger] lines[k]).branch is None,
    ensures
        tells_arms(branched_lines(lines, counts, branches), counts, branches),
        forall|number: u32|
            #![trigger hits_on(branched_lines(lines, counts, branches), number)]
            hits_on(branched_lines(lines, counts, branches), number) == match hits_on(
                lines,
                number,
            ) {
                Some(hits) => Some(hits),
                None => if exists|i: int| #[trigger] sits_on(counts, branches, number, i) {
                    Some(0u64)
                } else {
                    None
                },
            },
    decreases counts.len(),
{
    if counts.len() == 0 {
        assert forall|number: u32, i: int| !(#[trigger] sits_on(counts, branches, number, i)) by {}
    } else {
        let head = counts.drop_last();
        branches_are_told(lines, head, branches);
        let before = branched_lines(lines, head, branches);
        let out = branched_lines(lines, counts, branches);
        assert forall|number: u32| #[trigger] hits_on(out, number) == match hits_on(lines, number) {
            Some(hits) => Some(hits),
            None => if exists|i: int| #[trigger] sits_on(counts, branches, number, i) {
                Some(0u64)
            } else {
                None
            },
        } by {
            one_more_branch(counts, branches, number);
            assert(hits_on(before, number) == hits_on(before, number));
            if let Some(n) = branch_line(branches.get(counts.last().0)) {
                branching_keeps_hits(before, n, arms(counts.last().1.items()), number);
            }
        }
        match branch_line(branches.get(counts.last().0)) {
            None => {
                assert forall|k: int| #![trigger out[k]] 0 <= k < out.len() implies {
                    let all = arms_on(counts, branches, out[k].number);
                    &&& out[k].branch is Some <==> exists|i: int| #[trigger]
                        sits_on(counts, branches, out[k].number, i)
                    &&& (out[k].branch matches Some(b) ==> (all.len() <= u32::MAX ==> b.total
                        == all.len() && b.covered == all.filter(|c: JsonView| ran(c)).len()))
                } by {
                    one_more_branch(counts, branches, out[k].number);
                    assert(before[k] == out[k]);
                }
                assert forall|number: u32, i: int| #[trigger]
                    sits_on(counts, branches, number, i) implies has_line(out, number) by {
                    one_more_branch(counts, branches, number);
                    let w = choose|w: int| #[trigger] sits_on(head, branches, number, w);
                    assert(sits_on(head, branches, number, w));
                }
            },
            Some(n) => {
                let own = counts.last().1.items();
                taken_arms_ran(own);
                let at = line_at(before, n);
                line_at_props(before, n);
                assert forall|k: int| #![trigger out[k]] 0 <= k < out.len() implies {
                    let all = arms_on(counts, branches, out[k].number);
                    &&& out[k].branch is Some <==> exists|i: int| #[trigger]
                        sits_on(counts, branches, out[k].number, i)
                    &&& (out[k].branch matches Some(b) ==> (all.len() <= u32::MAX ==> b.total
                        == all.len() && b.covered == all.filter(|c: JsonView| ran(c)).len()))
                } by {
                    let number = out[k].number;
                    one_more_branch(counts, branches, number);
                    taken_arms_ran_of(arms_on(head, branches, number));
                    if k < before.len() {
                        assert(before[k].number == number);
                        if k != at {
                            assert(number != n) by {
                                if at < k {
                                    assert(before[at].number != before[k].number);
                                }
                            }
                        }
                        if before[k].branch is None {
                            assert(!exists|i: int| #[trigger] sits_on(head, branches, number, i));
                            no_arms_without_a_branch(head, branches, number);
                        }
                    } else {
                        assert(number == n);
                        assert(!has_line(before, n));
                        assert(!exists|i: int| #[trigger] sits_on(head, branches, number, i));
                        no_arms_without_a_branch(head, branches, number);
                    }
                }
                assert(distinct_lines(out)) by {
                    assert forall|i: int, j: int| 0 <= i < j < out.len() implies (
                    #[trigger] out[i]).number != (#[trigger] out[j]).number by {
                        if j < before.len() {
                            assert(before[i].number != before[j].number);
                        } else {
                            assert(before[i].number != n);
                        }
                    }
                }
                assert forall|number: u32, i: int| #[trigger]
                    sits_on(counts, branches, number, i) implies has_line(out, number) by {
                    one_more_branch(counts, branches, number);
                    if number == n {
                        assert(out[at].number == n);
                    } else {
                        let w = choose|w: int| #[trigger] sits_on(head, branches, number, w);
                        assert(sits_on(head, branches, number, w));
                        let k = choose|k: int|
                            0 <= k < before.len() && (#[trigger] before[k]).number == number;
                        assert(out[k].number == number);
                    }
                }
            },
        }
    }
}

proof fn taken_arms_ran_of(counts: Seq<JsonView>)
    ensures
        counts.filter(|c: JsonView| ran(c)).len() <= counts.len(),
{
    taken_arms_ran(counts);
}

proof fn no_arms_without_a_branch(
    counts: Seq<(Seq<char>, JsonView)>,
    branches: JsonView,
    number: u32,
)
    requires
        !exists|i: int| #[trigger] sits_on(counts, branches, number, i),
    ensures
        arms_on(counts, branches, number).len() == 0,
        arms_on(counts, branches, number).filter(|c: JsonView| ran(c)).len() == 0,
    decreases counts.len(),
{
    reveal(Seq::filter);
    if counts.len() > 0 {
        one_more_branch(counts, branches, number);
        no_arms_without_a_branch(counts.drop_last(), branches, number);
    }
}

proof fn branching_keeps_hits(lines: Seq<Line>, number: u32, branch: Branch, other: u32)
    ensures
        hits_on(branched(lines, number, branch), other) == match hits_on(lines, other) {
            Some(hits) => Some(hits),
            None => if other == number {
                Some(0u64)
            } else {
                None
            },
        },
{
    let after = branched(lines, number, branch);
    line_at_props(lines, number);
    line_at_props(lines, other);
    line_at_props(after, other);
    let at = line_at(lines, number);
    let there = line_at(lines, other);
    let now = line_at(after, other);
    if now < there && now < lines.len() {
        assert(after[now].number == other);
        assert(lines[now].number == after[now].number);
    }
    if there < now && there < lines.len() {
        assert(after[there].number == lines[there].number);
    }
    if other == number && at == lines.len() {
        assert(after[at].number == number);
    }
}

proof fn statements_make_plain_lines(counts: Seq<(Seq<char>, JsonView)>, statements: JsonView)
    ensures
        distinct_lines(statement_lines(counts, statements)),
        forall|k: int|
            0 <= k < statement_lines(counts, statements).len() ==> (#[trigger] statement_lines(
                counts,
                statements,
            )[k]).branch is None,
    decreases counts.len(),
{
    if counts.len() > 0 {
        statements_make_plain_lines(counts.drop_last(), statements);
        let before = statement_lines(counts.drop_last(), statements);
        let out = statement_lines(counts, statements);
        if let Some(n) = start_line(statements.get(counts.last().0)) {
            line_at_props(before, n);
            assert forall|i: int, j: int| 0 <= i < j < out.len() implies (#[trigger] out[i]).number
                != (#[trigger] out[j]).number by {
                if j < before.len() {
                    assert(before[i].number != before[j].number);
                } else {
                    assert(before[i].number != n);
                }
            }
            assert forall|k: int| 0 <= k < out.len() implies (#[trigger] out[k]).branch is None by {
                if k < before.len() {
                    assert(before[k].branch is None);
                }
            }
        }
    }
}

/// The branches of a line. Its total is the number of arms of all branches that
/// sit on it, and its covered ones are the arms that ran at all: all of them
/// exactly where no arm's count is zero, none exactly where every count is. A
/// line has a record exactly where a branch sits on it, and each line is there
/// once.
pub proof fn branches_count_the_arms_that_ran(path: Seq<char>, raw: JsonView, k: int)
    requires
        0 <= k < built(path, raw).lines.len(),
    ensures
        distinct_lines(built(path, raw).lines),
        ({
            let line = built(path, raw).lines[k];
            let counts = raw.get("b"@).members();
            let branches = raw.get("branchMap"@);
            let all = arms_on(counts, branches, line.number);
            &&& line.branch is Some <==> exists|i: int| #[trigger]
                sits_on(counts, branches, line.number, i)
            &&& (line.branch matches Some(b) ==> (all.len() <= u32::MAX ==> {
                &&& b.total == all.len()
                &&& b.covered == all.filter(|c: JsonView| ran(c)).len()
                &&& b.covered == b.total <==> forall|i: int| 0 <= i < all.len() ==> ran(#[trigger] all[i])
                &&& b.covered == 0 <==> forall|i: int| 0 <= i < all.len() ==> !ran(#[trigger] all[i])
            }))
        }),
{
    let statements = statement_lines(raw.get("s"@).members(), raw.get("statementMap"@));
    statements_make_plain_lines(raw.get("s"@).members(), raw.get("statementMap"@));
    branches_are_told(statements, raw.get("b"@).members(), raw.get("branchMap"@));
    let line = built(path, raw).lines[k];
    let all = arms_on(raw.get("b"@).members(), raw.get("branchMap"@), line.number);
    counted_fully(all);
}

proof fn counted_fully(all: Seq<JsonView>)
    ensures
        all.filter(|c: JsonView| ran(c)).len() <= all.len(),
        all.filter(|c: JsonView| ran(c)).len() == all.len() <==> forall|i: int|
            0 <= i < all.len() ==> ran(#[trigger] all[i]),
        all.filter(|c: JsonView| ran(c)).len() == 0 <==> forall|i: int|
            0 <= i < all.len() ==> !ran(#[trigger] all[i]),
    decreases all.len(),
{
    reveal(Seq::filter);
    if all.len() > 0 {
        let head = all.drop_last();
        counted_fully(head);
        assert(all[all.len() - 1] == all.last());
        if forall|i: int| 0 <= i < all.len() ==> ran(#[trigger] all[i]) {
            assert forall|i: int| 0 <= i < head.len() implies ran(#[trigger] head[i]) by {
                assert(all[i] == head[i]);
            }
        }
        if forall|i: int| 0 <= i < all.len() ==> !ran(#[trigger] all[i]) {
            assert forall|i: int| 0 <= i < head.len() implies !ran(#[trigger] head[i]) by {
                assert(all[i] == head[i]);
            }
        }
        if ran(all.last()) && forall|i: int| 0 <= i < head.len() ==> ran(#[trigger] head[i]) {
            assert forall|i: int| 0 <= i < all.len() implies ran(#[trigger] all[i]) by {
                if i < head.len() {
                    assert(all[i] == head[i]);
                }
            }
        }
        if !ran(all.last()) && forall|i: int| 0 <= i < head.len() ==> !ran(#[trigger] head[i]) {
            assert forall|i: int| 0 <= i < all.len() implies !ran(#[trigger] all[i]) by {
                if i < head.len() {
                    assert(all[i] == head[i]);
                }
            }
        }
    }
}

/// The hits of a line are the highest count among the statements that start on
/// it; a line on which only branches sit was not hit; and no other line is there.
pub proof fn lines_are_hit_as_their_statements(path: Seq<char>, raw: JsonView, number: u32)
    ensures
        match hits_on(built(path, raw).lines, number) {
            Some(hits) => {
                let counts = raw.get("s"@).members();
                let statements = raw.get("statementMap"@);
                &&& forall|i: int| #[trigger]
                    counts_line(counts, statements, number, i) ==> match counts[i].1.number_u64() {
                        Some(n) => n <= hits,
                        None => true,
                    }
                &&& hits > 0 ==> exists|i: int|
                    #[trigger] counts_line(counts, statements, number, i)
                        && counts[i].1.number_u64() == Some(hits)
            },
            None => {
                &&& forall|i: int|
                    !(#[trigger] counts_line(
                        raw.get("s"@).members(),
                        raw.get("statementMap"@),
                        number,
                        i,
                    ))
                &&& forall|i: int|
                    !(#[trigger] sits_on(
                        raw.get("b"@).members(),
                        raw.get("branchMap"@),
                        number,
                        i,
                    ))
            },
        },
{
    let counts = raw.get("s"@).members();
    let statements = raw.get("statementMap"@);
    statements_make_plain_lines(counts, statements);
    branches_are_told(
        statement_lines(counts, statements),
        raw.get("b"@).members(),
        raw.get("branchMap"@),
    );
    lines_have_the_highest_count(counts, statements, number);
    let lines = built(path, raw).lines;
    assert(hits_on(lines, number) == hits_on(lines, number));
    if let Some(hits) = hits_on(statement_lines(counts, statements), number) {
        let w = choose|i: int| #[trigger]
            counts_line(counts, statements, number, i) && count_value(counts[i].1) == hits;
        assert(counts_line(counts, statements, number, w));
    }
}

/// A branch sits on the line it states, else where its range starts, else where
/// its first location starts; a function where it is declared, else where its
/// body starts, else on the line it states; a statement where its range starts.
pub proof fn ranges_sit_where_they_start(branch: JsonView, function: JsonView, range: JsonView)
    ensures
        start_line(range) == range.get("start"@).get("line"@).number_u32(),
        match branch.get("line"@).number_u32() {
            Some(line) => branch_line(branch) == Some(line),
            None => match branch.get("loc"@).get("start"@).get("line"@).number_u32() {
                Some(line) => branch_line(branch) == Some(line),
                None => branch_line(branch) == if branch.get("locations"@).items().len() > 0 {
                    branch.get("locations"@).items()[0].get("start"@).get("line"@).number_u32()
                } else {
                    None
                },
            },
        },
        match function.get("decl"@).get("start"@).get("line"@).number_u32() {
            Some(line) => function_line(function) == Some(line),
            None => match function.get("loc"@).get("start"@).get("line"@).number_u32() {
                Some(line) => function_line(function) == Some(line),
                None => function_line(function) == function.get("line"@).number_u32(),
            },
        },
{
}

/// Every function that was counted is there, with its name, its line and its
/// count; one without a name is named after its id.
pub proof fn functions_keep_their_counts(path: Seq<char>, raw: JsonView, i: int)
    requires
        0 <= i < raw.get("f"@).members().len(),
        !(raw.get("fnMap"@).get(raw.get("f"@).members()[i].0) is Null),
    ensures
        ({
            let (id, count) = raw.get("f"@).members()[i];
            let function = raw.get("fnMap"@).get(id);
            exists|k: int|
                0 <= k < built(path, raw).functions.len() && {
                    let f = #[trigger] built(path, raw).functions[k];
                    &&& f.line == function_line(function)
                    &&& match function.get("name"@).text() {
                        Some(name) => f.name == name,
                        None => f.name == "(anonymous_"@ + id + ")"@,
                    }
                    &&& match count.number_u64() {
                        Some(n) => f.hits == n,
                        None => f.hits == 0,
                    }
                }
        }),
        built(path, raw).functions.len() <= raw.get("f"@).members().len(),
{
    let k = counted_functions_are_listed(raw.get("f"@).members(), raw.get("fnMap"@), i);
    assert(built(path, raw).functions[k].line == function_line(
        raw.get("fnMap"@).get(raw.get("f"@).members()[i].0),
    ));
}

proof fn counted_functions_are_listed(
    counts: Seq<(Seq<char>, JsonView)>,
    functions: JsonView,
    i: int,
) -> (k: int)
    requires
        0 <= i < counts.len(),
        !(functions.get(counts[i].0) is Null),
    ensures
        0 <= k < counted_functions(counts, functions).len(),
        counted_functions(counts, functions)[k] == (FunctionView {
            name: function_name(functions.get(counts[i].0), counts[i].0),
            signature: None,
            line: function_line(functions.get(counts[i].0)),
            hits: count_value(counts[i].1),
        }),
        counted_functions(counts, functions).len() <= counts.len(),
    decreases counts.len(),
{
    let head = counts.drop_last();
    functions_are_not_invented(head, functions);
    if i == counts.len() - 1 {
        counted_functions(head, functions).len() as int
    } else {
        assert(head[i] == counts[i]);
        counted_functions_are_listed(head, functions, i)
    }
}

proof fn functions_are_not_invented(counts: Seq<(Seq<char>, JsonView)>, functions: JsonView)
    ensures
        counted_functions(counts, functions).len() <= counts.len(),
    decreases counts.len(),
{
    if counts.len() > 0 {
        functions_are_not_invented(counts.drop_last(), functions);
    }
}

/// Every entry of a coverage map is one file of the report, at the path it
/// states, else under its key, with the lines and functions that are built of it.
pub proof fn entries_become_files(json: JsonView, i: int)
    requires
        read_spec(json) is Ok,
        decoded(json, report_shape()) is Some,
        0 <= i < decoded(json, report_shape())->0.members().len(),
    ensures
        match read_spec(json) {
            Ok(DocView::Coverage(doc)) => {
                let (key, raw) = decoded(json, report_shape())->0.members()[i];
                let path = match raw.get("path"@).text() {
                    Some(path) => normalized(path),
                    None => normalized(key),
                };
                &&& doc.files.len() == decoded(json, report_shape())->0.members().len()
                &&& exists|k: int|
                    0 <= k < doc.files.len() && (#[trigger] doc.files[k]).path == path
                        && doc.files[k].lines.to_multiset() == built(path, raw).lines.to_multiset()
                        && doc.files[k].functions.to_multiset() == built(
                        path,
                        raw,
                    ).functions.to_multiset()
            },
            _ => false,
        },
{
    let members = decoded(json, report_shape())->0.members();
    let files = files_of(members);
    let (key, raw) = members[i];
    let path = file_path(key, raw);
    assert(files[i] == built(path, raw));
    assert(files.contains(files[i]));
    sorting_keeps_members::<FileCoverage>(files, files[i]);
    sorted_props::<FileCoverage>(files);
    let order = sorted::<FileCoverage>(files);
    let k = choose|k: int| 0 <= k < order.len() && order[k] == files[i];
    sorted_props::<Line>(files[i].lines);
    sorted_props::<Function>(files[i].functions);
    let doc = read_spec(json)->Ok_0->Coverage_0;
    assert(doc.files[k] == sort_file(files[i]));
}

} // verus!
