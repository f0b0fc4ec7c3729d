//! What merging and reading off coverage reports promise, line by line and
//! function by function.

use vstd::prelude::*;

use crate::model::coverage::{
    add_counter, add_function, ascending, branch_total, combine_lines, covered_count,
    directory_part, distinct_files, distinct_lines, each_line_once, file_at, file_at_props,
    files_are_merged_by_path, fold_files, folded_files_are_the_union, function_at, has_file,
    has_line, map_files, merge_docs, merge_files, merge_functions, merge_lines, name_part,
    normalize_doc, package_name, rank, rank_props, sort_doc, sort_file, stem_part, total_branches,
    total_lines, upsert, upsert_all, Branch, Counter, CoverageDocView, FileCoverage,
    FileCoverageView, Function, FunctionView, Line,
};
use crate::order::{sorted, sorted_props, Ranked};
use crate::paths::MapperView;
use crate::text::{last, last_props, lex_lt};
use crate::value::{or_else, with_all_new_props};

verus! {

// ---------------------------------------------------------------------------
// Lines
// ---------------------------------------------------------------------------

/// The record of a line, the last one where there are more.
pub open spec fn record_of(lines: Seq<Line>, number: u32) -> Option<Line>
    decreases lines.len(),
{
    if lines.len() == 0 {
        None
    } else if lines.last().number == number {
        Some(lines.last())
    } else {
        record_of(lines.drop_last(), number)
    }
}

proof fn record_together(a: Seq<Line>, b: Seq<Line>, number: u32)
    ensures
        record_of(a + b, number) == or_else(record_of(b, number), record_of(a, number)),
    decreases b.len(),
{
    if b.len() == 0 {
        assert(a + b =~= a);
    } else {
        assert((a + b).drop_last() =~= a + b.drop_last());
        record_together(a, b.drop_last(), number);
    }
}

proof fn record_of_one(line: Line, number: u32)
    ensures
        record_of(seq![line], number) == if line.number == number {
            Some(line)
        } else {
            None
        },
{
    assert(seq![line].drop_last() =~= Seq::empty());
    assert(record_of(Seq::empty(), number) is None);
}

proof fn record_is_there(lines: Seq<Line>, number: u32)
    ensures
        record_of(lines, number) is Some <==> has_line(lines, number),
        record_of(lines, number) matches Some(line) ==> line.number == number && lines.contains(
            line,
        ),
    decreases lines.len(),
{
    if lines.len() > 0 {
        let head = lines.drop_last();
        record_is_there(head, number);
        if has_line(head, number) {
            let i = choose|i: int| 0 <= i < head.len() && (#[trigger] head[i]).number == number;
            assert(lines[i].number == number);
        }
        if lines.last().number == number {
            assert(lines[lines.len() - 1].number == number);
        } else if has_line(lines, number) {
            let i = choose|i: int| 0 <= i < lines.len() && (#[trigger] lines[i]).number == number;
            assert(head[i].number == number);
        }
        if let Some(line) = record_of(head, number) {
            let i = choose|i: int| 0 <= i < head.len() && head[i] == line;
            assert(lines[i] == line);
        }
    }
}

proof fn upserted_record(lines: Seq<Line>, line: Line, joins: bool, number: u32)
    requires
        ascending(lines),
    ensures
        ascending(upsert(lines, line, joins)),
        record_of(upsert(lines, line, joins), number) == if number == line.number {
            match record_of(lines, number) {
                Some(known) => Some(
                    if joins {
                        combine_lines(known, line)
                    } else {
                        line
                    },
                ),
                None => Some(line),
            }
        } else {
            record_of(lines, number)
        },
{
    let at = rank(lines, line.number);
    rank_props(lines, line.number);
    let out = upsert(lines, line, joins);
    if at < lines.len() && lines[at].number == line.number {
        let before = lines.take(at);
        let after = lines.skip(at + 1);
        let new = out[at];
        assert(lines =~= before + seq![lines[at]] + after);
        assert(out =~= before + seq![new] + after);
        record_together(before + seq![lines[at]], after, number);
        record_together(before, seq![lines[at]], number);
        record_together(before + seq![new], after, number);
        record_together(before, seq![new], number);
        record_of_one(lines[at], number);
        record_of_one(new, number);
        record_is_there(after, line.number);
        assert forall|i: int| 0 <= i < after.len() implies (#[trigger] after[i]).number
            != line.number by {
            assert(lines[at].number < lines[at + 1 + i].number);
        }
        assert forall|i: int, j: int| 0 <= i < j < out.len() implies (#[trigger] out[i]).number < (
        #[trigger] out[j]).number by {
            assert(lines[i].number < lines[j].number);
        }
    } else {
        let before = lines.take(at);
        let after = lines.skip(at);
        assert(lines =~= before + after);
        assert(out =~= before + seq![line] + after);
        record_together(before + seq![line], after, number);
        record_together(before, seq![line], number);
        record_together(before, after, number);
        record_of_one(line, number);
        record_is_there(after, line.number);
        record_is_there(lines, line.number);
        assert forall|i: int| 0 <= i < lines.len() implies (#[trigger] lines[i]).number
            != line.number by {
            if i > at {
                assert(lines[at].number < lines[i].number);
            }
        }
        assert forall|i: int| 0 <= i < after.len() implies (#[trigger] after[i]).number
            != line.number by {
            assert(lines[at + i].number != line.number);
        }
        assert forall|i: int, j: int| 0 <= i < j < out.len() implies (#[trigger] out[i]).number < (
        #[trigger] out[j]).number by {
            if j < at {
                assert(lines[i].number < lines[j].number);
            } else if j == at {
                assert(lines[i].number < line.number);
            } else if i < at {
                assert(lines[i].number < lines[j - 1].number);
            } else if i == at {
                if j - 1 > at {
                    assert(lines[at].number < lines[j - 1].number);
                }
            } else {
                assert(lines[i - 1].number < lines[j - 1].number);
            }
        }
    }
}

proof fn placed_records(lines: Seq<Line>, number: u32)
    ensures
        ascending(upsert_all(Seq::empty(), lines, false)),
        record_of(upsert_all(Seq::empty(), lines, false), number) == record_of(lines, number),
    decreases lines.len(),
{
    if lines.len() > 0 {
        placed_records(lines.drop_last(), number);
        upserted_record(
            upsert_all(Seq::empty(), lines.drop_last(), false),
            lines.last(),
            false,
            number,
        );
    }
}

proof fn joined_records(base: Seq<Line>, theirs: Seq<Line>, number: u32)
    requires
        ascending(base),
        distinct_lines(theirs),
    ensures
        ascending(upsert_all(base, theirs, true)),
        record_of(upsert_all(base, theirs, true), number) == match (
            record_of(base, number),
            record_of(theirs, number),
        ) {
            (Some(a), Some(b)) => Some(combine_lines(a, b)),
            (Some(a), None) => Some(a),
            (None, b) => b,
        },
    decreases theirs.len(),
{
    if theirs.len() > 0 {
        let head = theirs.drop_last();
        assert(distinct_lines(head)) by {
            assert forall|i: int, j: int| 0 <= i < j < head.len() implies (
            #[trigger] head[i]).number != (#[trigger] head[j]).number by {
                assert(theirs[i].number != theirs[j].number);
            }
        }
        joined_records(base, head, number);
        upserted_record(upsert_all(base, head, true), theirs.last(), true, number);
        record_is_there(head, theirs.last().number);
        if has_line(head, theirs.last().number) {
            let i = choose|i: int|
                0 <= i < head.len() && (#[trigger] head[i]).number == theirs.last().number;
            assert(theirs[i].number != theirs[theirs.len() - 1].number);
        }
    }
}

/// Whether one of two numbers is the larger of them.
pub open spec fn is_larger_of(m: u32, x: u32, y: u32) -> bool {
    m >= x && m >= y && (m == x || m == y)
}

/// Merging the records of a line. Hits are added. Of two branch records the
/// widest total and the best coverage are kept; a branch record that only one
/// side has is kept; and so is a line that only one side has.
pub proof fn merged_lines_lose_no_coverage(mine: Seq<Line>, theirs: Seq<Line>, number: u32)
    requires
        distinct_lines(mine),
        distinct_lines(theirs),
    ensures
        ascending(merge_lines(mine, theirs)),
        match (
            record_of(mine, number),
            record_of(theirs, number),
            record_of(merge_lines(mine, theirs), number),
        ) {
            (Some(a), Some(b), Some(m)) => {
                &&& a.hits + b.hits <= u64::MAX ==> m.hits == a.hits + b.hits
                &&& match (a.branch, b.branch, m.branch) {
                    (Some(x), Some(y), Some(z)) => is_larger_of(z.covered, x.covered, y.covered)
                        && is_larger_of(z.total, x.total, y.total),
                    (Some(x), None, z) => z == Some(x),
                    (None, Some(y), z) => z == Some(y),
                    (None, None, z) => z is None,
                    _ => false,
                }
            },
            (Some(a), None, m) => m == Some(a),
            (None, Some(b), m) => m == Some(b),
            (None, None, m) => m is None,
            _ => false,
        },
{
    placed_records(mine, number);
    joined_records(upsert_all(Seq::empty(), mine, false), theirs, number);
}

/// Merging two reports joins what they say of a file, wherever it stands in
/// either: no line, hit, branch, call or counter is lost.
pub proof fn merged_reports_join_their_files(
    mine: CoverageDocView,
    theirs: CoverageDocView,
    i: int,
    j: int,
    number: u32,
)
    requires
        each_line_once(mine.files),
        each_line_once(theirs.files),
        0 <= i < mine.files.len(),
        0 <= j < theirs.files.len(),
        mine.files[i].path == theirs.files[j].path,
    ensures
        exists|k: int|
            0 <= k < merge_docs(mine, theirs).files.len() && (#[trigger] merge_docs(
                mine,
                theirs,
            ).files[k]).path == mine.files[i].path && match (
                record_of(mine.files[i].lines, number),
                record_of(theirs.files[j].lines, number),
                record_of(merge_docs(mine, theirs).files[k].lines, number),
            ) {
                (Some(a), Some(b), Some(m)) => {
                    &&& a.hits + b.hits <= u64::MAX ==> m.hits == a.hits + b.hits
                    &&& match (a.branch, b.branch, m.branch) {
                        (Some(x), Some(y), Some(z)) => is_larger_of(
                            z.covered,
                            x.covered,
                            y.covered,
                        ) && is_larger_of(z.total, x.total, y.total),
                        (Some(x), None, z) => z == Some(x),
                        (None, Some(y), z) => z == Some(y),
                        (None, None, z) => z is None,
                        _ => false,
                    }
                },
                (Some(a), None, m) => m == Some(a),
                (None, Some(b), m) => m == Some(b),
                (None, None, m) => m is None,
                _ => false,
            },
{
    let path = mine.files[i].path;
    let out = fold_files(mine.files, theirs.files);
    files_are_merged_by_path(mine.files, theirs.files, path);
    file_at_props(mine.files, path);
    file_at_props(theirs.files, path);
    file_at_props(out, path);
    let p = file_at(mine.files, path);
    let q = file_at(theirs.files, path);
    let k = file_at(out, path);
    assert(p == i) by {
        if p < i {
            assert(mine.files[p].path != mine.files[i].path);
        }
    }
    assert(q == j) by {
        if q < j {
            assert(theirs.files[q].path != theirs.files[j].path);
        }
    }
    assert(distinct_lines(mine.files[i].lines) && distinct_lines(theirs.files[j].lines));
    merged_lines_lose_no_coverage(mine.files[i].lines, theirs.files[j].lines, number);
    assert(merge_docs(mine, theirs).files[k] == out[k]);
}

/// A file that only one report lists is in the merged report as it was, and no
/// file is listed that neither has.
pub proof fn merged_reports_keep_other_files(
    mine: CoverageDocView,
    theirs: CoverageDocView,
    file: FileCoverageView,
)
    requires
        distinct_files(mine.files),
        distinct_files(theirs.files),
    ensures
        mine.files.contains(file) && (forall|j: int|
            0 <= j < theirs.files.len() ==> (#[trigger] theirs.files[j]).path != file.path)
            ==> merge_docs(mine, theirs).files.contains(file),
        theirs.files.contains(file) && (forall|j: int|
            0 <= j < mine.files.len() ==> (#[trigger] mine.files[j]).path != file.path)
            ==> merge_docs(mine, theirs).files.contains(file),
        merge_docs(mine, theirs).timestamp == match mine.timestamp {
            Some(t) => Some(t),
            None => theirs.timestamp,
        },
        forall|root: Seq<char>| #[trigger]
            merge_docs(mine, theirs).source_roots.contains(root) <==> mine.source_roots.contains(
                root,
            ) || theirs.source_roots.contains(root),
{
    let path = file.path;
    let out = fold_files(mine.files, theirs.files);
    files_are_merged_by_path(mine.files, theirs.files, path);
    file_at_props(mine.files, path);
    file_at_props(theirs.files, path);
    file_at_props(out, path);
    with_all_new_props(mine.source_roots, theirs.source_roots);
    if mine.files.contains(file) {
        let i = choose|i: int| 0 <= i < mine.files.len() && mine.files[i] == file;
        let p = file_at(mine.files, path);
        if p < i {
            assert(mine.files[p].path != mine.files[i].path);
        }
    }
    if theirs.files.contains(file) {
        let j = choose|j: int| 0 <= j < theirs.files.len() && theirs.files[j] == file;
        let q = file_at(theirs.files, path);
        if q < j {
            assert(theirs.files[q].path != theirs.files[j].path);
        }
    }
}

// ---------------------------------------------------------------------------
// Functions and counters
// ---------------------------------------------------------------------------

/// The calls recorded for a function, all records together.
pub open spec fn calls_of(
    functions: Seq<FunctionView>,
    name: Seq<char>,
    line: Option<u32>,
) -> nat
    decreases functions.len(),
{
    if functions.len() == 0 {
        0
    } else {
        calls_of(functions.drop_last(), name, line) + if functions.last().name == name
            && functions.last().line == line {
            functions.last().hits as nat
        } else {
            0
        }
    }
}

pub open spec fn has_function(
    functions: Seq<FunctionView>,
    name: Seq<char>,
    line: Option<u32>,
) -> bool {
    exists|i: int|
        0 <= i < functions.len() && (#[trigger] functions[i]).name == name && functions[i].line
            == line
}

proof fn calls_together(
    a: Seq<FunctionView>,
    b: Seq<FunctionView>,
    name: Seq<char>,
    line: Option<u32>,
)
    ensures
        calls_of(a + b, name, line) == calls_of(a, name, line) + calls_of(b, name, line),
    decreases b.len(),
{
    if b.len() == 0 {
        assert(a + b =~= a);
    } else {
        assert((a + b).drop_last() =~= a + b.drop_last());
        calls_together(a, b.drop_last(), name, line);
    }
}

proof fn calls_of_one(f: FunctionView, name: Seq<char>, line: Option<u32>)
    ensures
        calls_of(seq![f], name, line) == if f.name == name && f.line == line {
            f.hits as nat
        } else {
            0
        },
{
    assert(seq![f].drop_last() =~= Seq::empty());
    assert(calls_of(Seq::empty(), name, line) == 0);
}

proof fn function_at_props(functions: Seq<FunctionView>, name: Seq<char>, line: Option<u32>)
    ensures
        0 <= function_at(functions, name, line) <= functions.len(),
        function_at(functions, name, line) < functions.len() ==> functions[function_at(
            functions,
            name,
            line,
        )].name == name && functions[function_at(functions, name, line)].line == line,
        function_at(functions, name, line) < functions.len() <==> has_function(
            functions,
            name,
            line,
        ),
    decreases functions.len(),
{
    if functions.len() > 0 {
        let tail = functions.skip(1);
        function_at_props(tail, name, line);
        if functions[0].name == name && functions[0].line == line {
            assert(has_function(functions, name, line));
        } else {
            if has_function(functions, name, line) {
                let i = choose|i: int|
                    0 <= i < functions.len() && (#[trigger] functions[i]).name == name
                        && functions[i].line == line;
                assert(tail[i - 1] == functions[i]);
            }
            if has_function(tail, name, line) {
                let i = choose|i: int|
                    0 <= i < tail.len() && (#[trigger] tail[i]).name == name && tail[i].line
                        == line;
                assert(functions[i + 1] == tail[i]);
            }
            let at = function_at(tail, name, line);
            if at < tail.len() {
                assert(functions[at + 1] == tail[at]);
            }
        }
    }
}

/// Merging functions: the calls of a function are those of both sides together,
/// a function is there when either side has it, and what the first side knows of
/// it stays.
pub proof fn merged_functions_add_up(
    mine: Seq<FunctionView>,
    theirs: Seq<FunctionView>,
    name: Seq<char>,
    line: Option<u32>,
)
    requires
        calls_of(mine, name, line) + calls_of(theirs, name, line) <= u64::MAX,
    ensures
        calls_of(merge_functions(mine, theirs), name, line) == calls_of(mine, name, line)
            + calls_of(theirs, name, line),
        has_function(merge_functions(mine, theirs), name, line) <==> has_function(
            mine,
            name,
            line,
        ) || has_function(theirs, name, line),
        merge_functions(mine, theirs).len() >= mine.len(),
        forall|i: int|
            0 <= i < mine.len() ==> (#[trigger] merge_functions(mine, theirs)[i]).name
                == mine[i].name && merge_functions(mine, theirs)[i].line == mine[i].line
                && merge_functions(mine, theirs)[i].signature == mine[i].signature,
    decreases theirs.len(),
{
    if theirs.len() > 0 {
        let head = theirs.drop_last();
        let f = theirs.last();
        merged_functions_add_up(mine, head, name, line);
        let before = merge_functions(mine, head);
        let after = merge_functions(mine, theirs);
        assert(after == add_function(before, f));
        let at = function_at(before, f.name, f.line);
        function_at_props(before, f.name, f.line);
        function_at_props(before, name, line);
        function_at_props(after, name, line);
        assert(has_function(theirs, name, line) <==> has_function(head, name, line) || (f.name
            == name && f.line == line)) by {
            if has_function(theirs, name, line) {
                let i = choose|i: int|
                    0 <= i < theirs.len() && (#[trigger] theirs[i]).name == name && theirs[i].line
                        == line;
                if i < head.len() {
                    assert(head[i] == theirs[i]);
                }
            }
            if has_function(head, name, line) {
                let i = choose|i: int|
                    0 <= i < head.len() && (#[trigger] head[i]).name == name && head[i].line
                        == line;
                assert(theirs[i] == head[i]);
            }
            assert(theirs[theirs.len() - 1] == f);
        }
        if at < before.len() {
            let new = after[at];
            let left = before.take(at);
            let right = before.skip(at + 1);
            assert(before =~= left + seq![before[at]] + right);
            assert(after =~= left + seq![new] + right);
            calls_together(left + seq![before[at]], right, name, line);
            calls_together(left, seq![before[at]], name, line);
            calls_together(left + seq![new], right, name, line);
            calls_together(left, seq![new], name, line);
            calls_of_one(before[at], name, line);
            calls_of_one(new, name, line);
            if has_function(before, name, line) {
                let i = choose|i: int|
                    0 <= i < before.len() && (#[trigger] before[i]).name == name && before[i].line
                        == line;
                assert(after[i].name == name && after[i].line == line);
            }
            if has_function(after, name, line) {
                let i = choose|i: int|
                    0 <= i < after.len() && (#[trigger] after[i]).name == name && after[i].line
                        == line;
                assert(before[i].name == name && before[i].line == line);
            }
        } else {
            assert(after =~= before + seq![f]);
            calls_together(before, seq![f], name, line);
            calls_of_one(f, name, line);
            if has_function(before, name, line) {
                let i = choose|i: int|
                    0 <= i < before.len() && (#[trigger] before[i]).name == name && before[i].line
                        == line;
                assert(after[i] == before[i]);
            }
            if has_function(after, name, line) {
                let i = choose|i: int|
                    0 <= i < after.len() && (#[trigger] after[i]).name == name && after[i].line
                        == line;
                if i < before.len() {
                    assert(before[i] == after[i]);
                }
            }
            assert(after[before.len() as int] == f);
        }
    }
}

/// A counter that either side has is there, and counts what both counted.
pub proof fn merged_counters_add_up(a: Option<Counter>, b: Option<Counter>)
    ensures
        match (a, b, add_counter(a, b)) {
            (Some(x), Some(y), Some(z)) => (x.missed + y.missed <= u64::MAX ==> z.missed
                == x.missed + y.missed) && (x.covered + y.covered <= u64::MAX ==> z.covered
                == x.covered + y.covered),
            (Some(x), None, z) => z == Some(x),
            (None, Some(y), z) => z == Some(y),
            (None, None, z) => z is None,
            _ => false,
        },
{
}

/// The counters of a merged file are those of both files, each added to its own
/// kind; its functions and lines come from both.
pub proof fn merged_files_join_every_part(mine: FileCoverageView, theirs: FileCoverageView)
    ensures
        merge_files(mine, theirs).path == mine.path,
        merge_files(mine, theirs).counters.instruction == add_counter(
            mine.counters.instruction,
            theirs.counters.instruction,
        ),
        merge_files(mine, theirs).counters.complexity == add_counter(
            mine.counters.complexity,
            theirs.counters.complexity,
        ),
        merge_files(mine, theirs).counters.method == add_counter(
            mine.counters.method,
            theirs.counters.method,
        ),
        merge_files(mine, theirs).counters.class == add_counter(
            mine.counters.class,
            theirs.counters.class,
        ),
        merge_files(mine, theirs).functions == merge_functions(mine.functions, theirs.functions),
        merge_files(mine, theirs).lines == merge_lines(mine.lines, theirs.lines),
{
}

// ---------------------------------------------------------------------------
// Totals
// ---------------------------------------------------------------------------

/// A covered line is one that was hit, and every line counts once.
pub proof fn covered_lines_were_hit(lines: Seq<Line>)
    ensures
        covered_count(lines) == lines.filter(|l: Line| l.hits != 0).len(),
        covered_count(lines) <= lines.len(),
    decreases lines.len(),
{
    reveal(Seq::filter);
    if lines.len() > 0 {
        covered_lines_were_hit(lines.drop_last());
    }
}

/// The branches of some lines are those of their first part and those of the
/// rest, and a line without a record has none.
pub proof fn branches_are_summed(a: Seq<Line>, b: Seq<Line>)
    ensures
        ({
            let all = branch_total(a + b);
            let x = branch_total(a);
            let y = branch_total(b);
            &&& x.covered + y.covered <= u32::MAX ==> all.covered == x.covered + y.covered
            &&& x.total + y.total <= u32::MAX ==> all.total == x.total + y.total
        }),
    decreases b.len(),
{
    if b.len() == 0 {
        assert(a + b =~= a);
    } else {
        assert((a + b).drop_last() =~= a + b.drop_last());
        branch_bits_add(a, b);
    }
}

proof fn wrapping_adds_in_any_order(a: u32, b: u32, c: u32)
    ensures
        a.wrapping_add(b).wrapping_add(c) == a.wrapping_add(b.wrapping_add(c)),
{
}

proof fn branch_bits_add(a: Seq<Line>, b: Seq<Line>)
    ensures
        branch_total(a + b).covered == branch_total(a).covered.wrapping_add(
            branch_total(b).covered,
        ),
        branch_total(a + b).total == branch_total(a).total.wrapping_add(branch_total(b).total),
    decreases b.len(),
{
    if b.len() == 0 {
        assert(a + b =~= a);
    } else {
        let head = b.drop_last();
        assert((a + b).drop_last() =~= a + head);
        assert((a + b).last() == b.last());
        branch_bits_add(a, head);
        if let Some(x) = b.last().branch {
            wrapping_adds_in_any_order(
                branch_total(a).covered,
                branch_total(head).covered,
                x.covered,
            );
            wrapping_adds_in_any_order(branch_total(a).total, branch_total(head).total, x.total);
        }
    }
}

/// The branches of one line are its record.
pub proof fn one_line_has_its_own_branches(line: Line)
    ensures
        branch_total(seq![line]) == match line.branch {
            Some(b) => b,
            None => Branch { covered: 0, total: 0 },
        },
{
    assert(seq![line].drop_last() =~= Seq::empty());
    assert(branch_total(Seq::empty()) == (Branch { covered: 0, total: 0 }));
}

/// A report has the lines and branches of its files.
pub proof fn reports_sum_their_files(files: Seq<FileCoverageView>, file: FileCoverageView)
    ensures
        total_lines(files) + file.lines.len() <= u64::MAX ==> total_lines(files.push(file))
            == total_lines(files) + file.lines.len(),
        total_branches(files).total + branch_total(file.lines).total <= u32::MAX
            ==> total_branches(files.push(file)).total == total_branches(files).total
            + branch_total(file.lines).total,
        total_branches(files).covered + branch_total(file.lines).covered <= u32::MAX
            ==> total_branches(files.push(file)).covered == total_branches(files).covered
            + branch_total(file.lines).covered,
{
    assert(files.push(file).drop_last() =~= files);
}

// ---------------------------------------------------------------------------
// Paths
// ---------------------------------------------------------------------------

/// A path is its directory, a slash and its name, or just a name; and the name
/// holds no slash.
pub proof fn paths_are_their_parts(path: Seq<char>)
    ensures
        path.contains('/') ==> path == directory_part(path) + seq!['/'] + name_part(path),
        !path.contains('/') ==> directory_part(path).len() == 0 && name_part(path) == path,
        !name_part(path).contains('/'),
{
    last_props(path, '/');
    let at = last(path, '/');
    if at >= 0 {
        assert(path =~= path.take(at) + seq!['/'] + path.skip(at + 1));
    } else {
        assert(path.skip(0) =~= path);
    }
    let name = name_part(path);
    assert forall|i: int| 0 <= i < name.len() implies name[i] != '/' by {
        assert(name[i] == path[at + 1 + i]);
    }
}

/// A name is its stem, or its stem, a dot and an extension without one; a stem
/// is never empty because of a leading dot.
pub proof fn names_are_their_stem_and_extension(path: Seq<char>)
    ensures
        stem_part(path) == name_part(path) || exists|extension: Seq<char>|
            !extension.contains('.') && name_part(path) == #[trigger] (stem_part(path) + seq!['.']
                + extension),
        name_part(path).len() > 0 ==> stem_part(path).len() > 0,
        (exists|i: int| 0 < i < name_part(path).len() && name_part(path)[i] == '.') ==> stem_part(
            path,
        ).len() < name_part(path).len(),
{
    let name = name_part(path);
    last_props(name, '.');
    let at = last(name, '.');
    if at > 0 {
        let extension = name.skip(at + 1);
        assert(name =~= name.take(at) + seq!['.'] + extension);
        assert forall|i: int| 0 <= i < extension.len() implies extension[i] != '.' by {
            assert(extension[i] == name[at + 1 + i]);
        }
        assert(stem_part(path) + seq!['.'] + extension == name);
    }
}

/// A package is the directory with a dot for every slash.
pub proof fn packages_are_dotted_directories(path: Seq<char>, i: int)
    requires
        0 <= i < directory_part(path).len(),
    ensures
        package_name(path).len() == directory_part(path).len(),
        package_name(path)[i] == if directory_part(path)[i] == '/' {
            '.'
        } else {
            directory_part(path)[i]
        },
{
}

/// Mapping paths keeps every file under its mapped path, joins those that fall
/// together, and leaves the rest of the report as it is.
pub proof fn mapped_reports_keep_every_file(doc: CoverageDocView, mapper: MapperView, i: int)
    requires
        0 <= i < doc.files.len(),
        !mapper.is_noop(),
    ensures
        ({
            let after = normalize_doc(doc, mapper);
            &&& has_file(after.files, mapper.map(doc.files[i].path))
            &&& distinct_files(after.files)
            &&& after == (CoverageDocView { files: after.files, ..doc })
        }),
{
    let mapped = map_files(doc.files, mapper);
    folded_files_are_the_union(Seq::empty(), mapped);
    assert(mapped[i].path == mapper.map(doc.files[i].path));
    assert(has_file(mapped, mapper.map(doc.files[i].path)));
}

/// A sorted report has its files in the order of their paths, and each file its
/// lines in the order of their numbers and its functions in that of their lines.
pub proof fn sorted_reports_are_in_order(doc: CoverageDocView, i: int, j: int, m: int)
    requires
        0 <= i < j < sort_doc(doc).files.len(),
    ensures
        ({
            let files = sort_doc(doc).files;
            &&& files.len() == doc.files.len()
            &&& !lex_lt(files[j].path, files[i].path)
        }),
        0 <= m < sort_doc(doc).files.len() ==> {
            let file = sort_doc(doc).files[m];
            &&& forall|a: int, b: int|
                0 <= a < b < file.lines.len() ==> (#[trigger] file.lines[a]).number <= (
                #[trigger] file.lines[b]).number
            &&& forall|a: int, b: int|
                0 <= a < b < file.functions.len() ==> match (
                    (#[trigger] file.functions[a]).line,
                    (#[trigger] file.functions[b]).line,
                ) {
                    (Some(x), Some(y)) => x <= y,
                    (Some(_), None) => false,
                    (None, _) => true,
                }
        },
{
    let order = sorted::<FileCoverage>(doc.files);
    sorted_props::<FileCoverage>(doc.files);
    assert(sort_doc(doc).files[i].path == order[i].path);
    assert(sort_doc(doc).files[j].path == order[j].path);
    assert(!<FileCoverage as Ranked>::precedes(order[j], order[i]));
    if 0 <= m < order.len() {
        sorted_props::<Line>(order[m].lines);
        sorted_props::<Function>(order[m].functions);
        let file = sort_doc(doc).files[m];
        assert(file == sort_file(order[m]));
        assert forall|a: int, b: int| 0 <= a < b < file.lines.len() implies (
        #[trigger] file.lines[a]).number <= (#[trigger] file.lines[b]).number by {
            assert(!<Line as Ranked>::precedes(file.lines[b], file.lines[a]));
        }
        assert forall|a: int, b: int| 0 <= a < b < file.functions.len() implies match (
            (#[trigger] file.functions[a]).line,
            (#[trigger] file.functions[b]).line,
        ) {
            (Some(x), Some(y)) => x <= y,
            (Some(_), None) => false,
            (None, _) => true,
        } by {
            assert(!<Function as Ranked>::precedes(file.functions[b], file.functions[a]));
        }
    }
}

} // verus!
