//! What reading and writing an LCOV tracefile promises.

use vstd::prelude::*;

use crate::formats::coverage::{line_at, reached};
use crate::formats::coverage::gocover::{hits_on, line_at_props};
use crate::formats::coverage::lcov::{
    acc_at, arm_at, arms_on, branch_lines, brda_lines, brda_of, built, da_line, da_of, digits_lack,
    file_lines, fn_line, fn_of, fnda_line, fnda_of, folded, function_lines, function_of, hit,
    name_at, opened, put_function, read_spec, recorded, report_lines, stepped, taken_of, taken_on,
    ArmView, FileAccView, StateView,
};
use crate::model::coverage::{
    branch_total, covered_count, sort_file, CoverageDocView, FileCoverage, FileCoverageView,
    Function, FunctionView, Line,
};
use crate::order::{sorted, sorted_props, sorting_keeps_members};
use crate::registry::DocView;
use crate::text::{
    contains_char, decimal, decimal_reads_back, is_digit, split_once_at, trim,
    written_numbers_parse,
};
use crate::value::{flat, parts_are_in_the_whole};

verus! {

// ---------------------------------------------------------------------------
// Records
// ---------------------------------------------------------------------------

proof fn hitting_adds(lines: Seq<Line>, number: u32, hits: u64, other: u32)
    ensures
        hits_on(hit(lines, number, hits), other) == if other == number {
            match hits_on(lines, number) {
                Some(known) => Some(known.wrapping_add(hits)),
                None => Some(hits),
            }
        } else {
            hits_on(lines, other)
        },
{
    let after = hit(lines, number, hits);
    line_at_props(lines, number);
    line_at_props(lines, other);
    line_at_props(after, other);
    let at = line_at(lines, number);
    let there = line_at(lines, other);
    let now = line_at(after, other);
    if now < there && now < lines.len() {
        assert(after[now].number == other);
        assert(lines[now].number == after[now].number);
    }
    if there < now && there < lines.len() {
        assert(after[there].number == lines[there].number);
    }
    if other == number && at == lines.len() {
        assert(after[at].number == number);
    }
}

proof fn tags_differ()
    ensures
        "DA"@ != "FN"@ && "DA"@ != "FNDA"@ && "DA"@ != "BRDA"@,
        "FN"@ != "FNDA"@ && "FN"@ != "BRDA"@ && "FNDA"@ != "BRDA"@,
        "SF"@ != "DA"@ && "SF"@ != "FN"@ && "SF"@ != "FNDA"@ && "SF"@ != "BRDA"@,
{
    reveal_strlit("DA");
    reveal_strlit("FN");
    reveal_strlit("FNDA");
    reveal_strlit("BRDA");
    reveal_strlit("SF");
    assert("DA"@[0] == 'D' && "FN"@[0] == 'F' && "SF"@[0] == 'S');
    assert("DA"@.len() == 2 && "FN"@.len() == 2 && "FNDA"@.len() == 4 && "BRDA"@.len() == 4);
    assert("FNDA"@[0] == 'F' && "BRDA"@[0] == 'B' && "SF"@.len() == 2);
}

/// A `DA` record adds its hits to its line and changes no other line, no function
/// and no branch.
pub proof fn line_records_add_hits(
    file: FileAccView,
    value: Seq<char>,
    counts: Seq<(Seq<char>, u64)>,
    other: u32,
)
    requires
        da_of(value, counts) is Some,
    ensures
        ({
            let (number, hits) = da_of(value, counts)->0;
            let after = recorded(file, "DA"@, value, counts);
            &&& after.functions == file.functions && after.arms == file.arms && after.path
                == file.path
            &&& other != number ==> hits_on(after.lines, other) == hits_on(file.lines, other)
            &&& match hits_on(file.lines, number) {
                Some(known) => known + hits <= u64::MAX ==> hits_on(after.lines, number) == Some(
                    (known + hits) as u64,
                ),
                None => hits_on(after.lines, number) == Some(hits),
            }
        }),
{
    tags_differ();
    let (number, hits) = da_of(value, counts)->0;
    hitting_adds(file.lines, number, hits, other);
    hitting_adds(file.lines, number, hits, number);
}

/// Whether two arms are the same one.
pub open spec fn same_arm(a: ArmView, b: ArmView) -> bool {
    a.line == b.line && a.block == b.block && a.branch == b.branch
}

/// How often an arm was taken, all records together.
pub open spec fn takes_of(arms: Seq<ArmView>, arm: ArmView) -> nat
    decreases arms.len(),
{
    if arms.len() == 0 {
        0
    } else {
        takes_of(arms.drop_last(), arm) + if same_arm(arms.last(), arm) {
            arms.last().taken as nat
        } else {
            0
        }
    }
}

/// No arm is listed twice.
pub open spec fn arms_apart(arms: Seq<ArmView>) -> bool {
    forall|i: int, j: int|
        0 <= i < j < arms.len() ==> !same_arm(#[trigger] arms[i], #[trigger] arms[j])
}

proof fn arm_at_props(arms: Seq<ArmView>, arm: ArmView)
    ensures
        0 <= arm_at(arms, arm) <= arms.len(),
        arm_at(arms, arm) < arms.len() ==> same_arm(arms[arm_at(arms, arm)], arm),
        forall|i: int| 0 <= i < arm_at(arms, arm) ==> !same_arm(#[trigger] arms[i], arm),
    decreases arms.len(),
{
    if arms.len() > 0 && !same_arm(arms[0], arm) {
        let tail = arms.skip(1);
        arm_at_props(tail, arm);
        assert forall|i: int| 0 <= i < arm_at(arms, arm) implies !same_arm(
            #[trigger] arms[i],
            arm,
        ) by {
            if i > 0 {
                assert(arms[i] == tail[i - 1]);
            }
        }
        let at = arm_at(tail, arm);
        if at < tail.len() {
            assert(arms[at + 1] == tail[at]);
        }
    }
}

/// A `BRDA` record makes its line executable without a hit of its own, and its arm
/// a branch of that line; a record of an arm that is known adds to it, so that no
/// arm is listed twice.
pub proof fn branch_records_add_arms(
    file: FileAccView,
    value: Seq<char>,
    counts: Seq<(Seq<char>, u64)>,
    other: u32,
)
    requires
        brda_of(value) is Some,
        arms_apart(file.arms),
    ensures
        ({
            let arm = brda_of(value)->0;
            let after = recorded(file, "BRDA"@, value, counts);
            &&& after.functions == file.functions && after.path == file.path
            &&& hits_on(after.lines, other) == match hits_on(file.lines, other) {
                Some(hits) => Some(hits),
                None => if other == arm.line {
                    Some(0u64)
                } else {
                    None
                },
            }
            &&& arms_apart(after.arms)
            &&& exists|k: int|
                0 <= k < after.arms.len() && same_arm(#[trigger] after.arms[k], arm) && (
                after.arms[k].taken == arm.taken || exists|i: int|
                    0 <= i < file.arms.len() && same_arm(#[trigger] file.arms[i], arm)
                        && after.arms[k].taken == file.arms[i].taken.wrapping_add(arm.taken))
            &&& forall|i: int|
                0 <= i < file.arms.len() && !same_arm(#[trigger] file.arms[i], arm)
                    ==> after.arms.contains(file.arms[i])
        }),
{
    tags_differ();
    let arm = brda_of(value)->0;
    let after = recorded(file, "BRDA"@, value, counts);
    hitting_adds(file.lines, arm.line, 0, other);
    arm_at_props(file.arms, arm);
    let at = arm_at(file.arms, arm);
    if at < file.arms.len() {
        assert(after.arms[at].taken == file.arms[at].taken.wrapping_add(arm.taken));
    } else {
        assert(after.arms[at] == arm);
    }
    assert(same_arm(after.arms[at], arm));
    assert forall|i: int, j: int| 0 <= i < j < after.arms.len() implies !same_arm(
        #[trigger] after.arms[i],
        #[trigger] after.arms[j],
    ) by {
        if j < file.arms.len() {
            assert(!same_arm(file.arms[i], file.arms[j]));
        } else {
            assert(!same_arm(file.arms[i], arm));
        }
    }
    assert forall|i: int|
        0 <= i < file.arms.len() && !same_arm(#[trigger] file.arms[i], arm) implies
        after.arms.contains(file.arms[i]) by {
        assert(after.arms[i] == file.arms[i]);
    }
}

proof fn arms_are_counted(arms: Seq<ArmView>, number: u32)
    ensures
        arms_on(arms, number) == arms.filter(|a: ArmView| a.line == number).len(),
        taken_on(arms, number) == arms.filter(
            |a: ArmView| a.line == number && a.taken != 0,
        ).len(),
        taken_on(arms, number) <= arms_on(arms, number) <= arms.len(),
    decreases arms.len(),
{
    reveal(Seq::filter);
    if arms.len() > 0 {
        arms_are_counted(arms.drop_last(), number);
    }
}

/// A line has as many branches as it has arms, and as many covered ones as arms
/// that were taken at all; without an arm it has no record. Its number and hits
/// are those of its records, and so are the functions.
pub proof fn branches_are_the_arms_of_a_line(file: FileAccView, k: int)
    requires
        0 <= k < file.lines.len(),
        file.arms.len() <= u32::MAX,
    ensures
        built(file).path == file.path,
        built(file).functions == file.functions,
        built(file).lines.len() == file.lines.len(),
        ({
            let line = built(file).lines[k];
            let all = file.arms.filter(|a: ArmView| a.line == line.number);
            let taken = file.arms.filter(|a: ArmView| a.line == line.number && a.taken != 0);
            &&& line.number == file.lines[k].number
            &&& line.hits == file.lines[k].hits
            &&& line.branch is None <==> all.len() == 0
            &&& (line.branch matches Some(b) ==> b.total == all.len() && b.covered == taken.len())
        }),
{
    arms_are_counted(file.arms, file.lines[k].number);
}

proof fn name_at_props(functions: Seq<FunctionView>, name: Seq<char>)
    ensures
        0 <= name_at(functions, name) <= functions.len(),
        name_at(functions, name) < functions.len() ==> functions[name_at(functions, name)].name
            == name,
        forall|i: int|
            0 <= i < name_at(functions, name) ==> (#[trigger] functions[i]).name != name,
    decreases functions.len(),
{
    if functions.len() > 0 && functions[0].name != name {
        let tail = functions.skip(1);
        name_at_props(tail, name);
        assert forall|i: int| 0 <= i < name_at(functions, name) implies (
        #[trigger] functions[i]).name != name by {
            if i > 0 {
                assert(functions[i] == tail[i - 1]);
            }
        }
        let at = name_at(tail, name);
        if at < tail.len() {
            assert(functions[at + 1] == tail[at]);
        }
    }
}

/// The function of a name, where it is listed.
pub open spec fn named(functions: Seq<FunctionView>, name: Seq<char>) -> Option<FunctionView> {
    if name_at(functions, name) < functions.len() {
        Some(functions[name_at(functions, name)])
    } else {
        None
    }
}

proof fn putting_changes_one(
    functions: Seq<FunctionView>,
    name: Seq<char>,
    function: FunctionView,
    other: Seq<char>,
)
    requires
        function.name == name,
    ensures
        named(put_function(functions, name, function), other) == if other == name {
            Some(function)
        } else {
            named(functions, other)
        },
{
    let after = put_function(functions, name, function);
    name_at_props(functions, name);
    name_at_props(functions, other);
    name_at_props(after, other);
    let at = name_at(functions, name);
    let there = name_at(functions, other);
    let now = name_at(after, other);
    if now < there && now < functions.len() {
        assert(after[now].name == functions[now].name);
    }
    if there < now && there < functions.len() {
        assert(after[there].name == functions[there].name);
    }
    if other == name && at == functions.len() {
        assert(after[at].name == name);
    }
}

/// An `FN` record places its function on a line and keeps its calls; an `FNDA`
/// record adds calls and keeps its line. Neither touches another function, a line
/// or a branch.
pub proof fn function_records_are_kept_apart(
    file: FileAccView,
    value: Seq<char>,
    counts: Seq<(Seq<char>, u64)>,
    other: Seq<char>,
)
    ensures
        fn_of(value) matches Some((line, name)) ==> {
            let after = recorded(file, "FN"@, value, counts);
            let f = named(after.functions, name);
            &&& after.lines == file.lines && after.arms == file.arms
            &&& f is Some && f->0.line == Some(line) && f->0.name == name
            &&& f->0.hits == match named(file.functions, name) {
                Some(known) => known.hits,
                None => 0,
            }
            &&& other != name ==> named(after.functions, other) == named(file.functions, other)
        },
        fnda_of(value) matches Some((hits, name)) ==> {
            let after = recorded(file, "FNDA"@, value, counts);
            let f = named(after.functions, name);
            &&& after.lines == file.lines && after.arms == file.arms
            &&& f is Some && f->0.name == name
            &&& match named(file.functions, name) {
                Some(known) => f->0.line == known.line && (known.hits + hits <= u64::MAX
                    ==> f->0.hits == known.hits + hits),
                None => f->0.line is None && f->0.hits == hits,
            }
            &&& other != name ==> named(after.functions, other) == named(file.functions, other)
        },
{
    tags_differ();
    if let Some((line, name)) = fn_of(value) {
        name_at_props(file.functions, name);
        let f = FunctionView { line: Some(line), ..function_of(file.functions, name) };
        putting_changes_one(file.functions, name, f, name);
        putting_changes_one(file.functions, name, f, other);
    }
    if let Some((hits, name)) = fnda_of(value) {
        name_at_props(file.functions, name);
        let known = function_of(file.functions, name);
        let f = FunctionView { hits: known.hits.wrapping_add(hits), ..known };
        putting_changes_one(file.functions, name, f, name);
        putting_changes_one(file.functions, name, f, other);
    }
}

// ---------------------------------------------------------------------------
// Files
// ---------------------------------------------------------------------------

proof fn acc_at_props(files: Seq<FileAccView>, path: Seq<char>)
    ensures
        0 <= acc_at(files, path) <= files.len(),
        acc_at(files, path) < files.len() ==> files[acc_at(files, path)].path == path,
        forall|i: int| 0 <= i < acc_at(files, path) ==> (#[trigger] files[i]).path != path,
    decreases files.len(),
{
    if files.len() > 0 && files[0].path != path {
        let tail = files.skip(1);
        acc_at_props(tail, path);
        assert forall|i: int| 0 <= i < acc_at(files, path) implies (#[trigger] files[i]).path
            != path by {
            if i > 0 {
                assert(files[i] == tail[i - 1]);
            }
        }
        let at = acc_at(tail, path);
        if at < tail.len() {
            assert(files[at + 1] == tail[at]);
        }
    }
}

/// What was collected of a file, where it was opened.
pub open spec fn collected(files: Seq<FileAccView>, path: Seq<char>) -> Option<FileAccView> {
    if acc_at(files, path) < files.len() {
        Some(files[acc_at(files, path)])
    } else {
        None
    }
}

/// A record belongs to the file that is open, and changes no other file. Where no
/// file is open it belongs to none.
pub proof fn records_belong_to_the_open_file(
    s: StateView,
    tag: Seq<char>,
    value: Seq<char>,
    number: nat,
    counts: Seq<(Seq<char>, u64)>,
    other: Seq<char>,
)
    requires
        tag.len() > 0,
        tag[0] != '#',
        tag != "SF"@,
        contains_char(tag, ':') == false,
        trim(tag.push(':') + value) == tag.push(':') + value,
        s.current matches Some(path) ==> collected(s.files, path) is Some,
        tag.push(':') + value != "end_of_record"@,
    ensures
        match stepped(s, tag.push(':') + value, number, counts) {
            Ok(after) => {
                &&& after.current == s.current
                &&& collected(after.files, other) == if s.current == Some(other) {
                    Some(recorded(collected(s.files, other)->0, tag, value, counts))
                } else {
                    collected(s.files, other)
                }
            },
            Err(_) => false,
        },
{
    split_once_at(tag, ':', value);
    let line = tag.push(':') + value;
    assert(line[0] == tag[0]);
    if let Some(path) = s.current {
        let after = stepped(s, line, number, counts)->Ok_0;
        acc_at_props(s.files, path);
        acc_at_props(s.files, other);
        acc_at_props(after.files, other);
        let at = acc_at(s.files, path);
        let there = acc_at(s.files, other);
        let now = acc_at(after.files, other);
        assert(after.files[at].path == s.files[at].path);
        if now < there && now < s.files.len() {
            assert(after.files[now].path == s.files[now].path);
        }
        if there < now && there < s.files.len() {
            assert(after.files[there].path == s.files[there].path);
        }
    }
}

/// Opening a file keeps what is known of it and of every other, and makes it the
/// one that records belong to.
pub proof fn opening_a_file_forgets_nothing(s: StateView, path: Seq<char>, other: Seq<char>)
    ensures
        opened(s, path).current == Some(path),
        collected(opened(s, path).files, path) is Some,
        collected(s.files, other) is Some ==> collected(opened(s, path).files, other) == collected(
            s.files,
            other,
        ),
        collected(s.files, path) is None ==> collected(opened(s, path).files, path) == Some(
            FileAccView {
                path,
                lines: Seq::empty(),
                functions: Seq::empty(),
                arms: Seq::empty(),
            },
        ),
{
    let after = opened(s, path).files;
    acc_at_props(s.files, path);
    acc_at_props(s.files, other);
    acc_at_props(after, path);
    acc_at_props(after, other);
    let there = acc_at(s.files, other);
    let now = acc_at(after, other);
    if now < there && now < s.files.len() {
        assert(after[now].path == s.files[now].path);
    }
    if there < now && there < s.files.len() {
        assert(after[there].path == s.files[there].path);
    }
    let n = s.files.len() as int;
    let mine = acc_at(after, path);
    if acc_at(s.files, path) == n {
        assert(after[n].path == path);
        if mine < n {
            assert(after[mine] == s.files[mine]);
        }
    }
}

/// Every file that was collected is in the report, with its lines, branches and
/// functions.
pub proof fn collected_files_are_reported(
    all: Seq<Seq<char>>,
    counts: Seq<(Seq<char>, u64)>,
    i: int,
)
    requires
        folded(all, counts) is Ok,
        0 <= i < folded(all, counts)->Ok_0.files.len(),
    ensures
        match read_spec(all, counts) {
            Ok(DocView::Coverage(doc)) => {
                let file = built(folded(all, counts)->Ok_0.files[i]);
                &&& doc.files.len() == folded(all, counts)->Ok_0.files.len()
                &&& exists|k: int|
                    0 <= k < doc.files.len() && (#[trigger] doc.files[k]).path == file.path
                        && doc.files[k].lines.to_multiset() == file.lines.to_multiset()
                        && doc.files[k].functions.to_multiset() == file.functions.to_multiset()
            },
            _ => false,
        },
{
    let accs = folded(all, counts)->Ok_0.files;
    let files = accs.map_values(|f: FileAccView| built(f));
    assert(files[i] == built(accs[i]));
    assert(files.contains(files[i]));
    sorting_keeps_members::<FileCoverage>(files, files[i]);
    sorted_props::<FileCoverage>(files);
    let order = sorted::<FileCoverage>(files);
    let k = choose|k: int| 0 <= k < order.len() && order[k] == files[i];
    sorted_props::<Line>(files[i].lines);
    sorted_props::<Function>(files[i].functions);
    let doc = read_spec(all, counts)->Ok_0->Coverage_0;
    assert(doc.files[k] == sort_file(files[i]));
}

// ---------------------------------------------------------------------------
// Writing
// ---------------------------------------------------------------------------

/// A tracefile holds, for every file, its path, and for every line of it a record
/// with its number and its hits, between the record that opens the file and the one
/// that closes it.
pub proof fn written_files_hold_their_lines(doc: CoverageDocView, i: int, k: int)
    requires
        0 <= i < doc.files.len(),
        0 <= k < doc.files[i].lines.len(),
    ensures
        report_lines(doc).contains("SF:"@ + doc.files[i].path),
        report_lines(doc).contains(
            "DA:"@ + decimal(doc.files[i].lines[k].number as nat) + ","@ + decimal(
                doc.files[i].lines[k].hits as nat,
            ),
        ),
        file_lines(doc.files[i]).len() > 2,
        file_lines(doc.files[i])[1] == "SF:"@ + doc.files[i].path,
        file_lines(doc.files[i]).last() == "end_of_record"@,
{
    let file = doc.files[i];
    let all = file_lines(file);
    let write = |f: FileCoverageView| file_lines(f);
    parts_are_in_the_whole(doc.files, write, i, 1);
    assert(write(file)[1] == all[1]);
    let n = file.lines.len();
    let at = all.len() - 3 - n + k;
    assert(all[at] == da_line(file.lines[k]));
    parts_are_in_the_whole(doc.files, write, i, at);
    assert(write(file)[at] == all[at]);
}

/// A line with branches has a record for each, taken for as many as were covered,
/// from the first on.
pub proof fn written_branches_are_those_of_the_line(file: FileCoverageView, k: int, i: int)
    requires
        0 <= k < file.lines.len(),
        file.lines[k].branch is Some,
        0 <= i < file.lines[k].branch->0.total,
    ensures
        brda_lines(file.lines[k]).len() == file.lines[k].branch->0.total,
        file_lines(file).contains(
            "BRDA:"@ + decimal(file.lines[k].number as nat) + ",0,"@ + decimal(i as nat) + (
            if i < file.lines[k].branch->0.covered {
                ",1"@
            } else {
                ",-"@
            }),
        ),
{
    let line = file.lines[k];
    let write = |l: Line| brda_lines(l);
    parts_are_in_the_whole(file.lines, write, k, i);
    let all = flat(file.lines, write);
    let own = brda_lines(line)[i];
    assert(write(line)[i] == own);
    let j = choose|j: int| 0 <= j < all.len() && all[j] == own;
    let head = 2 + function_lines(file.functions).len();
    assert(branch_lines(file.lines)[j] == own);
    assert(file_lines(file)[head + j] == own);
}

/// Each function has a record of its calls and, where its line is known, one of
/// its place.
pub proof fn written_functions_are_those_of_the_file(file: FileCoverageView, k: int)
    requires
        0 <= k < file.functions.len(),
    ensures
        file_lines(file).contains(
            "FNDA:"@ + decimal(file.functions[k].hits as nat) + ","@ + file.functions[k].name,
        ),
        file.functions[k].line matches Some(line) ==> file_lines(file).contains(
            "FN:"@ + decimal(line as nat) + ","@ + file.functions[k].name,
        ),
{
    let f = file.functions[k];
    let write = |f: FunctionView| fn_line(f);
    let places = flat(file.functions, write);
    let own = function_lines(file.functions);
    assert(own[places.len() + k] == fnda_line(f));
    assert(file_lines(file)[2 + places.len() + k] == fnda_line(f));
    if f.line is Some {
        parts_are_in_the_whole(file.functions, write, k, 0);
        assert(write(f)[0] == fn_line(f)[0]);
        let j = choose|j: int| 0 <= j < places.len() && places[j] == fn_line(f)[0];
        assert(own[j] == fn_line(f)[0]);
        assert(file_lines(file)[2 + j] == fn_line(f)[0]);
    }
}

/// The records end with how many lines there are and how many of them ran.
pub proof fn written_files_end_with_their_numbers(file: FileCoverageView)
    ensures
        ({
            let all = file_lines(file);
            let n = all.len();
            &&& all[n - 3] == "LF:"@ + decimal(file.lines.len())
            &&& all[n - 2] == "LH:"@ + decimal(covered_count(file.lines))
            &&& file.functions.len() > 0 ==> all.contains("FNF:"@ + decimal(file.functions.len()))
            &&& file.functions.len() > 0 ==> all.contains("FNH:"@ + decimal(ran(file.functions)))
            &&& branch_total(file.lines).total > 0 ==> {
                &&& all.contains("BRF:"@ + decimal(branch_total(file.lines).total as nat))
                &&& all.contains("BRH:"@ + decimal(branch_total(file.lines).covered as nat))
            }
        }),
{
    let all = file_lines(file);
    functions_that_ran(file.functions);
    let own = function_lines(file.functions);
    let places = flat(file.functions, |f: FunctionView| fn_line(f));
    let arms = flat(file.lines, |l: Line| brda_lines(l));
    let n = (places.len() + file.functions.len()) as int;
    if file.functions.len() > 0 {
        assert(own[n] == "FNF:"@ + decimal(file.functions.len()));
        assert(own[n + 1] == "FNH:"@ + decimal(ran(file.functions)));
        assert(all[2 + n] == own[n] && all[3 + n] == own[n + 1]);
    }
    if branch_total(file.lines).total > 0 {
        let branches = branch_lines(file.lines);
        let m = arms.len() as int;
        assert(all[2 + own.len() + m] == branches[m]);
        assert(all[3 + own.len() + m] == branches[m + 1]);
    }
}

/// How many functions ran at all.
pub open spec fn ran(functions: Seq<FunctionView>) -> nat {
    functions.filter(|f: FunctionView| f.hits > 0).len()
}

proof fn functions_that_ran(functions: Seq<FunctionView>)
    ensures
        reached(functions) == ran(functions),
    decreases functions.len(),
{
    reveal(Seq::filter);
    if functions.len() > 0 {
        functions_that_ran(functions.drop_last());
    }
}

// ---------------------------------------------------------------------------
// Fields
// ---------------------------------------------------------------------------

/// A function's record gives its line and its name, its calls' record how often it
/// was called and its name; a branch that was never reached was taken no times.
pub proof fn fields_are_read_in_order(line: u32, hits: u64, name: Seq<char>)
    requires
        !contains_char(name, ','),
    ensures
        fn_of(decimal(line as nat).push(',') + name) == Some((line, name)),
        fnda_of(decimal(hits as nat).push(',') + name) == Some((hits, name)),
        taken_of("-"@) == Some(0u64),
        taken_of(decimal(hits as nat)) == Some(hits),
{
    digits_lack(line as nat, ',');
    digits_lack(hits as nat, ',');
    split_once_at(decimal(line as nat), ',', name);
    split_once_at(decimal(hits as nat), ',', name);
    written_numbers_parse(line as u64);
    written_numbers_parse(hits);
    decimal_reads_back(hits as nat);
    reveal_strlit("-");
    if decimal(hits as nat) == "-"@ {
        assert(is_digit(decimal(hits as nat)[0]));
    }
}

} // verus!
