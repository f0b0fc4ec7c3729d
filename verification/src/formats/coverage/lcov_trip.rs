//! The round trip of a coverage report through an LCOV tracefile: what reading
//! gives back of what was written.

use vstd::prelude::*;
use vstd::utf8::encode_utf8;

use crate::error::ErrorView;
use crate::formats::coverage::lcov::{
    acc_at, arm_at, arm_of, arm_reads_back, arms_on, branch_lines, branch_on, brda_line, brda_lines,
    built, da_line, digits_lack, empty_acc, file_lines, first_arms_read, fn_line, fn_of, fnda_line,
    fnda_of, folded, function_lines, function_of, hit, line_records_read_back, name_at, opened,
    put_function, read_spec, recorded, report_lines, stepped, take_arm, taken_on, written, ArmView,
    FileAccView, StateView,
};
use crate::formats::coverage::{line_at, reached};
use crate::model::coverage::{
    branch_total, covered_count, distinct_files, sort_doc, sort_file, Branch, CoverageDocView,
    FileCoverage, FileCoverageView, Function, FunctionView, Line,
};
use crate::order::{sorted, sorting_forgets_the_order, sorting_passes_through};
use crate::paths::normalized;
use crate::registry::DocView;
use crate::text::{
    contains_char, decimal, decimal_reads_back, encoded_text_reads_back, is_digit, is_line,
    is_white, lacks_char, lex_lt_total, lines, split_once, split_once_at, text_in, trim, trim_end,
    trim_start, unlines, written_lines_read_back, written_numbers_parse,
};
use crate::value::flat;
use crate::warn::CtxView;

verus! {

// ---------------------------------------------------------------------------
// What a tracefile can tell
// ---------------------------------------------------------------------------

/// A path that a record can hold: normalized, and without line breaks and white
/// space around it.
pub open spec fn plain_path(path: Seq<char>) -> bool {
    path.len() > 0 && !contains_char(path, '\n') && trim(path) == path && normalized(path) == path
}

/// A function that its records can hold. The name of one with a line stands
/// behind a comma.
pub open spec fn plain_function(function: FunctionView) -> bool {
    &&& !contains_char(function.name, '\n')
    &&& function.name.len() > 0 ==> !is_white(function.name.last())
    &&& function.line is Some ==> !contains_char(function.name, ',')
}

/// A file that its records can hold, every function and every line once.
pub open spec fn plain_file(file: FileCoverageView) -> bool {
    &&& plain_path(file.path)
    &&& forall|i: int|
        0 <= i < file.functions.len() ==> plain_function(#[trigger] file.functions[i])
    &&& forall|i: int, j: int|
        0 <= i < j < file.functions.len() ==> (#[trigger] file.functions[i]).name != (
        #[trigger] file.functions[j]).name
    &&& forall|i: int, j: int|
        0 <= i < j < file.lines.len() ==> (#[trigger] file.lines[i]).number != (
        #[trigger] file.lines[j]).number
}

/// What is kept of the branches of a line: none beyond the total is covered.
pub open spec fn kept_branch(branch: Option<Branch>) -> Option<Branch> {
    match branch {
        Some(b) => if b.total == 0 {
            None
        } else if b.covered <= b.total {
            Some(b)
        } else {
            Some(Branch { covered: b.total, total: b.total })
        },
        None => None,
    }
}

pub open spec fn kept_line(line: Line) -> Line {
    Line { branch: kept_branch(line.branch), ..line }
}

pub open spec fn kept_function(function: FunctionView) -> FunctionView {
    FunctionView { signature: None, ..function }
}

pub open spec fn kept_file(file: FileCoverageView) -> FileCoverageView {
    FileCoverageView {
        lines: file.lines.map_values(|l: Line| kept_line(l)),
        functions: file.functions.map_values(|f: FunctionView| kept_function(f)),
        ..FileCoverageView::of(file.path)
    }
}

// ---------------------------------------------------------------------------
// Records
// ---------------------------------------------------------------------------

/// A line that is a record of a file.
pub open spec fn is_record(line: Seq<char>) -> bool {
    &&& trim(line) == line
    &&& line.len() > 0 && line[0] != '#'
    &&& line != "end_of_record"@
    &&& match split_once(line, ':') {
        Some((tag, _)) => tag != "SF"@,
        None => false,
    }
}

/// The file behind these records.
pub open spec fn acc_after(
    file: FileAccView,
    records: Seq<Seq<char>>,
    counts: Seq<(Seq<char>, u64)>,
) -> FileAccView
    decreases records.len(),
{
    if records.len() == 0 {
        file
    } else {
        let before = acc_after(file, records.drop_last(), counts);
        match split_once(records.last(), ':') {
            Some((tag, value)) => recorded(before, tag, value, counts),
            None => before,
        }
    }
}

proof fn acc_after_both(
    file: FileAccView,
    a: Seq<Seq<char>>,
    b: Seq<Seq<char>>,
    counts: Seq<(Seq<char>, u64)>,
)
    ensures
        acc_after(file, a + b, counts) == acc_after(acc_after(file, a, counts), b, counts),
    decreases b.len(),
{
    if b.len() == 0 {
        assert(a + b =~= a);
    } else {
        acc_after_both(file, a, b.drop_last(), counts);
        assert((a + b).drop_last() =~= a + b.drop_last());
    }
}

proof fn acc_after_keeps_the_path(
    file: FileAccView,
    records: Seq<Seq<char>>,
    counts: Seq<(Seq<char>, u64)>,
)
    ensures
        acc_after(file, records, counts).path == file.path,
    decreases records.len(),
{
    if records.len() > 0 {
        acc_after_keeps_the_path(file, records.drop_last(), counts);
    }
}

proof fn margins(s: Seq<char>)
    requires
        s.len() > 0,
        !is_white(s[0]),
        !is_white(s.last()),
    ensures
        trim(s) == s,
{
}

/// A record of a known tag is one line, and a record.
proof fn tagged(tag: Seq<char>, value: Seq<char>)
    requires
        tag == "TN"@ || tag == "FN"@ || tag == "FNDA"@ || tag == "FNF"@ || tag == "FNH"@ || tag
            == "BRDA"@ || tag == "BRF"@ || tag == "BRH"@ || tag == "DA"@ || tag == "LF"@ || tag
            == "LH"@,
        !contains_char(value, '\n'),
        value.len() > 0 ==> !is_white(value.last()),
    ensures
        is_record(tag.push(':') + value),
        is_line(tag.push(':') + value),
        split_once(tag.push(':') + value, ':') == Some((tag, value)),
{
    reveal_strlit("TN");
    reveal_strlit("FN");
    reveal_strlit("FNDA");
    reveal_strlit("FNF");
    reveal_strlit("FNH");
    reveal_strlit("BRDA");
    reveal_strlit("BRF");
    reveal_strlit("BRH");
    reveal_strlit("DA");
    reveal_strlit("LF");
    reveal_strlit("LH");
    reveal_strlit("SF");
    reveal_strlit("end_of_record");
    let s = tag.push(':') + value;
    lacks_char(tag, ':');
    split_once_at(tag, ':', value);
    lacks_char(value, '\n');
    lacks_char(s, '\n');
    assert forall|i: int| 0 <= i < s.len() implies #[trigger] s[i] != '\n' by {
        if i < tag.len() {
            assert(s[i] == tag[i]);
        } else if i > tag.len() {
            assert(s[i] == value[i - tag.len() - 1]);
        }
    }
    assert(s[0] == tag[0]);
    if value.len() > 0 {
        assert(s.last() == value.last());
    } else {
        assert(s.last() == ':');
    }
    assert(is_white('\r'));
    margins(s);
    assert(s != "end_of_record"@) by {
        assert("end_of_record"@[0] == 'e');
    }
}

/// The tags that mean something are different tags.
proof fn tags_apart()
    ensures
        "FN"@ != "DA"@,
        "FNDA"@ != "DA"@,
        "FNDA"@ != "FN"@,
        "BRDA"@ != "DA"@,
        "BRDA"@ != "FN"@,
        "BRDA"@ != "FNDA"@,
{
    reveal_strlit("DA");
    reveal_strlit("FN");
    reveal_strlit("FNDA");
    reveal_strlit("BRDA");
    assert("FN"@[0] != "DA"@[0]);
    assert("FNDA"@.len() == 4 && "BRDA"@.len() == 4 && "FN"@.len() == 2 && "DA"@.len() == 2);
    assert("BRDA"@[0] != "FNDA"@[0]);
}

proof fn digits_end_well(n: nat)
    ensures
        decimal(n).len() > 0,
        is_digit(decimal(n).last()),
        !is_white(decimal(n).last()),
        !contains_char(decimal(n), '\n'),
{
    decimal_reads_back(n);
    digits_lack(n, '\n');
}

// ---------------------------------------------------------------------------
// Functions
// ---------------------------------------------------------------------------

/// The function of this name, where there is one.
spec fn named(functions: Seq<FunctionView>, name: Seq<char>) -> Option<FunctionView> {
    if name_at(functions, name) < functions.len() {
        Some(functions[name_at(functions, name)])
    } else {
        None
    }
}

spec fn names_apart(functions: Seq<FunctionView>) -> bool {
    forall|i: int, j: int|
        0 <= i < j < functions.len() ==> (#[trigger] functions[i]).name != (
        #[trigger] functions[j]).name
}

proof fn name_at_props(functions: Seq<FunctionView>, name: Seq<char>)
    ensures
        0 <= name_at(functions, name) <= functions.len(),
        name_at(functions, name) < functions.len() ==> functions[name_at(functions, name)].name
            == name,
        forall|i: int|
            0 <= i < name_at(functions, name) ==> (#[trigger] functions[i]).name != name,
    decreases functions.len(),
{
    if functions.len() > 0 && functions[0].name != name {
        let rest = functions.skip(1);
        name_at_props(rest, name);
        let n = name_at(rest, name);
        assert forall|i: int| 0 <= i < n + 1 implies (#[trigger] functions[i]).name != name by {
            if i > 0 {
                assert(rest[i - 1] == functions[i]);
            }
        }
        if n < rest.len() {
            assert(rest[n] == functions[n + 1]);
        }
    }
}

proof fn name_is_at(functions: Seq<FunctionView>, i: int)
    requires
        names_apart(functions),
        0 <= i < functions.len(),
    ensures
        name_at(functions, functions[i].name) == i,
{
    let n = name_at(functions, functions[i].name);
    name_at_props(functions, functions[i].name);
    if n < i {
        assert(functions[n].name != functions[i].name);
    }
    if n > i {
        assert(functions[i].name != functions[i].name);
    }
}

proof fn putting_a_function(functions: Seq<FunctionView>, f: FunctionView, name: Seq<char>)
    requires
        names_apart(functions),
    ensures
        names_apart(put_function(functions, f.name, f)),
        named(put_function(functions, f.name, f), name) == if name == f.name {
            Some(f)
        } else {
            named(functions, name)
        },
{
    let at = name_at(functions, f.name);
    let r = put_function(functions, f.name, f);
    name_at_props(functions, f.name);
    name_at_props(functions, name);
    name_at_props(r, name);
    assert(names_apart(r)) by {
        assert forall|i: int, j: int| 0 <= i < j < r.len() implies (#[trigger] r[i]).name != (
        #[trigger] r[j]).name by {
            if at < functions.len() {
                assert(functions[at].name == f.name);
                assert(functions[i].name != functions[j].name);
            } else if j == functions.len() {
                assert(functions[i].name != f.name);
            } else {
                assert(functions[i].name != functions[j].name);
            }
        }
    }
    if name == f.name {
        if at < functions.len() {
            name_is_at(r, at);
        } else {
            name_is_at(r, functions.len() as int);
        }
    } else {
        let n = name_at(functions, name);
        if n < functions.len() {
            assert(r[n] == functions[n]);
            name_is_at(r, n);
        } else {
            let m = name_at(r, name);
            if m < r.len() {
                assert(r[m].name == name);
                if m < functions.len() {
                    assert(functions[m].name == name);
                }
            }
        }
    }
}

/// What is known of a function behind the `FN` records of the first `i`.
spec fn after_fn(functions: Seq<FunctionView>, i: int, name: Seq<char>) -> Option<FunctionView> {
    let j = name_at(functions, name);
    if j < i && j < functions.len() && functions[j].line is Some {
        Some(FunctionView { signature: None, hits: 0, ..functions[j] })
    } else {
        None
    }
}

/// And behind the `FNDA` records of the first `i`.
spec fn after_fnda(functions: Seq<FunctionView>, i: int, name: Seq<char>) -> Option<FunctionView> {
    let j = name_at(functions, name);
    if j < i && j < functions.len() {
        Some(kept_function(functions[j]))
    } else {
        after_fn(functions, functions.len() as int, name)
    }
}

proof fn fn_reads_back(f: FunctionView)
    requires
        plain_function(f),
        f.line is Some,
    ensures
        is_record(fn_line(f)[0]),
        is_line(fn_line(f)[0]),
        match split_once(fn_line(f)[0], ':') {
            Some((tag, value)) => tag == "FN"@ && fn_of(value) == Some((f.line->0, f.name)),
            None => false,
        },
{
    reveal_strlit("FN:");
    reveal_strlit("FN");
    reveal_strlit(",");
    let n = decimal(f.line->0 as nat);
    let value = n.push(',') + f.name;
    assert(fn_line(f)[0] =~= "FN"@.push(':') + value);
    digits_lack(f.line->0 as nat, ',');
    digits_lack(f.line->0 as nat, '\n');
    split_once_at(n, ',', f.name);
    written_numbers_parse(f.line->0 as u64);
    value_is_plain(n, f.name);
    tagged("FN"@, value);
}

proof fn value_is_plain(n: Seq<char>, name: Seq<char>)
    requires
        !contains_char(n, '\n'),
        !contains_char(name, '\n'),
        name.len() > 0 ==> !is_white(name.last()),
    ensures
        !contains_char(n.push(',') + name, '\n'),
        !is_white((n.push(',') + name).last()),
{
    let s = n.push(',') + name;
    lacks_char(n, '\n');
    lacks_char(name, '\n');
    lacks_char(s, '\n');
    assert forall|i: int| 0 <= i < s.len() implies #[trigger] s[i] != '\n' by {
        if i < n.len() {
            assert(s[i] == n[i]);
        } else if i > n.len() {
            assert(s[i] == name[i - n.len() - 1]);
        }
    }
    if name.len() > 0 {
        assert(s.last() == name.last());
    } else {
        assert(s.last() == ',');
    }
}

proof fn fnda_reads_back(f: FunctionView)
    requires
        plain_function(f),
    ensures
        is_record(fnda_line(f)),
        is_line(fnda_line(f)),
        match split_once(fnda_line(f), ':') {
            Some((tag, value)) => tag == "FNDA"@ && fnda_of(value) == Some((f.hits, f.name)),
            None => false,
        },
{
    reveal_strlit("FNDA:");
    reveal_strlit("FNDA");
    reveal_strlit(",");
    let n = decimal(f.hits as nat);
    let value = n.push(',') + f.name;
    assert(fnda_line(f) =~= "FNDA"@.push(':') + value);
    digits_lack(f.hits as nat, ',');
    digits_lack(f.hits as nat, '\n');
    split_once_at(n, ',', f.name);
    written_numbers_parse(f.hits);
    value_is_plain(n, f.name);
    tagged("FNDA"@, value);
}

/// Behind these records only the functions have changed.
spec fn same_but_functions(a: FileAccView, b: FileAccView) -> bool {
    a.path == b.path && a.lines == b.lines && a.arms == b.arms
}

proof fn fn_records(
    file: FileAccView,
    functions: Seq<FunctionView>,
    i: int,
    counts: Seq<(Seq<char>, u64)>,
)
    requires
        0 <= i <= functions.len(),
        names_apart(functions),
        forall|j: int| 0 <= j < functions.len() ==> plain_function(#[trigger] functions[j]),
        file.functions.len() == 0,
    ensures
        ({
            let r = acc_after(file, flat(functions.take(i), |f: FunctionView| fn_line(f)), counts);
            &&& same_but_functions(r, file)
            &&& names_apart(r.functions)
            &&& forall|name: Seq<char>| #[trigger]
                named(r.functions, name) == after_fn(functions, i, name)
        }),
    decreases i,
{
    let line = |f: FunctionView| fn_line(f);
    let r = acc_after(file, flat(functions.take(i), line), counts);
    if i == 0 {
        assert(functions.take(0) =~= Seq::empty());
        assert forall|name: Seq<char>| #[trigger]
            named(r.functions, name) == after_fn(functions, i, name) by {
            name_at_props(functions, name);
        }
    } else {
        fn_records(file, functions, i - 1, counts);
        let f = functions[i - 1];
        let before = flat(functions.take(i - 1), line);
        let b = acc_after(file, before, counts);
        assert(functions.take(i).drop_last() =~= functions.take(i - 1));
        acc_after_both(file, before, fn_line(f), counts);
        name_is_at(functions, i - 1);
        if f.line is Some {
            fn_reads_back(f);
            assert(fn_line(f).drop_last() =~= Seq::empty());
            assert(acc_after(b, fn_line(f).drop_last(), counts) == b);
            assert(named(b.functions, f.name) == after_fn(functions, i - 1, f.name));
            name_at_props(b.functions, f.name);
            let g = FunctionView { line: f.line, ..function_of(b.functions, f.name) };
            tags_apart();
            assert(r.functions == put_function(b.functions, f.name, g));
            putting_a_function(b.functions, g, f.name);
            assert forall|name: Seq<char>| #[trigger]
                named(r.functions, name) == after_fn(functions, i, name) by {
                putting_a_function(b.functions, g, name);
                name_at_props(functions, name);
                assert(named(b.functions, name) == after_fn(functions, i - 1, name));
            }
        } else {
            assert(r == b);
            assert forall|name: Seq<char>| #[trigger]
                named(r.functions, name) == after_fn(functions, i, name) by {
                assert(named(b.functions, name) == after_fn(functions, i - 1, name));
            }
        }
    }
}

proof fn fnda_records(
    file: FileAccView,
    functions: Seq<FunctionView>,
    i: int,
    counts: Seq<(Seq<char>, u64)>,
)
    requires
        0 <= i <= functions.len(),
        names_apart(functions),
        forall|j: int| 0 <= j < functions.len() ==> plain_function(#[trigger] functions[j]),
        names_apart(file.functions),
        forall|name: Seq<char>| #[trigger]
            named(file.functions, name) == after_fn(functions, functions.len() as int, name),
    ensures
        ({
            let r = acc_after(
                file,
                functions.map_values(|f: FunctionView| fnda_line(f)).take(i),
                counts,
            );
            &&& same_but_functions(r, file)
            &&& names_apart(r.functions)
            &&& forall|name: Seq<char>| #[trigger]
                named(r.functions, name) == after_fnda(functions, i, name)
        }),
    decreases i,
{
    let all = functions.map_values(|f: FunctionView| fnda_line(f));
    let r = acc_after(file, all.take(i), counts);
    if i == 0 {
        assert(all.take(0) =~= Seq::empty());
        assert forall|name: Seq<char>| #[trigger]
            named(r.functions, name) == after_fnda(functions, i, name) by {
            name_at_props(functions, name);
        }
    } else {
        fnda_records(file, functions, i - 1, counts);
        let f = functions[i - 1];
        let b = acc_after(file, all.take(i - 1), counts);
        assert(all.take(i).drop_last() =~= all.take(i - 1));
        assert(all.take(i).last() == fnda_line(f));
        name_is_at(functions, i - 1);
        fnda_reads_back(f);
        assert(named(b.functions, f.name) == after_fnda(functions, i - 1, f.name));
        name_at_props(b.functions, f.name);
        let known = function_of(b.functions, f.name);
        let g = FunctionView { hits: known.hits.wrapping_add(f.hits), ..known };
        assert(known.hits == 0);
        assert(g == kept_function(f));
        tags_apart();
        assert(r.functions == put_function(b.functions, f.name, g));
        putting_a_function(b.functions, g, f.name);
        assert forall|name: Seq<char>| #[trigger]
            named(r.functions, name) == after_fnda(functions, i, name) by {
            putting_a_function(b.functions, g, name);
            name_at_props(functions, name);
            assert(named(b.functions, name) == after_fnda(functions, i - 1, name));
        }
    }
}

// ---------------------------------------------------------------------------
// Lines
// ---------------------------------------------------------------------------

/// The line of this number, where there is one.
spec fn numbered(all: Seq<Line>, number: u32) -> Option<Line> {
    if line_at(all, number) < all.len() {
        Some(all[line_at(all, number)])
    } else {
        None
    }
}

spec fn numbers_apart(all: Seq<Line>) -> bool {
    forall|i: int, j: int|
        0 <= i < j < all.len() ==> (#[trigger] all[i]).number != (#[trigger] all[j]).number
}

proof fn line_at_props(all: Seq<Line>, number: u32)
    ensures
        0 <= line_at(all, number) <= all.len(),
        line_at(all, number) < all.len() ==> all[line_at(all, number)].number == number,
        forall|i: int| 0 <= i < line_at(all, number) ==> (#[trigger] all[i]).number != number,
    decreases all.len(),
{
    if all.len() > 0 && all[0].number != number {
        let rest = all.skip(1);
        line_at_props(rest, number);
        let n = line_at(rest, number);
        assert forall|i: int| 0 <= i < n + 1 implies (#[trigger] all[i]).number != number by {
            if i > 0 {
                assert(rest[i - 1] == all[i]);
            }
        }
        if n < rest.len() {
            assert(rest[n] == all[n + 1]);
        }
    }
}

proof fn line_is_at(all: Seq<Line>, i: int)
    requires
        numbers_apart(all),
        0 <= i < all.len(),
    ensures
        line_at(all, all[i].number) == i,
{
    let n = line_at(all, all[i].number);
    line_at_props(all, all[i].number);
    if n < i {
        assert(all[n].number != all[i].number);
    }
    if n > i {
        assert(all[i].number != all[i].number);
    }
}

proof fn hitting_a_line(all: Seq<Line>, number: u32, hits: u64, other: u32)
    requires
        numbers_apart(all),
    ensures
        numbers_apart(hit(all, number, hits)),
        numbered(hit(all, number, hits), other) == if other == number {
            match numbered(all, number) {
                Some(l) => Some(Line { hits: l.hits.wrapping_add(hits), ..l }),
                None => Some(Line { number, hits, branch: None }),
            }
        } else {
            numbered(all, other)
        },
{
    let at = line_at(all, number);
    let r = hit(all, number, hits);
    line_at_props(all, number);
    line_at_props(all, other);
    line_at_props(r, other);
    assert(numbers_apart(r)) by {
        assert forall|i: int, j: int| 0 <= i < j < r.len() implies (#[trigger] r[i]).number != (
        #[trigger] r[j]).number by {
            if at < all.len() {
                assert(all[i].number != all[j].number);
            } else if j == all.len() {
                assert(all[i].number != number);
            } else {
                assert(all[i].number != all[j].number);
            }
        }
    }
    if other == number {
        line_is_at(r, at);
    } else {
        let n = line_at(all, other);
        if n < all.len() {
            assert(r[n] == all[n]);
            line_is_at(r, n);
        } else {
            let m = line_at(r, other);
            if m < r.len() {
                assert(r[m].number == other);
                if m < all.len() {
                    assert(all[m].number == other);
                }
            }
        }
    }
}

/// How many arms are written for a line.
spec fn arm_count(line: Line) -> nat {
    match line.branch {
        Some(b) => b.total as nat,
        None => 0,
    }
}

/// The arms that are written for a line.
spec fn line_arms(line: Line) -> Seq<ArmView> {
    match line.branch {
        Some(b) => Seq::new(b.total as nat, |i: int| arm_of(line.number, b, i)),
        None => Seq::empty(),
    }
}

/// What is known of a line behind the arms of the first `i` lines.
spec fn after_arms(all: Seq<Line>, i: int, number: u32) -> Option<Line> {
    let j = line_at(all, number);
    if j < i && j < all.len() && arm_count(all[j]) > 0 {
        Some(Line { number, hits: 0, branch: None })
    } else {
        None
    }
}

/// And behind the `DA` records of the first `i`.
spec fn after_da(all: Seq<Line>, i: int, number: u32) -> Option<Line> {
    let j = line_at(all, number);
    if j < i && j < all.len() {
        Some(Line { branch: None, ..all[j] })
    } else {
        after_arms(all, all.len() as int, number)
    }
}

proof fn new_arms_go_last(arms: Seq<ArmView>, arm: ArmView)
    requires
        forall|i: int|
            0 <= i < arms.len() ==> (#[trigger] arms[i]).line != arm.line || arms[i].branch
                != arm.branch,
    ensures
        arm_at(arms, arm) == arms.len(),
    decreases arms.len(),
{
    if arms.len() > 0 {
        let rest = arms.skip(1);
        assert(arms[0].line != arm.line || arms[0].branch != arm.branch);
        assert forall|i: int| 0 <= i < rest.len() implies (#[trigger] rest[i]).line != arm.line
            || rest[i].branch != arm.branch by {
            assert(rest[i] == arms[i + 1]);
        }
        new_arms_go_last(rest, arm);
    }
}

/// The records of the first `n` arms of a line.
proof fn arms_of_a_line(
    file: FileAccView,
    line: Line,
    n: int,
    counts: Seq<(Seq<char>, u64)>,
)
    requires
        0 <= n <= arm_count(line),
        numbers_apart(file.lines),
        numbered(file.lines, line.number) is None,
        forall|i: int| 0 <= i < file.arms.len() ==> (#[trigger] file.arms[i]).line != line.number,
    ensures
        ({
            let r = acc_after(file, brda_lines(line).take(n), counts);
            &&& r.path == file.path
            &&& r.functions == file.functions
            &&& r.arms == file.arms + line_arms(line).take(n)
            &&& numbers_apart(r.lines)
            &&& forall|number: u32| #[trigger]
                numbered(r.lines, number) == if number == line.number && n > 0 {
                    Some(Line { number, hits: 0, branch: None })
                } else {
                    numbered(file.lines, number)
                }
        }),
    decreases n,
{
    let records = brda_lines(line);
    let r = acc_after(file, records.take(n), counts);
    if n == 0 {
        assert(records.take(0) =~= Seq::empty());
        assert(file.arms + line_arms(line).take(0) =~= file.arms);
    } else {
        arms_of_a_line(file, line, n - 1, counts);
        let branch = line.branch->0;
        let b = acc_after(file, records.take(n - 1), counts);
        let arm = arm_of(line.number, branch, n - 1);
        assert(records.take(n).drop_last() =~= records.take(n - 1));
        assert(records.take(n).last() == brda_line(line.number, branch, n - 1));
        arm_reads_back(line.number, branch, n - 1);
        tags_apart();
        assert(r == (FileAccView {
            lines: hit(b.lines, line.number, 0),
            arms: take_arm(b.arms, arm),
            ..b
        }));
        assert forall|i: int| 0 <= i < b.arms.len() implies (#[trigger] b.arms[i]).line != arm.line
            || b.arms[i].branch != arm.branch by {
            if i < file.arms.len() {
                assert(b.arms[i] == file.arms[i]);
            } else {
                let k = i - file.arms.len();
                assert(b.arms[i] == line_arms(line)[k]);
                decimal_reads_back(k as nat);
                decimal_reads_back((n - 1) as nat);
            }
        }
        new_arms_go_last(b.arms, arm);
        assert(r.arms =~= file.arms + line_arms(line).take(n));
        assert forall|number: u32| #[trigger]
            numbered(r.lines, number) == if number == line.number && n > 0 {
                Some(Line { number, hits: 0, branch: None })
            } else {
                numbered(file.lines, number)
            } by {
            hitting_a_line(b.lines, line.number, 0, number);
            assert(numbered(b.lines, line.number) == if n - 1 > 0 {
                Some(Line { number: line.number, hits: 0, branch: None })
            } else {
                None
            });
            assert(numbered(b.lines, number) == if number == line.number && n - 1 > 0 {
                Some(Line { number, hits: 0, branch: None })
            } else {
                numbered(file.lines, number)
            });
        }
        hitting_a_line(b.lines, line.number, 0, line.number);
    }
}

proof fn arm_records(
    file: FileAccView,
    all: Seq<Line>,
    i: int,
    counts: Seq<(Seq<char>, u64)>,
)
    requires
        0 <= i <= all.len(),
        numbers_apart(all),
        file.lines.len() == 0,
        file.arms.len() == 0,
    ensures
        ({
            let r = acc_after(file, flat(all.take(i), |l: Line| brda_lines(l)), counts);
            &&& r.path == file.path
            &&& r.functions == file.functions
            &&& r.arms == flat(all.take(i), |l: Line| line_arms(l))
            &&& forall|k: int|
                0 <= k < r.arms.len() ==> line_at(all, (#[trigger] r.arms[k]).line) < i
            &&& numbers_apart(r.lines)
            &&& forall|number: u32| #[trigger]
                numbered(r.lines, number) == after_arms(all, i, number)
        }),
    decreases i,
{
    let write = |l: Line| brda_lines(l);
    let keep = |l: Line| line_arms(l);
    let r = acc_after(file, flat(all.take(i), write), counts);
    if i == 0 {
        assert(all.take(0) =~= Seq::empty());
        assert(r.arms =~= flat(all.take(i), keep));
        assert forall|number: u32| #[trigger]
            numbered(r.lines, number) == after_arms(all, i, number) by {
            line_at_props(all, number);
        }
    } else {
        arm_records(file, all, i - 1, counts);
        let line = all[i - 1];
        let before = flat(all.take(i - 1), write);
        let b = acc_after(file, before, counts);
        assert(all.take(i).drop_last() =~= all.take(i - 1));
        acc_after_both(file, before, brda_lines(line), counts);
        line_is_at(all, i - 1);
        assert(numbered(b.lines, line.number) == after_arms(all, i - 1, line.number));
        let n = arm_count(line) as int;
        assert(brda_lines(line).take(n) =~= brda_lines(line));
        assert(line_arms(line).take(n) =~= line_arms(line));
        assert forall|k: int| 0 <= k < b.arms.len() implies (#[trigger] b.arms[k]).line
            != line.number by {
            assert(line_at(all, b.arms[k].line) < i - 1);
        }
        arms_of_a_line(b, line, n, counts);
        assert forall|k: int| 0 <= k < r.arms.len() implies line_at(
            all,
            (#[trigger] r.arms[k]).line,
        ) < i by {
            if k < b.arms.len() {
                assert(r.arms[k] == b.arms[k]);
            } else {
                assert(r.arms[k] == line_arms(line)[k - b.arms.len()]);
            }
        }
        assert forall|number: u32| #[trigger]
            numbered(r.lines, number) == after_arms(all, i, number) by {
            line_at_props(all, number);
            assert(numbered(b.lines, number) == after_arms(all, i - 1, number));
        }
    }
}

proof fn da_is_a_record(line: Line)
    ensures
        is_record(da_line(line)),
        is_line(da_line(line)),
{
    reveal_strlit("DA:");
    reveal_strlit("DA");
    reveal_strlit(",");
    let n = decimal(line.number as nat);
    let h = decimal(line.hits as nat);
    assert(da_line(line) =~= "DA"@.push(':') + (n.push(',') + h));
    digits_end_well(line.number as nat);
    digits_end_well(line.hits as nat);
    value_is_plain(n, h);
    tagged("DA"@, n.push(',') + h);
}

proof fn da_records(
    file: FileAccView,
    all: Seq<Line>,
    i: int,
    counts: Seq<(Seq<char>, u64)>,
)
    requires
        0 <= i <= all.len(),
        numbers_apart(all),
        numbers_apart(file.lines),
        forall|number: u32| #[trigger]
            numbered(file.lines, number) == after_arms(all, all.len() as int, number),
    ensures
        ({
            let r = acc_after(file, all.map_values(|l: Line| da_line(l)).take(i), counts);
            &&& r.path == file.path
            &&& r.functions == file.functions
            &&& r.arms == file.arms
            &&& numbers_apart(r.lines)
            &&& forall|number: u32| #[trigger]
                numbered(r.lines, number) == after_da(all, i, number)
        }),
    decreases i,
{
    let records = all.map_values(|l: Line| da_line(l));
    let r = acc_after(file, records.take(i), counts);
    if i == 0 {
        assert(records.take(0) =~= Seq::empty());
        assert forall|number: u32| #[trigger]
            numbered(r.lines, number) == after_da(all, i, number) by {
            line_at_props(all, number);
        }
    } else {
        da_records(file, all, i - 1, counts);
        let line = all[i - 1];
        let b = acc_after(file, records.take(i - 1), counts);
        assert(records.take(i).drop_last() =~= records.take(i - 1));
        assert(records.take(i).last() == da_line(line));
        line_is_at(all, i - 1);
        line_records_read_back(line, counts);
        assert(numbered(b.lines, line.number) == after_da(all, i - 1, line.number));
        assert(r == (FileAccView { lines: hit(b.lines, line.number, line.hits), ..b }));
        hitting_a_line(b.lines, line.number, line.hits, line.number);
        assert forall|number: u32| #[trigger]
            numbered(r.lines, number) == after_da(all, i, number) by {
            hitting_a_line(b.lines, line.number, line.hits, number);
            line_at_props(all, number);
            assert(numbered(b.lines, number) == after_da(all, i - 1, number));
        }
    }
}

// ---------------------------------------------------------------------------
// Branches
// ---------------------------------------------------------------------------

proof fn counts_add_up(a: Seq<ArmView>, b: Seq<ArmView>, number: u32)
    ensures
        arms_on(a + b, number) == arms_on(a, number) + arms_on(b, number),
        taken_on(a + b, number) == taken_on(a, number) + taken_on(b, number),
    decreases b.len(),
{
    if b.len() == 0 {
        assert(a + b =~= a);
    } else {
        counts_add_up(a, b.drop_last(), number);
        assert((a + b).drop_last() =~= a + b.drop_last());
    }
}

proof fn no_arms_elsewhere(arms: Seq<ArmView>, number: u32)
    requires
        forall|i: int| 0 <= i < arms.len() ==> (#[trigger] arms[i]).line != number,
    ensures
        arms_on(arms, number) == 0,
        taken_on(arms, number) == 0,
    decreases arms.len(),
{
    if arms.len() > 0 {
        assert(arms.last().line != number);
        no_arms_elsewhere(arms.drop_last(), number);
    }
}

/// How many of a line's arms are written as taken.
spec fn taken_count(line: Line) -> nat {
    match line.branch {
        Some(b) => if b.covered <= b.total {
            b.covered as nat
        } else {
            b.total as nat
        },
        None => 0,
    }
}

proof fn counts_of_a_line(line: Line, number: u32)
    ensures
        arms_on(line_arms(line), number) == if number == line.number {
            arm_count(line)
        } else {
            0
        },
        taken_on(line_arms(line), number) == if number == line.number {
            taken_count(line)
        } else {
            0
        },
{
    if number != line.number {
        no_arms_elsewhere(line_arms(line), number);
    } else if line.branch is Some {
        first_arms_read(line.number, line.branch->0, line.branch->0.total as int);
    }
}

proof fn counts_of_all(all: Seq<Line>, i: int, number: u32)
    requires
        0 <= i <= all.len(),
        numbers_apart(all),
    ensures
        ({
            let arms = flat(all.take(i), |l: Line| line_arms(l));
            let j = line_at(all, number);
            &&& arms_on(arms, number) == if j < i {
                arm_count(all[j])
            } else {
                0
            }
            &&& taken_on(arms, number) == if j < i {
                taken_count(all[j])
            } else {
                0
            }
        }),
    decreases i,
{
    let keep = |l: Line| line_arms(l);
    line_at_props(all, number);
    if i == 0 {
        assert(all.take(0) =~= Seq::empty());
    } else {
        counts_of_all(all, i - 1, number);
        assert(all.take(i).drop_last() =~= all.take(i - 1));
        assert(all.take(i).last() == all[i - 1]);
        counts_add_up(flat(all.take(i - 1), keep), line_arms(all[i - 1]), number);
        counts_of_a_line(all[i - 1], number);
        line_is_at(all, i - 1);
    }
}

proof fn branches_read_back(all: Seq<Line>, j: int)
    requires
        numbers_apart(all),
        0 <= j < all.len(),
    ensures
        branch_on(flat(all, |l: Line| line_arms(l)), all[j].number) == kept_branch(all[j].branch),
{
    assert(all.take(all.len() as int) =~= all);
    line_is_at(all, j);
    counts_of_all(all, all.len() as int, all[j].number);
}

// ---------------------------------------------------------------------------
// Files
// ---------------------------------------------------------------------------

/// The records of a file between its path and its end.
spec fn body_lines(file: FileCoverageView) -> Seq<Seq<char>> {
    function_lines(file.functions) + branch_lines(file.lines) + file.lines.map_values(
        |l: Line| da_line(l),
    ) + seq!["LF:"@ + decimal(file.lines.len()), "LH:"@ + decimal(covered_count(file.lines))]
}

/// A record that tells a number and that reading passes over.
proof fn summary_record(tag: Seq<char>, text: Seq<char>, n: nat)
    requires
        tag == "FNF"@ && text == "FNF:"@ || tag == "FNH"@ && text == "FNH:"@ || tag == "BRF"@
            && text == "BRF:"@ || tag == "BRH"@ && text == "BRH:"@ || tag == "LF"@ && text
            == "LF:"@ || tag == "LH"@ && text == "LH:"@,
    ensures
        is_record(text + decimal(n)),
        is_line(text + decimal(n)),
        split_once(text + decimal(n), ':') == Some((tag, decimal(n))),
        tag != "DA"@,
        tag != "FN"@,
        tag != "FNDA"@,
        tag != "BRDA"@,
{
    reveal_strlit("FNF");
    reveal_strlit("FNF:");
    reveal_strlit("FNH");
    reveal_strlit("FNH:");
    reveal_strlit("BRF");
    reveal_strlit("BRF:");
    reveal_strlit("BRH");
    reveal_strlit("BRH:");
    reveal_strlit("LF");
    reveal_strlit("LF:");
    reveal_strlit("LH");
    reveal_strlit("LH:");
    reveal_strlit("DA");
    reveal_strlit("FN");
    reveal_strlit("FNDA");
    reveal_strlit("BRDA");
    assert(tag.push(':') =~= text);
    digits_end_well(n);
    tagged(tag, decimal(n));
    assert(tag.len() == 3 || tag[0] == 'L');
    assert("DA"@.len() == 2 && "FN"@.len() == 2 && "FNDA"@.len() == 4 && "BRDA"@.len() == 4);
    assert("DA"@[0] == 'D' && "FN"@[0] == 'F');
}

/// Two such records change nothing.
proof fn summaries_change_nothing(
    file: FileAccView,
    records: Seq<Seq<char>>,
    counts: Seq<(Seq<char>, u64)>,
)
    requires
        records.len() == 2,
        forall|i: int|
            0 <= i < 2 ==> match split_once(#[trigger] records[i], ':') {
                Some((tag, _)) => tag != "DA"@ && tag != "FN"@ && tag != "FNDA"@ && tag != "BRDA"@,
                None => false,
            },
    ensures
        acc_after(file, records, counts) == file,
{
    let one = records.drop_last();
    assert(one.drop_last() =~= Seq::empty());
    assert(one.last() == records[0]);
    assert(records.last() == records[1]);
    assert(acc_after(file, one.drop_last(), counts) == file);
    assert(acc_after(file, one, counts) == file);
}

/// What the records of a file make of an empty one.
proof fn body_reads_back(file: FileCoverageView, counts: Seq<(Seq<char>, u64)>)
    requires
        plain_file(file),
    ensures
        ({
            let r = acc_after(empty_acc(file.path), body_lines(file), counts);
            &&& r.path == file.path
            &&& r.arms == flat(file.lines, |l: Line| line_arms(l))
            &&& names_apart(r.functions)
            &&& forall|name: Seq<char>| #[trigger]
                named(r.functions, name) == after_fnda(
                    file.functions,
                    file.functions.len() as int,
                    name,
                )
            &&& numbers_apart(r.lines)
            &&& forall|number: u32| #[trigger]
                numbered(r.lines, number) == after_da(
                    file.lines,
                    file.lines.len() as int,
                    number,
                )
        }),
{
    let start = empty_acc(file.path);
    let fs = file.functions;
    let ls = file.lines;
    let branches = branch_total(ls);
    let fn_part = flat(fs, |f: FunctionView| fn_line(f));
    let fnda_part = fs.map_values(|f: FunctionView| fnda_line(f));
    let fn_sums = if fs.len() > 0 {
        seq!["FNF:"@ + decimal(fs.len()), "FNH:"@ + decimal(reached(fs))]
    } else {
        Seq::empty()
    };
    let arm_part = flat(ls, |l: Line| brda_lines(l));
    let arm_sums = if branches.total > 0 {
        seq![
            "BRF:"@ + decimal(branches.total as nat),
            "BRH:"@ + decimal(branches.covered as nat),
        ]
    } else {
        Seq::empty()
    };
    let da_part = ls.map_values(|l: Line| da_line(l));
    let sums = seq!["LF:"@ + decimal(ls.len()), "LH:"@ + decimal(covered_count(ls))];

    assert(fs.take(fs.len() as int) =~= fs);
    fn_records(start, fs, fs.len() as int, counts);
    let a = acc_after(start, fn_part, counts);
    assert(fnda_part.take(fs.len() as int) =~= fnda_part);
    fnda_records(a, fs, fs.len() as int, counts);
    let b = acc_after(a, fnda_part, counts);
    summary_record("FNF"@, "FNF:"@, fs.len());
    summary_record("FNH"@, "FNH:"@, reached(fs));
    if fs.len() > 0 {
        summaries_change_nothing(b, fn_sums, counts);
    }
    assert(acc_after(b, fn_sums, counts) == b);
    assert(ls.take(ls.len() as int) =~= ls);
    arm_records(b, ls, ls.len() as int, counts);
    let c = acc_after(b, arm_part, counts);
    summary_record("BRF"@, "BRF:"@, branches.total as nat);
    summary_record("BRH"@, "BRH:"@, branches.covered as nat);
    if branches.total > 0 {
        summaries_change_nothing(c, arm_sums, counts);
    }
    assert(acc_after(c, arm_sums, counts) == c);
    assert(da_part.take(ls.len() as int) =~= da_part);
    da_records(c, ls, ls.len() as int, counts);
    let d = acc_after(c, da_part, counts);
    summary_record("LF"@, "LF:"@, ls.len());
    summary_record("LH"@, "LH:"@, covered_count(ls));
    summaries_change_nothing(d, sums, counts);

    acc_after_both(start, fn_part, fnda_part, counts);
    acc_after_both(start, fn_part + fnda_part, fn_sums, counts);
    assert(function_lines(fs) == fn_part + fnda_part + fn_sums);
    acc_after_both(b, arm_part, arm_sums, counts);
    assert(branch_lines(ls) == arm_part + arm_sums);
    acc_after_both(start, function_lines(fs), branch_lines(ls), counts);
    acc_after_both(start, function_lines(fs) + branch_lines(ls), da_part, counts);
    acc_after_both(start, function_lines(fs) + branch_lines(ls) + da_part, sums, counts);
    assert(body_lines(file) == function_lines(fs) + branch_lines(ls) + da_part + sums);
}

proof fn functions_sort_alike(a: Seq<FunctionView>, functions: Seq<FunctionView>)
    requires
        names_apart(a),
        names_apart(functions),
        forall|name: Seq<char>| #[trigger]
            named(a, name) == after_fnda(functions, functions.len() as int, name),
    ensures
        sorted::<Function>(a) == sorted::<Function>(
            functions.map_values(|f: FunctionView| kept_function(f)),
        ),
{
    let b = functions.map_values(|f: FunctionView| kept_function(f));
    assert(a.no_duplicates()) by {
        assert forall|i: int, j: int| 0 <= i < a.len() && 0 <= j < a.len() && i != j implies a[i]
            != a[j] by {
            if i < j {
                assert(a[i].name != a[j].name);
            } else {
                assert(a[j].name != a[i].name);
            }
        }
    }
    assert(b.no_duplicates()) by {
        assert forall|i: int, j: int| 0 <= i < b.len() && 0 <= j < b.len() && i != j implies b[i]
            != b[j] by {
            if i < j {
                assert(functions[i].name != functions[j].name);
            } else {
                assert(functions[j].name != functions[i].name);
            }
        }
    }
    assert forall|v: FunctionView| #[trigger] a.contains(v) <==> b.contains(v) by {
        if a.contains(v) {
            let i = choose|i: int| 0 <= i < a.len() && a[i] == v;
            name_is_at(a, i);
            assert(named(a, v.name) == after_fnda(functions, functions.len() as int, v.name));
            name_at_props(functions, v.name);
            assert(b[name_at(functions, v.name)] == v);
        }
        if b.contains(v) {
            let i = choose|i: int| 0 <= i < b.len() && b[i] == v;
            name_is_at(functions, i);
            assert(named(a, v.name) == after_fnda(functions, functions.len() as int, v.name));
            name_at_props(a, v.name);
            assert(a[name_at(a, v.name)] == v);
        }
    }
    assert forall|u: FunctionView, v: FunctionView|
        a.contains(u) && a.contains(v) && u != v implies #[trigger]
    <Function as crate::order::Ranked>::precedes(u, v)
        || <Function as crate::order::Ranked>::precedes(v, u) by {
        let i = choose|i: int| 0 <= i < a.len() && a[i] == u;
        let j = choose|j: int| 0 <= j < a.len() && a[j] == v;
        if i < j {
            assert(a[i].name != a[j].name);
        } else {
            assert(a[j].name != a[i].name);
        }
        lex_lt_total(u.name, v.name);
    }
    sorting_forgets_the_order::<Function>(a, b);
}

proof fn lines_sort_alike(a: Seq<Line>, arms: Seq<ArmView>, all: Seq<Line>)
    requires
        numbers_apart(a),
        numbers_apart(all),
        arms == flat(all, |l: Line| line_arms(l)),
        forall|number: u32| #[trigger]
            numbered(a, number) == after_da(all, all.len() as int, number),
    ensures
        sorted::<Line>(a.map_values(|l: Line| Line { branch: branch_on(arms, l.number), ..l }))
            == sorted::<Line>(all.map_values(|l: Line| kept_line(l))),
{
    let x = a.map_values(|l: Line| Line { branch: branch_on(arms, l.number), ..l });
    let y = all.map_values(|l: Line| kept_line(l));
    assert(x.no_duplicates()) by {
        assert forall|i: int, j: int| 0 <= i < x.len() && 0 <= j < x.len() && i != j implies x[i]
            != x[j] by {
            if i < j {
                assert(a[i].number != a[j].number);
            } else {
                assert(a[j].number != a[i].number);
            }
        }
    }
    assert(y.no_duplicates()) by {
        assert forall|i: int, j: int| 0 <= i < y.len() && 0 <= j < y.len() && i != j implies y[i]
            != y[j] by {
            if i < j {
                assert(all[i].number != all[j].number);
            } else {
                assert(all[j].number != all[i].number);
            }
        }
    }
    assert forall|v: Line| #[trigger] x.contains(v) <==> y.contains(v) by {
        if x.contains(v) {
            let i = choose|i: int| 0 <= i < x.len() && x[i] == v;
            line_is_at(a, i);
            assert(numbered(a, v.number) == after_da(all, all.len() as int, v.number));
            line_at_props(all, v.number);
            let j = line_at(all, v.number);
            branches_read_back(all, j);
            assert(y[j] == v);
        }
        if y.contains(v) {
            let j = choose|j: int| 0 <= j < y.len() && y[j] == v;
            line_is_at(all, j);
            assert(numbered(a, v.number) == after_da(all, all.len() as int, v.number));
            line_at_props(a, v.number);
            branches_read_back(all, j);
            assert(x[line_at(a, v.number)] == v);
        }
    }
    assert forall|u: Line, v: Line| x.contains(u) && x.contains(v) && u != v implies #[trigger]
    <Line as crate::order::Ranked>::precedes(u, v) || <Line as crate::order::Ranked>::precedes(
        v,
        u,
    ) by {
        let i = choose|i: int| 0 <= i < x.len() && x[i] == u;
        let j = choose|j: int| 0 <= j < x.len() && x[j] == v;
        if i < j {
            assert(a[i].number != a[j].number);
        } else {
            assert(a[j].number != a[i].number);
        }
    }
    sorting_forgets_the_order::<Line>(x, y);
}

/// A file's records read as that file, put in order.
proof fn file_reads_back(file: FileCoverageView, counts: Seq<(Seq<char>, u64)>)
    requires
        plain_file(file),
    ensures
        sort_file(built(acc_after(empty_acc(file.path), body_lines(file), counts))) == sort_file(
            kept_file(file),
        ),
{
    let r = acc_after(empty_acc(file.path), body_lines(file), counts);
    body_reads_back(file, counts);
    functions_sort_alike(r.functions, file.functions);
    lines_sort_alike(r.lines, r.arms, file.lines);
}

// ---------------------------------------------------------------------------
// The report
// ---------------------------------------------------------------------------

spec fn all_records(records: Seq<Seq<char>>) -> bool {
    forall|i: int|
        0 <= i < records.len() ==> is_record(#[trigger] records[i]) && is_line(records[i])
}

proof fn records_together(a: Seq<Seq<char>>, b: Seq<Seq<char>>)
    requires
        all_records(a),
        all_records(b),
    ensures
        all_records(a + b),
{
    assert forall|i: int| 0 <= i < (a + b).len() implies is_record(#[trigger] (a + b)[i])
        && is_line((a + b)[i]) by {
        if i < a.len() {
            assert((a + b)[i] == a[i]);
        } else {
            assert((a + b)[i] == b[i - a.len()]);
        }
    }
}

proof fn fn_lines_are_records(functions: Seq<FunctionView>)
    requires
        forall|j: int| 0 <= j < functions.len() ==> plain_function(#[trigger] functions[j]),
    ensures
        all_records(flat(functions, |f: FunctionView| fn_line(f))),
    decreases functions.len(),
{
    if functions.len() > 0 {
        fn_lines_are_records(functions.drop_last());
        let f = functions.last();
        assert(plain_function(functions[functions.len() - 1]));
        if f.line is Some {
            fn_reads_back(f);
        }
        records_together(
            flat(functions.drop_last(), |f: FunctionView| fn_line(f)),
            fn_line(f),
        );
    }
}

proof fn brda_is_a_record(number: u32, branch: Branch, index: int)
    requires
        0 <= index < branch.total,
    ensures
        is_record(brda_line(number, branch, index)),
        is_line(brda_line(number, branch, index)),
{
    reveal_strlit("BRDA:");
    reveal_strlit("BRDA");
    reveal_strlit(",0,");
    reveal_strlit(",1");
    reveal_strlit(",-");
    let n = decimal(number as nat);
    let k = decimal(index as nat);
    let end = if index < branch.covered {
        seq!['1']
    } else {
        seq!['-']
    };
    let last = k.push(',') + end;
    let middle = seq!['0'].push(',') + last;
    let value = n.push(',') + middle;
    assert(brda_line(number, branch, index) =~= "BRDA"@.push(':') + value);
    digits_end_well(number as nat);
    digits_end_well(index as nat);
    lacks_char(end, '\n');
    lacks_char(seq!['0'], '\n');
    value_is_plain(k, end);
    value_is_plain(seq!['0'], last);
    value_is_plain(n, middle);
    tagged("BRDA"@, value);
}

proof fn arm_lines_are_records(all: Seq<Line>)
    ensures
        all_records(flat(all, |l: Line| brda_lines(l))),
    decreases all.len(),
{
    if all.len() > 0 {
        arm_lines_are_records(all.drop_last());
        let line = all.last();
        assert(all_records(brda_lines(line))) by {
            assert forall|i: int| 0 <= i < brda_lines(line).len() implies is_record(
                #[trigger] brda_lines(line)[i],
            ) && is_line(brda_lines(line)[i]) by {
                brda_is_a_record(line.number, line.branch->0, i);
            }
        }
        records_together(flat(all.drop_last(), |l: Line| brda_lines(l)), brda_lines(line));
    }
}

proof fn body_is_records(file: FileCoverageView)
    requires
        plain_file(file),
    ensures
        all_records(body_lines(file)),
{
    let fs = file.functions;
    let ls = file.lines;
    let branches = branch_total(ls);
    let fn_part = flat(fs, |f: FunctionView| fn_line(f));
    let fnda_part = fs.map_values(|f: FunctionView| fnda_line(f));
    let fn_sums = if fs.len() > 0 {
        seq!["FNF:"@ + decimal(fs.len()), "FNH:"@ + decimal(reached(fs))]
    } else {
        Seq::empty()
    };
    let arm_part = flat(ls, |l: Line| brda_lines(l));
    let arm_sums = if branches.total > 0 {
        seq![
            "BRF:"@ + decimal(branches.total as nat),
            "BRH:"@ + decimal(branches.covered as nat),
        ]
    } else {
        Seq::empty()
    };
    let da_part = ls.map_values(|l: Line| da_line(l));
    let sums = seq!["LF:"@ + decimal(ls.len()), "LH:"@ + decimal(covered_count(ls))];
    fn_lines_are_records(fs);
    assert(all_records(fnda_part)) by {
        assert forall|i: int| 0 <= i < fnda_part.len() implies is_record(#[trigger] fnda_part[i])
            && is_line(fnda_part[i]) by {
            assert(plain_function(fs[i]));
            fnda_reads_back(fs[i]);
        }
    }
    summary_record("FNF"@, "FNF:"@, fs.len());
    summary_record("FNH"@, "FNH:"@, reached(fs));
    arm_lines_are_records(ls);
    summary_record("BRF"@, "BRF:"@, branches.total as nat);
    summary_record("BRH"@, "BRH:"@, branches.covered as nat);
    assert(all_records(da_part)) by {
        assert forall|i: int| 0 <= i < da_part.len() implies is_record(#[trigger] da_part[i])
            && is_line(da_part[i]) by {
            da_is_a_record(ls[i]);
        }
    }
    summary_record("LF"@, "LF:"@, ls.len());
    summary_record("LH"@, "LH:"@, covered_count(ls));
    records_together(fn_part, fnda_part);
    records_together(fn_part + fnda_part, fn_sums);
    records_together(arm_part, arm_sums);
    records_together(function_lines(fs), branch_lines(ls));
    records_together(function_lines(fs) + branch_lines(ls), da_part);
    records_together(function_lines(fs) + branch_lines(ls) + da_part, sums);
}

proof fn one_more_line(
    before: Seq<Seq<char>>,
    line: Seq<char>,
    s: StateView,
    t: StateView,
    counts: Seq<(Seq<char>, u64)>,
)
    requires
        folded(before, counts) == Ok::<StateView, ErrorView>(s),
        stepped(s, line, before.len() + 1, counts) == Ok::<StateView, ErrorView>(t),
    ensures
        folded(before.push(line), counts) == Ok::<StateView, ErrorView>(t),
{
    assert(before.push(line).drop_last() =~= before);
}

proof fn last_file_is_found(files: Seq<FileAccView>)
    requires
        files.len() > 0,
        forall|i: int|
            0 <= i < files.len() - 1 ==> (#[trigger] files[i]).path != files.last().path,
    ensures
        acc_at(files, files.last().path) == files.len() - 1,
    decreases files.len(),
{
    if files.len() > 1 {
        assert(files[0].path != files.last().path);
        let rest = files.skip(1);
        assert(rest.last() == files.last());
        assert forall|i: int| 0 <= i < rest.len() - 1 implies (#[trigger] rest[i]).path
            != rest.last().path by {
            assert(rest[i] == files[i + 1]);
        }
        last_file_is_found(rest);
    }
}

proof fn no_file_is_found(files: Seq<FileAccView>, path: Seq<char>)
    requires
        forall|i: int| 0 <= i < files.len() ==> (#[trigger] files[i]).path != path,
    ensures
        acc_at(files, path) == files.len(),
    decreases files.len(),
{
    if files.len() > 0 {
        assert(files[0].path != path);
        let rest = files.skip(1);
        assert forall|i: int| 0 <= i < rest.len() implies (#[trigger] rest[i]).path != path by {
            assert(rest[i] == files[i + 1]);
        }
        no_file_is_found(rest, path);
    }
}

/// Records go to the file that was opened last.
proof fn records_go_to_the_last_file(
    before: Seq<Seq<char>>,
    records: Seq<Seq<char>>,
    s: StateView,
    counts: Seq<(Seq<char>, u64)>,
)
    requires
        folded(before, counts) == Ok::<StateView, ErrorView>(s),
        all_records(records),
        s.files.len() > 0,
        s.current == Some(s.files.last().path),
        forall|i: int|
            0 <= i < s.files.len() - 1 ==> (#[trigger] s.files[i]).path != s.files.last().path,
    ensures
        folded(before + records, counts) == Ok::<StateView, ErrorView>(
            StateView {
                files: s.files.drop_last().push(acc_after(s.files.last(), records, counts)),
                ..s
            },
        ),
    decreases records.len(),
{
    if records.len() == 0 {
        assert(before + records =~= before);
        assert(s.files.drop_last().push(s.files.last()) =~= s.files);
    } else {
        let fewer = records.drop_last();
        assert(all_records(fewer)) by {
            assert forall|i: int| 0 <= i < fewer.len() implies is_record(#[trigger] fewer[i])
                && is_line(fewer[i]) by {
                assert(fewer[i] == records[i]);
            }
        }
        records_go_to_the_last_file(before, fewer, s, counts);
        let file = acc_after(s.files.last(), fewer, counts);
        let mid = StateView { files: s.files.drop_last().push(file), ..s };
        acc_after_keeps_the_path(s.files.last(), fewer, counts);
        assert(mid.files.last() == file);
        assert forall|i: int| 0 <= i < mid.files.len() - 1 implies (#[trigger] mid.files[i]).path
            != mid.files.last().path by {
            assert(mid.files[i] == s.files[i]);
        }
        last_file_is_found(mid.files);
        let line = records.last();
        assert(is_record(records[records.len() - 1]));
        let t = StateView {
            files: s.files.drop_last().push(acc_after(s.files.last(), records, counts)),
            ..s
        };
        assert(mid.files.update(
            mid.files.len() - 1,
            acc_after(s.files.last(), records, counts),
        ) =~= t.files);
        one_more_line(before + fewer, line, mid, t, counts);
        assert((before + fewer).push(line) =~= before + records);
    }
}

/// The line that names a file.
proof fn path_reads_back(path: Seq<char>)
    requires
        plain_path(path),
    ensures
        is_line("SF:"@ + path),
        trim("SF:"@ + path) == "SF:"@ + path,
        ("SF:"@ + path)[0] == 'S',
        ("SF:"@ + path) != "end_of_record"@,
        split_once("SF:"@ + path, ':') == Some(("SF"@, path)),
{
    reveal_strlit("SF:");
    reveal_strlit("SF");
    reveal_strlit("end_of_record");
    let s = "SF:"@ + path;
    assert(s =~= "SF"@.push(':') + path);
    lacks_char("SF"@, ':');
    split_once_at("SF"@, ':', path);
    assert(!is_white(path.last())) by {
        trimmed_ends_are_dark(path);
    }
    lacks_char(path, '\n');
    lacks_char(s, '\n');
    assert forall|i: int| 0 <= i < s.len() implies #[trigger] s[i] != '\n' by {
        if i >= 3 {
            assert(s[i] == path[i - 3]);
        }
    }
    assert(s.last() == path.last());
    assert(is_white('\r'));
    margins(s);
    assert("end_of_record"@[0] == 'e');
}

proof fn trimmed_ends_are_dark(s: Seq<char>)
    requires
        trim(s) == s,
        s.len() > 0,
    ensures
        !is_white(s.last()),
{
    trim_start_is_shorter(s);
    trim_end_is_shorter(trim_start(s));
    if is_white(s.last()) {
        assert(trim_start(s).len() == s.len());
        start_keeps_all(s);
        assert(trim_end(s) == trim_end(s.drop_last()));
        trim_end_is_shorter(s.drop_last());
    }
}

proof fn trim_start_is_shorter(s: Seq<char>)
    ensures
        trim_start(s).len() <= s.len(),
    decreases s.len(),
{
    if s.len() > 0 && is_white(s[0]) {
        trim_start_is_shorter(s.skip(1));
    }
}

proof fn start_keeps_all(s: Seq<char>)
    requires
        trim_start(s).len() == s.len(),
    ensures
        trim_start(s) == s,
{
    if s.len() > 0 && is_white(s[0]) {
        trim_start_is_shorter(s.skip(1));
    }
}

proof fn trim_end_is_shorter(s: Seq<char>)
    ensures
        trim_end(s).len() <= s.len(),
    decreases s.len(),
{
    if s.len() > 0 && is_white(s.last()) {
        trim_end_is_shorter(s.drop_last());
    }
}

/// The lines of a file add that file.
proof fn file_is_added(
    before: Seq<Seq<char>>,
    file: FileCoverageView,
    s: StateView,
    counts: Seq<(Seq<char>, u64)>,
)
    requires
        plain_file(file),
        folded(before, counts) == Ok::<StateView, ErrorView>(s),
        s.current is None,
        forall|i: int| 0 <= i < s.files.len() ==> (#[trigger] s.files[i]).path != file.path,
    ensures
        folded(before + file_lines(file), counts) == Ok::<StateView, ErrorView>(
            StateView {
                files: s.files.push(acc_after(empty_acc(file.path), body_lines(file), counts)),
                ..s
            },
        ),
        forall|i: int| 0 <= i < file_lines(file).len() ==> is_line(#[trigger] file_lines(file)[i]),
{
    reveal_strlit("TN:");
    reveal_strlit("TN");
    reveal_strlit("end_of_record");
    let name = "SF:"@ + file.path;
    let body = body_lines(file);
    let all = file_lines(file);
    assert(all =~= seq!["TN:"@, name] + body + seq!["end_of_record"@]);
    lacks_char(Seq::<char>::empty(), '\n');
    assert("TN:"@ =~= "TN"@.push(':') + Seq::<char>::empty());
    tagged("TN"@, Seq::empty());
    one_more_line(before, "TN:"@, s, s, counts);
    path_reads_back(file.path);
    no_file_is_found(s.files, file.path);
    let acc = empty_acc(file.path);
    let open = StateView { files: s.files.push(acc), current: Some(file.path) };
    assert(opened(s, file.path) == open);
    one_more_line(before.push("TN:"@), name, s, open, counts);
    let head = before.push("TN:"@).push(name);
    assert(open.files.last() == acc);
    assert forall|i: int| 0 <= i < open.files.len() - 1 implies (#[trigger] open.files[i]).path
        != open.files.last().path by {
        assert(open.files[i] == s.files[i]);
    }
    body_is_records(file);
    records_go_to_the_last_file(head, body, open, counts);
    let filled = StateView {
        files: s.files.push(acc_after(acc, body, counts)),
        current: Some(file.path),
    };
    assert(open.files.drop_last() =~= s.files);
    let end = StateView { files: filled.files, current: None };
    margins("end_of_record"@);
    one_more_line(head + body, "end_of_record"@, filled, end, counts);
    assert((head + body).push("end_of_record"@) =~= before + all);
    lacks_char("end_of_record"@, '\n');
    assert forall|i: int| 0 <= i < all.len() implies is_line(#[trigger] all[i]) by {
        if 2 <= i < 2 + body.len() {
            assert(all[i] == body[i - 2]);
        }
    }
}

spec fn paths_apart(files: Seq<FileCoverageView>) -> bool {
    forall|i: int, j: int|
        0 <= i < j < files.len() ==> (#[trigger] files[i]).path != (#[trigger] files[j]).path
}

proof fn files_are_added(files: Seq<FileCoverageView>, n: int, counts: Seq<(Seq<char>, u64)>)
    requires
        0 <= n <= files.len(),
        forall|i: int| 0 <= i < files.len() ==> plain_file(#[trigger] files[i]),
        paths_apart(files),
    ensures
        ({
            let all = flat(files.take(n), |f: FileCoverageView| file_lines(f));
            &&& folded(all, counts) == Ok::<StateView, ErrorView>(
                StateView {
                    files: files.take(n).map_values(
                        |f: FileCoverageView|
                            acc_after(empty_acc(f.path), body_lines(f), counts),
                    ),
                    current: None,
                },
            )
            &&& forall|i: int| 0 <= i < all.len() ==> is_line(#[trigger] all[i])
        }),
    decreases n,
{
    let write = |f: FileCoverageView| file_lines(f);
    let keep = |f: FileCoverageView| acc_after(empty_acc(f.path), body_lines(f), counts);
    let all = flat(files.take(n), write);
    if n == 0 {
        assert(files.take(0) =~= Seq::empty());
        assert(files.take(0).map_values(keep) =~= Seq::empty());
    } else {
        files_are_added(files, n - 1, counts);
        let before = flat(files.take(n - 1), write);
        let file = files[n - 1];
        let s = StateView { files: files.take(n - 1).map_values(keep), current: None };
        assert(files.take(n).drop_last() =~= files.take(n - 1));
        assert forall|i: int| 0 <= i < s.files.len() implies (#[trigger] s.files[i]).path
            != file.path by {
            acc_after_keeps_the_path(empty_acc(files[i].path), body_lines(files[i]), counts);
            assert(s.files[i].path == files[i].path);
        }
        file_is_added(before, file, s, counts);
        assert(s.files.push(keep(file)) =~= files.take(n).map_values(keep));
        assert forall|i: int| 0 <= i < all.len() implies is_line(#[trigger] all[i]) by {
            if i < before.len() {
                assert(all[i] == before[i]);
            } else {
                assert(all[i] == file_lines(file)[i - before.len()]);
            }
        }
    }
}

/// Whatever is written as a tracefile reads back: the files with their lines,
/// hits, branches and functions, in canonical order. What the format has no
/// room for is gone: the time and roots of the report, the counters, and what a
/// function's signature is.
pub proof fn reports_read_back(doc: CoverageDocView, counts: Seq<(Seq<char>, u64)>)
    requires
        doc.files.len() > 0,
        forall|i: int| 0 <= i < doc.files.len() ==> plain_file(#[trigger] doc.files[i]),
        distinct_files(doc.files),
    ensures
        read_spec(lines(unlines(report_lines(doc))), counts) == Ok::<DocView, ErrorView>(
            DocView::Coverage(
                sort_doc(
                    CoverageDocView {
                        files: doc.files.map_values(|f: FileCoverageView| kept_file(f)),
                        ..CoverageDocView::empty()
                    },
                ),
            ),
        ),
{
    let files = doc.files;
    let n = files.len() as int;
    assert(files.take(n) =~= files);
    files_are_added(files, n, counts);
    let all = report_lines(doc);
    written_lines_read_back(all);
    let collect = |f: FileCoverageView| acc_after(empty_acc(f.path), body_lines(f), counts);
    let accs = files.map_values(collect);
    let read = accs.map_values(|f: FileAccView| built(f));
    let kept = files.map_values(|f: FileCoverageView| kept_file(f));
    let order = |f: FileCoverageView| sort_file(f);
    assert(read.map_values(order) =~= kept.map_values(order)) by {
        assert forall|i: int| 0 <= i < n implies read.map_values(order)[i] == kept.map_values(
            order,
        )[i] by {
            assert(plain_file(files[i]));
            file_reads_back(files[i], counts);
        }
    }
    sorting_passes_through::<FileCoverage>(read, order);
    sorting_passes_through::<FileCoverage>(kept, order);
}

/// The same from bytes to bytes: reading the encoding of what was written gives
/// back what was written.
pub proof fn written_bytes_read_back(
    doc: CoverageDocView,
    counts: Seq<(Seq<char>, u64)>,
    ctx: CtxView,
)
    requires
        doc.files.len() > 0,
        forall|i: int| 0 <= i < doc.files.len() ==> plain_file(#[trigger] doc.files[i]),
        distinct_files(doc.files),
    ensures
        match written(DocView::Coverage(doc), ctx).0 {
            Ok(text) => read_spec(lines(text_in(encode_utf8(text))), counts) == Ok::<
                DocView,
                ErrorView,
            >(
                DocView::Coverage(
                    sort_doc(
                        CoverageDocView {
                            files: doc.files.map_values(|f: FileCoverageView| kept_file(f)),
                            ..CoverageDocView::empty()
                        },
                    ),
                ),
            ),
            Err(_) => false,
        },
{
    reports_read_back(doc, counts);
    encoded_text_reads_back(unlines(report_lines(doc)));
}

} // verus!
