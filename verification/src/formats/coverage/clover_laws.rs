//! What reading and writing a Clover report promises.

use vstd::prelude::*;

use crate::formats::coverage::clover::{
    declared_at, file_counted, flushed, folded, last_number, line_collected, line_of, lines_counted,
    metrics_attrs, read_spec, started, stepped, Metrics, StateView,
};
use crate::model::coverage::{
    sort_file, FileCoverage, FileCoverageView, Function, FunctionView, Line,
};
use crate::order::{sorted, sorted_props, sorting_keeps_members};
use crate::paths::normalized;
use crate::registry::DocView;
use crate::text::decimal;
use crate::xml::{EventView, TagView};

verus! {

// ---------------------------------------------------------------------------
// Lines
// ---------------------------------------------------------------------------

/// A number that may be missing, which then is zero.
pub open spec fn stated(n: Option<u64>) -> u64 {
    match n {
        Some(n) => n,
        None => 0,
    }
}

/// A conditional line has two outcomes, of which those are covered that were seen,
/// and was run as often as both together. Any other line was run as often as its
/// count says and has no branches. Without a number it is no line.
pub proof fn lines_are_read_by_their_type(tag: TagView)
    ensures
        match (tag.attr_u32("num"@), line_of(tag)) {
            (Some(number), Some(line)) => {
                let yes = stated(tag.attr_u64("truecount"@));
                let no = stated(tag.attr_u64("falsecount"@));
                &&& line.number == number
                &&& tag.attr("type"@) == Some("cond"@) ==> {
                    &&& yes + no <= u64::MAX ==> line.hits == yes + no
                    &&& line.branch is Some
                    &&& line.branch->0.total == 2
                    &&& line.branch->0.covered == 0 <==> yes == 0 && no == 0
                    &&& line.branch->0.covered == 2 <==> yes > 0 && no > 0
                    &&& line.branch->0.covered <= 2
                }
                &&& tag.attr("type"@) != Some("cond"@) ==> line.branch is None && line.hits
                    == stated(tag.attr_u64("count"@))
            },
            (None, None) => true,
            _ => false,
        },
{
    reveal_strlit("stmt");
    reveal_strlit("cond");
    assert("stmt"@[0] == 's' && "cond"@[0] == 'c');
}

/// A line is added behind those of its file, and where it is that of a method, the
/// method is a function of the file too, under its name and with its hits.
pub proof fn method_lines_are_functions(file: FileCoverageView, tag: TagView)
    requires
        line_of(tag) is Some,
    ensures
        ({
            let after = line_collected(file, tag);
            let line = line_of(tag)->0;
            &&& after.path == file.path
            &&& after.lines == file.lines.push(line)
            &&& tag.attr("type"@) == Some("method"@) ==> {
                &&& after.functions.len() == file.functions.len() + 1
                &&& after.functions.drop_last() == file.functions
                &&& after.functions.last().line == Some(line.number)
                &&& after.functions.last().hits == line.hits
                &&& after.functions.last().name == match tag.attr("name"@) {
                    Some(name) => name,
                    None => ""@,
                }
            }
            &&& tag.attr("type"@) != Some("method"@) ==> after.functions == file.functions
        }),
{
    reveal_strlit("stmt");
    reveal_strlit("method");
    assert("stmt"@.len() == 4 && "method"@.len() == 6);
    if tag.attr("type"@) == Some("method"@) {
        let f = line_collected(file, tag).functions.last();
        assert(file.functions.push(f).drop_last() =~= file.functions);
    }
}

// ---------------------------------------------------------------------------
// Elements
// ---------------------------------------------------------------------------

proof fn names_differ()
    ensures
        "coverage"@ != "project"@ && "coverage"@ != "file"@ && "coverage"@ != "line"@,
        "project"@ != "file"@ && "project"@ != "line"@,
        "file"@ != "line"@,
{
    reveal_strlit("coverage");
    reveal_strlit("project");
    reveal_strlit("file");
    reveal_strlit("line");
    assert("coverage"@.len() == 8);
    assert("project"@.len() == 7);
    assert("file"@.len() == 4);
    assert("line"@.len() == 4);
    assert("file"@[0] == 'f');
    assert("line"@[0] == 'l');
}

/// A `<file>` is at its path, or without one at its name, and opens behind the one
/// before it; one with neither is refused.
pub proof fn files_are_at_their_path(s: StateView, tag: TagView)
    requires
        tag.name == "file"@,
    ensures
        ({
            let at = match (tag.attr("path"@), tag.attr("name"@)) {
                (Some(path), _) => Some(path),
                (None, name) => name,
            };
            match (at, started(s, tag)) {
                (Some(path), Ok(after)) => {
                    &&& normalized(path).len() > 0
                    &&& after.current == Some(FileCoverageView::of(normalized(path)))
                    &&& after.doc.files == match s.current {
                        Some(file) => s.doc.files.push(file),
                        None => s.doc.files,
                    }
                },
                (Some(path), Err(_)) => normalized(path).len() == 0,
                (None, r) => r is Err,
            }
        }),
{
    names_differ();
}

/// A `<line>` goes to the file that is open, whose end hands it to the report.
pub proof fn lines_belong_to_the_open_file(s: StateView, tag: TagView)
    requires
        tag.name == "line"@,
    ensures
        match (s.current, started(s, tag)) {
            (Some(file), Ok(after)) => {
                &&& after.current == Some(line_collected(file, tag))
                &&& after.doc == s.doc
                &&& match stepped(after, EventView::End("file"@)) {
                    Ok(closed) => closed.current is None && closed.doc.files == s.doc.files.push(
                        line_collected(file, tag),
                    ),
                    Err(_) => false,
                }
            },
            (None, Ok(after)) => after == s,
            _ => false,
        },
{
    names_differ();
}

/// The report was made when its root says, and where it does not say, when its
/// project does. A Cobertura report is refused.
pub proof fn times_are_of_the_root_or_the_project(s: StateView, root: TagView, project: TagView)
    requires
        root.name == "coverage"@,
        project.name == "project"@,
    ensures
        match started(s, root) {
            Ok(open) => {
                &&& open.saw_root
                &&& !(root.attr("clover"@) is None && root.attr("line-rate"@) is Some)
                &&& open.doc.timestamp == root.attr_i64("generated"@)
                &&& match started(open, project) {
                    Ok(after) => after.doc.timestamp == match root.attr_i64("generated"@) {
                        Some(t) => Some(t),
                        None => project.attr_i64("timestamp"@),
                    },
                    Err(_) => false,
                }
            },
            Err(_) => root.attr("clover"@) is None && root.attr("line-rate"@) is Some,
        },
{
    names_differ();
}

/// A report with its root holds every file that was read, the open one too, with
/// its lines and functions.
pub proof fn read_files_are_reported(events: Seq<EventView>, i: int)
    requires
        read_spec(events) is Ok,
        0 <= i < flushed(folded(events)->Ok_0).doc.files.len(),
    ensures
        match read_spec(events) {
            Ok(DocView::Coverage(doc)) => {
                let s = folded(events)->Ok_0;
                let all = match s.current {
                    Some(file) => s.doc.files.push(file),
                    None => s.doc.files,
                };
                &&& s.saw_root
                &&& doc.files.len() == all.len()
                &&& exists|k: int|
                    0 <= k < doc.files.len() && (#[trigger] doc.files[k]).path == all[i].path
                        && doc.files[k].lines.to_multiset() == all[i].lines.to_multiset()
                        && doc.files[k].functions.to_multiset() == all[i].functions.to_multiset()
            },
            _ => false,
        },
{
    let files = flushed(folded(events)->Ok_0).doc.files;
    assert(files.contains(files[i]));
    sorting_keeps_members::<FileCoverage>(files, files[i]);
    sorted_props::<FileCoverage>(files);
    let order = sorted::<FileCoverage>(files);
    let k = choose|k: int| 0 <= k < order.len() && order[k] == files[i];
    sorted_props::<Line>(files[i].lines);
    sorted_props::<Function>(files[i].functions);
    let doc = read_spec(events)->Ok_0->Coverage_0;
    assert(doc.files[k] == sort_file(files[i]));
}

// ---------------------------------------------------------------------------
// Metrics
// ---------------------------------------------------------------------------

/// Whether a line is that of a declared function.
pub open spec fn declares(functions: Seq<FunctionView>, line: Line) -> bool {
    exists|i: int| 0 <= i < functions.len() && (#[trigger] functions[i]).line == Some(line.number)
}

proof fn declared_at_props(functions: Seq<FunctionView>, line: Line)
    ensures
        declared_at(functions, line.number) < functions.len() <==> declares(functions, line),
        0 <= declared_at(functions, line.number) <= functions.len(),
    decreases functions.len(),
{
    if functions.len() > 0 {
        let tail = functions.skip(1);
        declared_at_props(tail, line);
        if functions[0].line == Some(line.number) {
            assert(declares(functions, line));
        } else {
            if declares(tail, line) {
                let i = choose|i: int|
                    0 <= i < tail.len() && (#[trigger] tail[i]).line == Some(line.number);
                assert(functions[i + 1].line == Some(line.number));
            }
            if declares(functions, line) {
                let i = choose|i: int|
                    0 <= i < functions.len() && (#[trigger] functions[i]).line == Some(line.number);
                assert(tail[i - 1].line == Some(line.number));
            }
        }
    }
}

/// The metrics of the lines of a file: a statement for each line that is neither
/// conditional nor declares a function, a method for each that declares one, two
/// conditionals for each conditional one. Covered are the statements and methods
/// that ran, and at most two outcomes of each conditional.
pub proof fn metrics_count_the_lines(
    m: Metrics,
    functions: Seq<FunctionView>,
    lines: Seq<Line>,
    line: Line,
)
    requires
        lines_counted(m, functions, lines).statements < u64::MAX,
        lines_counted(m, functions, lines).covered_statements < u64::MAX,
        lines_counted(m, functions, lines).methods < u64::MAX,
        lines_counted(m, functions, lines).covered_methods < u64::MAX,
        lines_counted(m, functions, lines).conditionals < u64::MAX - 2,
        lines_counted(m, functions, lines).covered_conditionals < u64::MAX - 2,
    ensures
        lines_counted(m, functions, Seq::empty()) == m,
        ({
            let a = lines_counted(m, functions, lines);
            let b = lines_counted(m, functions, lines.push(line));
            let ran: int = if line.hits > 0 {
                1
            } else {
                0
            };
            let method = line.branch is None && declares(functions, line);
            let statement = line.branch is None && !declares(functions, line);
            &&& b.statements == a.statements + if statement {
                1int
            } else {
                0
            }
            &&& b.covered_statements == a.covered_statements + if statement {
                ran
            } else {
                0
            }
            &&& b.methods == a.methods + if method {
                1int
            } else {
                0
            }
            &&& b.covered_methods == a.covered_methods + if method {
                ran
            } else {
                0
            }
            &&& match line.branch {
                Some(branch) => {
                    &&& b.conditionals == a.conditionals + 2
                    &&& b.covered_conditionals == a.covered_conditionals + if branch.covered >= 2 {
                        2int
                    } else {
                        branch.covered as int
                    }
                },
                None => b.conditionals == a.conditionals && b.covered_conditionals
                    == a.covered_conditionals,
            }
            &&& b.classes == a.classes && b.loc == a.loc
        }),
{
    assert(lines.push(line).drop_last() =~= lines);
    declared_at_props(functions, line);
}

/// A file adds one class and as many lines of code as its last line's number.
pub proof fn files_count_their_length(m: Metrics, file: FileCoverageView, i: int)
    requires
        m.classes < u64::MAX,
        m.loc + u32::MAX <= u64::MAX,
        0 <= i < file.lines.len(),
    ensures
        file_counted(m, file).classes == m.classes + 1,
        file_counted(m, file).loc >= m.loc + file.lines[i].number,
        exists|k: int|
            0 <= k < file.lines.len() && file_counted(m, file).loc == m.loc + (
            #[trigger] file.lines[k]).number,
{
    let base = Metrics {
        classes: m.classes.wrapping_add(1),
        loc: m.loc.wrapping_add(last_number(file.lines) as u64),
        ..m
    };
    lines_leave_length_alone(base, file.functions, file.lines);
    last_number_props(file.lines);
    let k = choose|k: int|
        0 <= k < file.lines.len() && (#[trigger] file.lines[k]).number == last_number(file.lines);
    assert(file.lines[k].number == last_number(file.lines));
    assert(file.lines[i].number <= last_number(file.lines));
}

proof fn lines_leave_length_alone(m: Metrics, functions: Seq<FunctionView>, lines: Seq<Line>)
    ensures
        lines_counted(m, functions, lines).classes == m.classes,
        lines_counted(m, functions, lines).loc == m.loc,
    decreases lines.len(),
{
    if lines.len() > 0 {
        lines_leave_length_alone(m, functions, lines.drop_last());
    }
}

proof fn last_number_props(lines: Seq<Line>)
    ensures
        forall|i: int| 0 <= i < lines.len() ==> (#[trigger] lines[i]).number <= last_number(lines),
        lines.len() > 0 ==> exists|k: int|
            0 <= k < lines.len() && (#[trigger] lines[k]).number == last_number(lines),
    decreases lines.len(),
{
    if lines.len() > 0 {
        let head = lines.drop_last();
        last_number_props(head);
        assert forall|i: int| 0 <= i < lines.len() implies (#[trigger] lines[i]).number
            <= last_number(lines) by {
            if i < head.len() {
                assert(head[i] == lines[i]);
            }
        }
        if lines.last().number > last_number(head) {
            assert(lines[lines.len() - 1].number == last_number(lines));
        } else if head.len() > 0 {
            let k = choose|k: int|
                0 <= k < head.len() && (#[trigger] head[k]).number == last_number(head);
            assert(lines[k].number == last_number(lines));
        } else {
            assert(lines[lines.len() - 1].number == last_number(lines));
        }
    }
}

/// Each metric is written under its own name, and the elements are the statements,
/// conditionals and methods together.
pub proof fn metrics_are_written_by_name(m: Metrics, project_level: bool)
    requires
        m.statements + m.conditionals + m.methods <= u64::MAX,
        m.covered_statements + m.covered_conditionals + m.covered_methods <= u64::MAX,
    ensures
        ({
            let a = metrics_attrs(m, project_level);
            &&& a.contains(("loc"@, decimal(m.loc as nat)))
            &&& a.contains(("ncloc"@, decimal(m.loc as nat)))
            &&& a.contains(("classes"@, decimal(m.classes as nat)))
            &&& project_level ==> a.contains(("files"@, decimal(m.classes as nat)))
            &&& a.contains(("statements"@, decimal(m.statements as nat)))
            &&& a.contains(("coveredstatements"@, decimal(m.covered_statements as nat)))
            &&& a.contains(("conditionals"@, decimal(m.conditionals as nat)))
            &&& a.contains(("coveredconditionals"@, decimal(m.covered_conditionals as nat)))
            &&& a.contains(("methods"@, decimal(m.methods as nat)))
            &&& a.contains(("coveredmethods"@, decimal(m.covered_methods as nat)))
            &&& a.contains(
                ("elements"@, decimal((m.statements + m.conditionals + m.methods) as nat)),
            )
            &&& a.contains(
                (
                    "coveredelements"@,
                    decimal(
                        (m.covered_statements + m.covered_conditionals + m.covered_methods) as nat,
                    ),
                ),
            )
        }),
{
    let a = metrics_attrs(m, project_level);
    let n: int = if project_level {
        4
    } else {
        3
    };
    assert(a[0].0 == "loc"@ && a[1].0 == "ncloc"@ && a[2].0 == "classes"@);
    assert(project_level ==> a[3].0 == "files"@);
    assert(a[n].0 == "statements"@ && a[n + 1].0 == "coveredstatements"@);
    assert(a[n + 2].0 == "conditionals"@ && a[n + 3].0 == "coveredconditionals"@);
    assert(a[n + 4].0 == "methods"@ && a[n + 5].0 == "coveredmethods"@);
    assert(a[n + 6].0 == "elements"@ && a[n + 7].0 == "coveredelements"@);
}

} // verus!
