//! What reading and writing a JaCoCo report promises.

use vstd::prelude::*;

use crate::formats::coverage::jacoco::{
    class_attrs, counter_item, counters_items, ended, file_totaled, files_totaled, folded,
    line_attrs, line_of, method_attrs, method_counter, no_totals, read_spec, started, StateView,
    TargetView,
};
use crate::model::coverage::{
    branch_total, covered_count, file_at, file_at_props, name_part, sort_file, stem_part, Branch,
    Counter, FileCoverage, FileCoverageView, Function, FunctionView, Line,
};
use crate::model::coverage_laws::covered_lines_were_hit;
use crate::order::{sorted, sorted_props, sorting_keeps_members};
use crate::paths::normalized;
use crate::registry::DocView;
use crate::text::{decimal, replace_char, split_once};
use crate::value::non_empty;
use crate::xml::{empty_item, EventView, TagView};

verus! {

// ---------------------------------------------------------------------------
// Lines
// ---------------------------------------------------------------------------

/// A line is covered exactly where one of its instructions was, counted once. Its
/// branches are the missed and the covered ones together; without any it has no
/// branch record. Without a number it is no line.
pub proof fn lines_are_covered_by_an_instruction(tag: TagView)
    ensures
        match (tag.attr_u32("nr"@), line_of(tag)) {
            (Some(number), Some(line)) => {
                let missed: int = match tag.attr_u32("mb"@) {
                    Some(n) => n as int,
                    None => 0,
                };
                let covered: int = match tag.attr_u32("cb"@) {
                    Some(n) => n as int,
                    None => 0,
                };
                &&& line.number == number
                &&& line.hits <= 1
                &&& line.hits == 1 <==> (tag.attr_u64("ci"@) matches Some(n) && n > 0)
                &&& missed + covered <= u32::MAX ==> match line.branch {
                    Some(b) => b.covered == covered && b.total == missed + covered && b.total > 0,
                    None => missed + covered == 0,
                }
            },
            (None, None) => true,
            _ => false,
        },
{
}

proof fn names_differ()
    ensures
        "report"@ != "package"@ && "report"@ != "class"@ && "report"@ != "method"@
            && "report"@ != "sourcefile"@ && "report"@ != "line"@ && "report"@ != "counter"@,
        "package"@ != "class"@ && "package"@ != "method"@ && "package"@ != "sourcefile"@
            && "package"@ != "line"@ && "package"@ != "counter"@,
        "class"@ != "method"@ && "class"@ != "sourcefile"@ && "class"@ != "line"@
            && "class"@ != "counter"@,
        "method"@ != "sourcefile"@ && "method"@ != "line"@ && "method"@ != "counter"@,
        "sourcefile"@ != "line"@ && "sourcefile"@ != "counter"@,
        "line"@ != "counter"@,
{
    reveal_strlit("report");
    reveal_strlit("package");
    reveal_strlit("class");
    reveal_strlit("method");
    reveal_strlit("sourcefile");
    reveal_strlit("line");
    reveal_strlit("counter");
    assert("report"@.len() == 6);
    assert("package"@.len() == 7);
    assert("class"@.len() == 5);
    assert("method"@.len() == 6);
    assert("sourcefile"@.len() == 10);
    assert("line"@.len() == 4);
    assert("counter"@.len() == 7);
    assert("counter"@[0] == 'c');
    assert("method"@[0] == 'm');
    assert("package"@[0] == 'p');
    assert("report"@[0] == 'r');
}

/// A `<line>` goes to the source file that is open, behind the lines it has, and
/// changes nothing else; without an open one it goes nowhere.
pub proof fn lines_belong_to_the_open_source(s: StateView, tag: TagView, i: int)
    requires
        tag.name == "line"@,
        0 <= i < s.files.len(),
    ensures
        ({
            let after = started(s, tag);
            let mine = s.source_file matches Some(path) && file_at(s.files, path) == i;
            &&& after.files.len() == s.files.len()
            &&& after.files[i].path == s.files[i].path
            &&& after.files[i].functions == s.files[i].functions
            &&& after.files[i].counters == s.files[i].counters
            &&& after.files[i].lines == if mine && line_of(tag) is Some {
                s.files[i].lines.push(line_of(tag)->0)
            } else {
                s.files[i].lines
            }
            &&& after.source_file == s.source_file
            &&& after.target == s.target
            &&& after.package == s.package
        }),
{
    names_differ();
    if let Some(path) = s.source_file {
        file_at_props(s.files, path);
    }
}

/// A package names the directory of the sources behind it, and a source file is
/// at its name in that directory. The end of a source file closes it.
pub proof fn sources_are_in_their_package(s: StateView, package: TagView, source: TagView)
    requires
        package.name == "package"@,
        source.name == "sourcefile"@,
    ensures
        ({
            let inside = started(s, package);
            let directory = match package.attr("name"@) {
                Some(name) => replace_char(name, '\\', '/'),
                None => replace_char(""@, '\\', '/'),
            };
            let open = started(inside, source);
            &&& inside.package == directory
            &&& inside.files == s.files
            &&& open.package == directory
            &&& match source.attr("name"@) {
                Some(name) => {
                    let path = if directory.len() == 0 {
                        normalized(name)
                    } else {
                        normalized(directory + "/"@ + name)
                    };
                    &&& open.source_file == Some(path)
                    &&& file_at(open.files, path) < open.files.len()
                    &&& open.files.len() <= s.files.len() + 1
                    &&& forall|i: int|
                        0 <= i < s.files.len() ==> #[trigger] open.files[i] == s.files[i]
                },
                None => open.source_file is None && open.files == s.files,
            }
            &&& ended(open, "sourcefile"@).source_file is None
            &&& ended(open, "sourcefile"@).files == open.files
        }),
{
    names_differ();
    let inside = started(s, package);
    let open = started(inside, source);
    if let Some(name) = source.attr("name"@) {
        let path = open.source_file->0;
        file_at_props(inside.files, path);
        file_at_props(open.files, path);
        if file_at(inside.files, path) == inside.files.len() {
            assert(open.files[inside.files.len() as int].path == path);
        }
    }
}

// ---------------------------------------------------------------------------
// Classes, methods and counters
// ---------------------------------------------------------------------------

/// A class belongs to its source file in the package; without source information,
/// to the outermost class it is nested in.
pub proof fn classes_belong_to_their_source(s: StateView, tag: TagView)
    requires
        tag.name == "class"@,
    ensures
        ({
            let after = started(s, tag);
            match (tag.attr("sourcefilename"@), tag.attr("name"@)) {
                (Some(name), _) => after.target == TargetView::Class(
                    normalized(
                        if s.package.len() == 0 {
                            name
                        } else {
                            s.package + "/"@ + name
                        },
                    ),
                ),
                (None, Some(binary)) => {
                    let slashed = replace_char(binary, '\\', '/');
                    match split_once(slashed, '$') {
                        Some((outer, _)) => after.target == TargetView::Class(normalized(outer)),
                        None => after.target == TargetView::Class(normalized(slashed)),
                    }
                },
                (None, None) => after.target is Nothing && after.files == s.files,
            }
        }),
        ended(started(s, tag), "class"@).target is Nothing,
{
    names_differ();
}

/// A method is a function of its class' file, under its name, with its descriptor
/// and its line, and has not run before its counter says so. Its end hands the
/// counters back to the class.
pub proof fn methods_become_functions(s: StateView, path: Seq<char>, tag: TagView)
    requires
        tag.name == "method"@,
        s.target == TargetView::Class(path),
        file_at(s.files, path) < s.files.len(),
    ensures
        ({
            let at = file_at(s.files, path);
            let before = s.files[at].functions;
            let after = started(s, tag);
            let function = after.files[at].functions.last();
            &&& after.files[at].functions.len() == before.len() + 1
            &&& after.files[at].functions.drop_last() == before
            &&& after.files[at].lines == s.files[at].lines
            &&& function.name == match tag.attr("name"@) {
                Some(name) => name,
                None => ""@,
            }
            &&& function.signature == non_empty(tag.attr("desc"@))
            &&& function.line == tag.attr_u32("line"@)
            &&& function.hits == 0
            &&& after.target == TargetView::Method(path, before.len() as int)
            &&& ended(after, "method"@).target == TargetView::Class(path)
            &&& ended(after, "method"@).files == after.files
            &&& forall|i: int|
                0 <= i < s.files.len() && i != at ==> #[trigger] after.files[i] == s.files[i]
        }),
{
    names_differ();
    file_at_props(s.files, path);
    let at = file_at(s.files, path);
    let before = s.files[at].functions;
    assert(started(s, tag).files[at].functions.drop_last() =~= before);
}

/// A method ran exactly where its instruction counter says that an instruction was
/// covered; its other counters say nothing.
pub proof fn methods_run_by_their_instructions(
    s: StateView,
    path: Seq<char>,
    index: int,
    tag: TagView,
)
    requires
        tag.name == "counter"@,
        s.target == TargetView::Method(path, index),
        file_at(s.files, path) < s.files.len(),
        0 <= index < s.files[file_at(s.files, path)].functions.len(),
    ensures
        ({
            let at = file_at(s.files, path);
            let after = started(s, tag);
            let function = after.files[at].functions[index];
            let known = s.files[at].functions[index];
            &&& tag.attr("type"@) == Some("INSTRUCTION"@) ==> {
                &&& function.hits <= 1
                &&& function.hits == 1 <==> (tag.attr_u64("covered"@) matches Some(n) && n > 0)
                &&& function.name == known.name
                &&& function.line == known.line
            }
            &&& tag.attr("type"@) != Some("INSTRUCTION"@) ==> after.files == s.files
            &&& after.files[at].lines == s.files[at].lines
            &&& after.files[at].counters == s.files[at].counters
        }),
{
    names_differ();
    file_at_props(s.files, path);
}

/// Whether a counter has grown by what a tag states.
pub open spec fn grown(before: Option<Counter>, after: Option<Counter>, tag: TagView) -> bool {
    let missed: int = match tag.attr_u64("missed"@) {
        Some(n) => n as int,
        None => 0,
    };
    let covered: int = match tag.attr_u64("covered"@) {
        Some(n) => n as int,
        None => 0,
    };
    match (before, after) {
        (Some(a), Some(b)) => {
            &&& a.missed + missed <= u64::MAX ==> b.missed == a.missed + missed
            &&& a.covered + covered <= u64::MAX ==> b.covered == a.covered + covered
        },
        (None, Some(b)) => b.missed == missed && b.covered == covered,
        _ => false,
    }
}

proof fn kinds_differ()
    ensures
        "INSTRUCTION"@ != "COMPLEXITY"@ && "INSTRUCTION"@ != "METHOD"@
            && "INSTRUCTION"@ != "CLASS"@ && "INSTRUCTION"@ != "LINE"@
            && "INSTRUCTION"@ != "BRANCH"@,
        "COMPLEXITY"@ != "METHOD"@ && "COMPLEXITY"@ != "CLASS"@ && "COMPLEXITY"@ != "LINE"@
            && "COMPLEXITY"@ != "BRANCH"@,
        "METHOD"@ != "CLASS"@ && "METHOD"@ != "LINE"@ && "METHOD"@ != "BRANCH"@,
        "CLASS"@ != "LINE"@ && "CLASS"@ != "BRANCH"@,
        "LINE"@ != "BRANCH"@,
{
    reveal_strlit("INSTRUCTION");
    reveal_strlit("COMPLEXITY");
    reveal_strlit("METHOD");
    reveal_strlit("CLASS");
    reveal_strlit("LINE");
    reveal_strlit("BRANCH");
    assert("INSTRUCTION"@.len() == 11);
    assert("COMPLEXITY"@.len() == 10);
    assert("METHOD"@.len() == 6);
    assert("CLASS"@.len() == 5);
    assert("LINE"@.len() == 4);
    assert("BRANCH"@.len() == 6);
    assert("BRANCH"@[0] == 'B');
    assert("METHOD"@[0] == 'M');
}

/// A class adds its instruction, complexity, method and class counters to those of
/// its file, each to its own kind; its line and branch counters are not kept, for
/// the lines give them.
pub proof fn classes_add_their_counters(s: StateView, path: Seq<char>, tag: TagView)
    requires
        tag.name == "counter"@,
        s.target == TargetView::Class(path),
        file_at(s.files, path) < s.files.len(),
    ensures
        ({
            let at = file_at(s.files, path);
            let a = s.files[at].counters;
            let b = started(s, tag).files[at].counters;
            let kind = tag.attr("type"@);
            &&& if kind == Some("INSTRUCTION"@) {
                grown(a.instruction, b.instruction, tag)
            } else {
                a.instruction == b.instruction
            }
            &&& if kind == Some("COMPLEXITY"@) {
                grown(a.complexity, b.complexity, tag)
            } else {
                a.complexity == b.complexity
            }
            &&& if kind == Some("METHOD"@) {
                grown(a.method, b.method, tag)
            } else {
                a.method == b.method
            }
            &&& if kind == Some("CLASS"@) {
                grown(a.class, b.class, tag)
            } else {
                a.class == b.class
            }
            &&& started(s, tag).files[at].lines == s.files[at].lines
            &&& started(s, tag).files[at].functions == s.files[at].functions
            &&& started(s, tag).target == s.target
        }),
{
    names_differ();
    kinds_differ();
    file_at_props(s.files, path);
}

/// A report without its root is refused, and one with it holds every file that was
/// entered, with its lines, functions and counters.
pub proof fn entered_files_are_reported(events: Seq<EventView>, i: int)
    requires
        folded(events) is Ok,
        0 <= i < folded(events)->Ok_0.files.len(),
    ensures
        match read_spec(events) {
            Ok(DocView::Coverage(doc)) => {
                let file = folded(events)->Ok_0.files[i];
                &&& folded(events)->Ok_0.saw_root
                &&& doc.files.len() == folded(events)->Ok_0.files.len()
                &&& exists|k: int|
                    0 <= k < doc.files.len() && (#[trigger] doc.files[k]).path == file.path
                        && doc.files[k].lines.to_multiset() == file.lines.to_multiset()
                        && doc.files[k].functions.to_multiset() == file.functions.to_multiset()
                        && doc.files[k].counters == file.counters
            },
            Ok(_) => false,
            Err(_) => !folded(events)->Ok_0.saw_root,
        },
{
    let s = folded(events)->Ok_0;
    if s.saw_root {
        let file = s.files[i];
        assert(s.files.contains(file));
        sorting_keeps_members::<FileCoverage>(s.files, file);
        sorted_props::<FileCoverage>(s.files);
        let order = sorted::<FileCoverage>(s.files);
        let k = choose|k: int| 0 <= k < order.len() && order[k] == file;
        sorted_props::<Line>(file.lines);
        sorted_props::<Function>(file.functions);
        let doc = read_spec(events)->Ok_0->Coverage_0;
        assert(doc.files[k] == sort_file(file));
    }
}

// ---------------------------------------------------------------------------
// Totals
// ---------------------------------------------------------------------------

/// The counters of one file: a line is covered or missed, a branch is covered or
/// missed, and there is a branch counter exactly where there is a branch. What
/// bytecode counters it has are written as they are; an instruction counter is made
/// up only where it is asked for, as one instruction for every line.
pub proof fn totals_are_of_the_lines(file: FileCoverageView, synthesize: bool)
    requires
        file.lines.len() <= u32::MAX,
        branch_total(file.lines).covered <= branch_total(file.lines).total,
    ensures
        ({
            let covered = covered_count(file.lines);
            let lines = Counter {
                missed: (file.lines.len() - covered) as u64,
                covered: covered as u64,
            };
            let b = branch_total(file.lines);
            let branches = Counter {
                missed: (b.total - b.covered) as u64,
                covered: b.covered as u64,
            };
            let items = counters_items(seq![file], synthesize);
            &&& items.contains(counter_item("LINE"@, lines))
            &&& b.total > 0 ==> items.contains(counter_item("BRANCH"@, branches))
            &&& match file.counters.instruction {
                Some(c) => items.contains(counter_item("INSTRUCTION"@, c)),
                None => synthesize ==> items.contains(counter_item("INSTRUCTION"@, lines)),
            }
            &&& (file.counters.complexity matches Some(c) ==> items.contains(
                counter_item("COMPLEXITY"@, c),
            ))
            &&& (file.counters.method matches Some(c) ==> items.contains(
                counter_item("METHOD"@, c),
            ))
            &&& (file.counters.class matches Some(c) ==> items.contains(
                counter_item("CLASS"@, c),
            ))
        }),
{
    reveal(counters_items);
    let one = seq![file];
    assert(one.drop_last() =~= Seq::empty());
    assert(one.last() == file);
    assert(files_totaled(one.drop_last()) == no_totals());
    let t = files_totaled(one);
    assert(t == file_totaled(no_totals(), file));
    covered_lines_were_hit(file.lines);
    let items = counters_items(one, synthesize);
    let instruction: int = if t.extra.instruction is Some || synthesize {
        1
    } else {
        0
    };
    let branch: int = if t.branch.missed.wrapping_add(t.branch.covered) > 0 {
        1
    } else {
        0
    };
    assert(items[instruction + branch] == counter_item("LINE"@, t.line));
    if branch == 1 {
        assert(items[instruction] == counter_item("BRANCH"@, t.branch));
    }
    if instruction == 1 {
        assert(items[0] == counter_item(
            "INSTRUCTION"@,
            match t.extra.instruction {
                Some(c) => c,
                None => t.line,
            },
        ));
    }
    let mut at = instruction + branch + 1;
    if t.extra.complexity is Some {
        assert(items[at] == counter_item("COMPLEXITY"@, t.extra.complexity->0));
        at = at + 1;
    }
    if t.extra.method is Some {
        assert(items[at] == counter_item("METHOD"@, t.extra.method->0));
        at = at + 1;
    }
    if t.extra.class is Some {
        assert(items[at] == counter_item("CLASS"@, t.extra.class->0));
    }
}

/// A counter is written with its kind and its two numbers.
pub proof fn counters_are_written_with_their_kind(kind: Seq<char>, counter: Counter)
    ensures
        counter_item(kind, counter) == empty_item(
            "counter"@,
            seq![
                ("type"@, kind),
                ("missed"@, decimal(counter.missed as nat)),
                ("covered"@, decimal(counter.covered as nat)),
            ],
        ),
{
}

// ---------------------------------------------------------------------------
// Writing
// ---------------------------------------------------------------------------

/// A line is written as one instruction, covered or missed, and with its branches,
/// the covered and the missed ones together as many as it has.
pub proof fn lines_are_written_as_one_instruction(line: Line)
    ensures
        ({
            let a = line_attrs(line);
            let b = match line.branch {
                Some(b) => b,
                None => Branch { covered: 0, total: 0 },
            };
            &&& a.contains(("nr"@, decimal(line.number as nat)))
            &&& line.hits > 0 ==> a.contains(("ci"@, decimal(1))) && a.contains(
                ("mi"@, decimal(0)),
            )
            &&& line.hits == 0 ==> a.contains(("ci"@, decimal(0))) && a.contains(
                ("mi"@, decimal(1)),
            )
            &&& a.contains(("cb"@, decimal(b.covered as nat)))
            &&& b.covered <= b.total ==> a.contains(
                ("mb"@, decimal((b.total - b.covered) as nat)),
            )
        }),
{
    let a = line_attrs(line);
    assert(a[0].0 == "nr"@ && a[1].0 == "mi"@ && a[2].0 == "ci"@ && a[3].0 == "mb"@);
    assert(a[4].0 == "cb"@);
}

/// A method is written with its name and its descriptor and counts once, as covered
/// where it ran and as missed where it did not; a class is named for its package
/// and its file.
pub proof fn methods_and_classes_are_named(
    package: Seq<char>,
    file: FileCoverageView,
    function: FunctionView,
)
    ensures
        ({
            let a = method_attrs(function);
            let c = method_counter(function);
            &&& a.contains(("name"@, function.name))
            &&& (function.signature matches Some(signature) ==> a.contains(("desc"@, signature)))
            &&& (function.line matches Some(line) ==> a.contains(
                ("line"@, decimal(line as nat)),
            ))
            &&& c.missed + c.covered == 1
            &&& c.covered == 1 <==> function.hits > 0
        }),
        class_attrs(package, file).contains(("sourcefilename"@, name_part(file.path))),
        class_attrs(package, file).contains(
            (
                "name"@,
                if package.len() == 0 {
                    stem_part(file.path)
                } else {
                    package + "/"@ + stem_part(file.path)
                },
            ),
        ),
{
    let a = method_attrs(function);
    assert(a[0].0 == "name"@ && a[1].0 == "desc"@);
    if function.line is Some {
        assert(a[2].0 == "line"@);
    }
    let c = class_attrs(package, file);
    assert(c[0].0 == "name"@ && c[1].0 == "sourcefilename"@);
}

} // verus!
