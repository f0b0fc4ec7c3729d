//! The round trip of a coverage report through Clover XML: what reading gives
//! back of what was written.

use vstd::prelude::*;
use vstd::utf8::encode_utf8;

use crate::echo::{
    arrives, attr_in, attr_is_found, block, blocks_together, close_leads, digits_are_shown,
    document_is_well_formed, echoes, element_is_a_block, empty_leads, events_are_of_a_sort,
    events_of, events_of_a_line, faithful, leads, leads_nowhere, leads_on, one_line_is_a_block,
    open_leads, opens, parts_are_a_block, plain_attrs, plain_name, ran, raw_leads, reads_as,
    runs_through, shown, shown_together, shown_whole, stands_for, steady, well_formed, whole,
    whole_lines_are_a_block, written_as, written_tags_are_read,
};
use crate::error::ErrorView;
use crate::formats::coverage::clover::{
    coverage_attrs, declared_at, file_attrs, file_items, file_path, files_counted, folded,
    kept_line, last_number, line_attrs, lines_counted, lines_read_back, metrics_attrs, metrics_item,
    package_items, packages_items, project_attrs, read_spec, report_items, stepped, Metrics,
    StateView,
};
use crate::formats::coverage::packages::{
    dotted, gathered, grouped_files_sort_alike, packages_are_of_the_files, packages_by, PackageView,
};
use crate::model::coverage::{sort_doc, CoverageDocView, FileCoverageView, FunctionView, Line};
use crate::paths::normalized;
use crate::registry::DocView;
use crate::text::{decimal, signed_decimal, written_signed_numbers_parse};
use crate::value::flat;
use crate::xml::{
    carries, close_item, declaration_item, empty_item, open_item, rendered, AttrView, EventView,
    Item, TagView,
};

verus! {

// ---------------------------------------------------------------------------
// What a report can tell
// ---------------------------------------------------------------------------

/// A file that can be written: its path is normalized, and the names of its
/// functions hold nothing that vanishes.
pub open spec fn plain_file(file: FileCoverageView) -> bool {
    &&& file.path.len() > 0 && shown(file.path) == file.path && normalized(file.path) == file.path
    &&& forall|i: int|
        0 <= i < file.functions.len() ==> shown((#[trigger] file.functions[i]).name)
            == file.functions[i].name
}

/// The function that a line declares, where it has no branches: it runs as often
/// as its line.
pub open spec fn declared(functions: Seq<FunctionView>, line: Line) -> Seq<FunctionView> {
    let at = declared_at(functions, line.number);
    if line.branch is None && at < functions.len() {
        seq![
            FunctionView {
                name: functions[at].name,
                signature: None,
                line: Some(line.number),
                hits: line.hits,
            },
        ]
    } else {
        Seq::empty()
    }
}

/// The functions that the lines declare.
pub open spec fn all_declared(functions: Seq<FunctionView>, lines: Seq<Line>) -> Seq<FunctionView> {
    flat(lines, |l: Line| declared(functions, l))
}

pub open spec fn kept_file(file: FileCoverageView) -> FileCoverageView {
    FileCoverageView {
        lines: file.lines.map_values(|l: Line| kept_line(l)),
        functions: all_declared(file.functions, file.lines),
        ..FileCoverageView::of(file.path)
    }
}

/// What is kept of a report: the time is the start of time without one.
pub open spec fn kept_doc(doc: CoverageDocView) -> CoverageDocView {
    CoverageDocView {
        timestamp: match doc.timestamp {
            Some(t) => Some(t),
            None => Some(0),
        },
        files: doc.files.map_values(|f: FileCoverageView| kept_file(f)),
        ..CoverageDocView::empty()
    }
}

// ---------------------------------------------------------------------------
// The reader
// ---------------------------------------------------------------------------

spec fn step() -> spec_fn(StateView, EventView) -> Result<StateView, ErrorView> {
    |s: StateView, event: EventView| stepped(s, event)
}

proof fn step_is_steady()
    ensures
        steady(step()),
{
}

spec fn start() -> StateView {
    StateView { doc: CoverageDocView::empty(), current: None, saw_root: false }
}

proof fn folding_is_running(events: Seq<EventView>)
    ensures
        folded(events) == ran(step(), start(), events),
    decreases events.len(),
{
    if events.len() > 0 {
        folding_is_running(events.drop_last());
    }
}

/// Whether an element means something to the reader.
spec fn told(name: Seq<char>) -> bool {
    name == "coverage"@ || name == "project"@ || name == "file"@ || name == "line"@
}

proof fn elements_apart()
    ensures
        "project"@ != "coverage"@,
        "project"@ != "file"@,
        "coverage"@ != "file"@,
        "file"@ != "coverage"@,
        "file"@ != "project"@,
        "line"@ != "coverage"@,
        "line"@ != "project"@,
        "line"@ != "file"@,
        !told("package"@),
        !told("metrics"@),
{
    reveal_strlit("coverage");
    reveal_strlit("project");
    reveal_strlit("file");
    reveal_strlit("line");
    reveal_strlit("package");
    reveal_strlit("metrics");
    assert("coverage"@.len() == 8 && "project"@.len() == 7 && "file"@.len() == 4);
    assert("line"@.len() == 4 && "package"@.len() == 7 && "metrics"@.len() == 7);
    assert("file"@[0] != "line"@[0]);
    assert("package"@[1] != "project"@[1]);
    assert("metrics"@[0] != "project"@[0]);
}

/// An element that means nothing changes nothing.
proof fn untold(s: StateView, name: Seq<char>, attrs: Seq<AttrView>)
    requires
        !told(name),
    ensures
        leads(step(), s, seq![open_item(name, attrs)], s),
        leads(step(), s, seq![empty_item(name, attrs)], s),
        leads(step(), s, seq![close_item(name)], s),
{
    elements_apart();
    step_is_steady();
    open_leads(step(), s, name, attrs, s);
    empty_leads(step(), s, name, attrs, s);
    close_leads(step(), s, name, s);
}

// ---------------------------------------------------------------------------
// Lines
// ---------------------------------------------------------------------------

proof fn line_keys()
    ensures
        "type"@ != "num"@,
        "truecount"@ != "num"@,
        "truecount"@ != "type"@,
        "falsecount"@ != "num"@,
        "falsecount"@ != "type"@,
        "falsecount"@ != "truecount"@,
        "name"@ != "num"@,
        "name"@ != "type"@,
        "count"@ != "num"@,
        "count"@ != "type"@,
        "count"@ != "name"@,
        "cond"@ != "method"@,
        "stmt"@ != "method"@,
{
    reveal_strlit("num");
    reveal_strlit("type");
    reveal_strlit("truecount");
    reveal_strlit("falsecount");
    reveal_strlit("name");
    reveal_strlit("count");
    reveal_strlit("cond");
    reveal_strlit("stmt");
    reveal_strlit("method");
    assert("num"@.len() == 3 && "type"@.len() == 4 && "truecount"@.len() == 9);
    assert("falsecount"@.len() == 10 && "name"@.len() == 4 && "count"@.len() == 5);
    assert("cond"@.len() == 4 && "stmt"@.len() == 4 && "method"@.len() == 6);
    assert("type"@[0] != "name"@[0]);
}

proof fn declared_is_listed(functions: Seq<FunctionView>, number: u32)
    ensures
        0 <= declared_at(functions, number) <= functions.len(),
    decreases functions.len(),
{
    if functions.len() > 0 {
        declared_is_listed(functions.skip(1), number);
    }
}

proof fn written_lines_carry(functions: Seq<FunctionView>, line: Line, tag: TagView)
    requires
        written_as(tag, "line"@, line_attrs(functions, line)),
        forall|i: int|
            0 <= i < functions.len() ==> shown((#[trigger] functions[i]).name)
                == functions[i].name,
    ensures
        carries(tag, line_attrs(functions, line)),
{
    let attrs = line_attrs(functions, line);
    line_keys();
    declared_is_listed(functions, line.number);
    digits_are_shown(line.number as nat);
    digits_are_shown(line.hits as nat);
    digits_are_shown(0);
    digits_are_shown(1);
    reveal_strlit("cond");
    reveal_strlit("stmt");
    reveal_strlit("method");
    shown_whole("cond"@);
    shown_whole("stmt"@);
    shown_whole("method"@);
    assert forall|i: int| 0 <= i < attrs.len() implies tag.attr((#[trigger] attrs[i]).0) == Some(
        attrs[i].1,
    ) by {
        assert(i == 0 || i == 1 || i == 2 || i == 3);
        assert forall|j: int| 0 <= j < i implies (#[trigger] attrs[j]).0 != attrs[i].0 by {
            assert(j == 0 || j == 1 || j == 2);
        }
        attr_is_found(attrs, i);
        assert(tag.attr(attrs[i].0) == attr_in(attrs, attrs[i].0));
    }
}

/// A state within a file.
spec fn within(s: StateView, file: FileCoverageView) -> StateView {
    StateView { current: Some(file), ..s }
}

proof fn lines_lead(
    s: StateView,
    file: FileCoverageView,
    functions: Seq<FunctionView>,
    all: Seq<Line>,
    n: int,
)
    requires
        0 <= n <= all.len(),
        forall|i: int|
            0 <= i < functions.len() ==> shown((#[trigger] functions[i]).name)
                == functions[i].name,
    ensures
        leads(
            step(),
            within(s, file),
            all.map_values(|l: Line| empty_item("line"@, line_attrs(functions, l))).take(n),
            within(
                s,
                FileCoverageView {
                    lines: file.lines + all.map_values(|l: Line| kept_line(l)).take(n),
                    functions: file.functions + flat(
                        all.take(n),
                        |l: Line| declared(functions, l),
                    ),
                    ..file
                },
            ),
        ),
    decreases n,
{
    let items = all.map_values(|l: Line| empty_item("line"@, line_attrs(functions, l)));
    let kept = all.map_values(|l: Line| kept_line(l));
    let found = |l: Line| declared(functions, l);
    let goal = FileCoverageView {
        lines: file.lines + kept.take(n),
        functions: file.functions + flat(all.take(n), found),
        ..file
    };
    if n == 0 {
        assert(items.take(0) =~= Seq::empty());
        assert(all.take(0) =~= Seq::empty());
        assert(goal.lines =~= file.lines);
        assert(goal.functions =~= file.functions);
        leads_nowhere(step(), within(s, file));
    } else {
        lines_lead(s, file, functions, all, n - 1);
        let line = all[n - 1];
        let attrs = line_attrs(functions, line);
        let mid = FileCoverageView {
            lines: file.lines + kept.take(n - 1),
            functions: file.functions + flat(all.take(n - 1), found),
            ..file
        };
        elements_apart();
        step_is_steady();
        assert(all.take(n).drop_last() =~= all.take(n - 1));
        assert(mid.lines.push(kept_line(line)) =~= goal.lines);
        assert forall|tag: TagView| #[trigger] written_as(tag, "line"@, attrs) implies step()(
            within(s, mid),
            EventView::Empty(tag),
        ) == Ok::<StateView, ErrorView>(within(s, goal)) by {
            written_lines_carry(functions, line, tag);
            lines_read_back(functions, line, tag);
            line_keys();
            declared_is_listed(functions, line.number);
            assert(attrs[1].0 == "type"@);
            assert(tag.attr("type"@) == Some(attrs[1].1));
            if line.branch is None && declared_at(functions, line.number) < functions.len() {
                assert(attrs[2].0 == "name"@);
                assert(tag.attr("name"@) == Some(attrs[2].1));
                assert(mid.functions.push(declared(functions, line)[0]) =~= goal.functions);
            } else {
                assert(mid.functions =~= goal.functions);
            }
        }
        empty_leads(step(), within(s, mid), "line"@, attrs, within(s, goal));
        leads_on(
            step(),
            within(s, file),
            items.take(n - 1),
            within(s, mid),
            seq![empty_item("line"@, attrs)],
            within(s, goal),
        );
        assert(items.take(n - 1) + seq![empty_item("line"@, attrs)] =~= items.take(n));
    }
}

// ---------------------------------------------------------------------------
// Files and packages
// ---------------------------------------------------------------------------

/// A state between files, with these files read.
spec fn between(s: StateView, files: Seq<FileCoverageView>) -> StateView {
    StateView { doc: CoverageDocView { files, ..s.doc }, current: None, ..s }
}

proof fn file_leads(s: StateView, files: Seq<FileCoverageView>, file: FileCoverageView)
    requires
        plain_file(file),
    ensures
        leads(
            step(),
            between(s, files),
            file_items(file),
            between(s, files.push(kept_file(file))),
        ),
{
    elements_apart();
    step_is_steady();
    let from = between(s, files);
    let attrs = file_attrs(file);
    let empty = FileCoverageView::of(file.path);
    assert forall|tag: TagView| #[trigger] written_as(tag, "file"@, attrs) implies step()(
        from,
        EventView::Start(tag),
    ) == Ok::<StateView, ErrorView>(within(from, empty)) by {
        reveal_strlit("name");
        reveal_strlit("path");
        assert("name"@[0] != "path"@[0]);
        attr_is_found(attrs, 1);
        assert(tag.attr("path"@) == attr_in(attrs, "path"@));
    }
    open_leads(step(), from, "file"@, attrs, within(from, empty));
    let n = file.lines.len() as int;
    let a = seq![open_item("file"@, attrs)];
    let b = file.lines.map_values(|l: Line| empty_item("line"@, line_attrs(file.functions, l)));
    let kept = file.lines.map_values(|l: Line| kept_line(l));
    let found = |l: Line| declared(file.functions, l);
    lines_lead(from, empty, file.functions, file.lines, n);
    assert(b.take(n) =~= b);
    assert(file.lines.take(n) =~= file.lines);
    assert(empty.lines + kept.take(n) =~= kept);
    assert(empty.functions + flat(file.lines, found) =~= flat(file.lines, found));
    let full = within(from, kept_file(file));
    leads_on(step(), from, a, within(from, empty), b, full);
    let measures = metrics_attrs(files_counted(seq![file]), false);
    let c = seq![empty_item("metrics"@, measures)];
    untold(full, "metrics"@, measures);
    leads_on(step(), from, a + b, full, c, full);
    let d = seq![close_item("file"@)];
    let to = between(s, files.push(kept_file(file)));
    close_leads(step(), full, "file"@, to);
    leads_on(step(), from, a + b + c, full, d, to);
    assert(a + b + c + d =~= file_items(file));
}

proof fn files_lead(
    s: StateView,
    files: Seq<FileCoverageView>,
    more: Seq<FileCoverageView>,
    n: int,
)
    requires
        0 <= n <= more.len(),
        forall|i: int| 0 <= i < more.len() ==> plain_file(#[trigger] more[i]),
    ensures
        leads(
            step(),
            between(s, files),
            flat(more.take(n), |f: FileCoverageView| file_items(f)),
            between(s, files + more.map_values(|f: FileCoverageView| kept_file(f)).take(n)),
        ),
    decreases n,
{
    let write = |f: FileCoverageView| file_items(f);
    let kept = more.map_values(|f: FileCoverageView| kept_file(f));
    if n == 0 {
        assert(more.take(0) =~= Seq::empty());
        assert(files + kept.take(0) =~= files);
        leads_nowhere(step(), between(s, files));
    } else {
        files_lead(s, files, more, n - 1);
        assert(more.take(n).drop_last() =~= more.take(n - 1));
        let file = more[n - 1];
        file_leads(s, files + kept.take(n - 1), file);
        assert((files + kept.take(n - 1)).push(kept_file(file)) =~= files + kept.take(n));
        leads_on(
            step(),
            between(s, files),
            flat(more.take(n - 1), write),
            between(s, files + kept.take(n - 1)),
            file_items(file),
            between(s, files + kept.take(n)),
        );
    }
}

proof fn package_leads(
    s: StateView,
    files: Seq<FileCoverageView>,
    package: Seq<char>,
    more: Seq<FileCoverageView>,
)
    requires
        forall|i: int| 0 <= i < more.len() ==> plain_file(#[trigger] more[i]),
    ensures
        leads(
            step(),
            between(s, files),
            package_items(package, more),
            between(s, files + more.map_values(|f: FileCoverageView| kept_file(f))),
        ),
{
    elements_apart();
    let from = between(s, files);
    let n = more.len() as int;
    let kept = more.map_values(|f: FileCoverageView| kept_file(f));
    let to = between(s, files + kept);
    let measures = metrics_attrs(files_counted(more), false);
    let a = seq![open_item("package"@, seq![("name"@, package)])];
    let b = flat(more, |f: FileCoverageView| file_items(f));
    let c = seq![empty_item("metrics"@, measures)];
    let d = seq![close_item("package"@)];
    untold(from, "package"@, seq![("name"@, package)]);
    files_lead(s, files, more, n);
    assert(more.take(n) =~= more);
    assert(kept.take(n) =~= kept);
    untold(to, "metrics"@, measures);
    untold(to, "package"@, Seq::empty());
    leads_on(step(), from, a, from, b, to);
    leads_on(step(), from, a + b, to, c, to);
    leads_on(step(), from, a + b + c, to, d, to);
    assert(a + b + c + d =~= package_items(package, more));
}

#[verifier::spinoff_prover]
#[verifier::rlimit(60)]
proof fn packages_lead(s: StateView, packages: Seq<PackageView>)
    requires
        forall|k: int, i: int|
            0 <= k < packages.len() && 0 <= i < packages[k].files.len() ==> plain_file(
                #[trigger] packages[k].files[i],
            ),
    ensures
        leads(
            step(),
            between(s, Seq::empty()),
            flat(packages, |p: PackageView| package_items(p.name, p.files)),
            between(s, gathered(packages).map_values(|f: FileCoverageView| kept_file(f))),
        ),
    decreases packages.len(),
{
    let keep = |f: FileCoverageView| kept_file(f);
    let write = |p: PackageView| package_items(p.name, p.files);
    let from = between(s, Seq::empty());
    if packages.len() == 0 {
        assert(gathered(packages).map_values(keep) =~= Seq::empty());
        leads_nowhere(step(), from);
    } else {
        let head = packages.drop_last();
        let last = packages[packages.len() - 1];
        assert forall|k: int, i: int|
            0 <= k < head.len() && 0 <= i < head[k].files.len() implies plain_file(
            #[trigger] head[k].files[i],
        ) by {
            assert(head[k] == packages[k]);
        }
        assert forall|i: int| 0 <= i < last.files.len() implies plain_file(
            #[trigger] last.files[i],
        ) by {
            assert(packages[packages.len() - 1].files[i] == last.files[i]);
        }
        packages_lead(s, head);
        let mid = gathered(head).map_values(keep);
        let all = gathered(packages).map_values(keep);
        package_leads(s, mid, last.name, last.files);
        assert(mid + last.files.map_values(keep) =~= all);
        leads_on(
            step(),
            from,
            flat(head, write),
            between(s, mid),
            write(last),
            between(s, all),
        );
    }
}

// ---------------------------------------------------------------------------
// The report
// ---------------------------------------------------------------------------

proof fn root_keys(doc: CoverageDocView, tag: TagView)
    requires
        written_as(tag, "coverage"@, coverage_attrs(doc)),
    ensures
        tag.attr("clover"@) is Some,
        tag.attr_i64("generated"@) == kept_doc(doc).timestamp,
{
    let attrs = coverage_attrs(doc);
    reveal_strlit("generated");
    reveal_strlit("clover");
    assert("generated"@.len() != "clover"@.len());
    let t: i64 = match doc.timestamp {
        Some(t) => t,
        None => 0,
    };
    attr_is_found(attrs, 0);
    attr_is_found(attrs, 1);
    assert(tag.attr("generated"@) == attr_in(attrs, "generated"@));
    assert(tag.attr("clover"@) == attr_in(attrs, "clover"@));
    written_signed_numbers_parse(t);
    assert(shown(signed_decimal(t as int)) == signed_decimal(t as int)) by {
        if t < 0 {
            digits_are_shown((-t) as nat);
            shown_whole(seq!['-']);
            shown_together(seq!['-'], decimal((-t) as nat));
        } else {
            digits_are_shown(t as nat);
        }
    }
}

/// What is written as Clover XML reads back, whatever events stand for it: the
/// time of the report, and the files with their lines in canonical order, the
/// branches of a line folded into two outcomes. Functions come back where a
/// line declares them.
pub proof fn reports_read_back(doc: CoverageDocView, chunks: Seq<Seq<EventView>>)
    requires
        forall|i: int| 0 <= i < doc.files.len() ==> plain_file(#[trigger] doc.files[i]),
        reads_as(report_items(doc), chunks),
    ensures
        read_spec(events_of(chunks).push(EventView::Eof)) == Ok::<DocView, ErrorView>(
            DocView::Coverage(sort_doc(kept_doc(doc))),
        ),
{
    elements_apart();
    step_is_steady();
    let kept = kept_doc(doc);
    let measures = metrics_attrs(files_counted(doc.files), true);
    let a = seq![declaration_item()];
    let b = seq![open_item("coverage"@, coverage_attrs(doc))];
    let c = seq![open_item("project"@, project_attrs(doc))];
    let d = packages_items(doc.files);
    let e = seq![empty_item("metrics"@, measures)];
    let f = seq![close_item("project"@)];
    let g = seq![close_item("coverage"@)];
    let s0 = start();
    raw_leads(step(), s0, declaration_item());
    let s1 = StateView {
        saw_root: true,
        doc: CoverageDocView { timestamp: kept.timestamp, ..CoverageDocView::empty() },
        ..s0
    };
    assert forall|tag: TagView| #[trigger]
        written_as(tag, "coverage"@, coverage_attrs(doc)) implies step()(
        s0,
        EventView::Start(tag),
    ) == Ok::<StateView, ErrorView>(s1) by {
        root_keys(doc, tag);
    }
    open_leads(step(), s0, "coverage"@, coverage_attrs(doc), s1);
    leads_on(step(), s0, a, s0, b, s1);
    open_leads(step(), s1, "project"@, project_attrs(doc), s1);
    leads_on(step(), s0, a + b, s1, c, s1);
    assert(between(s1, Seq::empty()) == s1);
    let packages = packages_by(doc.files, dotted());
    let keep = |f: FileCoverageView| kept_file(f);
    packages_are_of_the_files(doc.files, dotted(), |f: FileCoverageView| plain_file(f));
    packages_lead(s1, packages);
    let files = gathered(packages).map_values(keep);
    let s2 = between(s1, files);
    leads_on(step(), s0, a + b + c, s1, d, s2);
    untold(s2, "metrics"@, measures);
    leads_on(step(), s0, a + b + c + d, s2, e, s2);
    close_leads(step(), s2, "project"@, s2);
    leads_on(step(), s0, a + b + c + d + e, s2, f, s2);
    close_leads(step(), s2, "coverage"@, s2);
    leads_on(step(), s0, a + b + c + d + e + f, s2, g, s2);
    assert(a + b + c + d + e + f + g =~= report_items(doc));
    arrives(step(), s0, report_items(doc), s2, chunks);
    let events = events_of(chunks);
    folding_is_running(events);
    assert(events.push(EventView::Eof).drop_last() =~= events);
    assert(folded(events.push(EventView::Eof)) == Ok::<StateView, ErrorView>(s2));
    grouped_files_sort_alike(doc.files, dotted(), keep);
    assert(s2.doc == CoverageDocView { files, ..kept });
}

// ---------------------------------------------------------------------------
// Totals
// ---------------------------------------------------------------------------

proof fn declared_at_props(functions: Seq<FunctionView>, number: u32)
    ensures
        0 <= declared_at(functions, number) <= functions.len(),
        declared_at(functions, number) < functions.len() <==> exists|i: int|
            0 <= i < functions.len() && (#[trigger] functions[i]).line == Some(number),
    decreases functions.len(),
{
    if functions.len() > 0 && functions[0].line != Some(number) {
        let rest = functions.skip(1);
        declared_at_props(rest, number);
        if declared_at(rest, number) < rest.len() {
            let i = choose|i: int|
                0 <= i < rest.len() && (#[trigger] rest[i]).line == Some(number);
            assert(functions[i + 1].line == Some(number));
        }
        if exists|i: int|
            0 <= i < functions.len() && (#[trigger] functions[i]).line == Some(number) {
            let i = choose|i: int|
                0 <= i < functions.len() && (#[trigger] functions[i]).line == Some(number);
            assert(rest[i - 1].line == Some(number));
        }
    } else if functions.len() > 0 {
        assert(functions[0].line == Some(number));
    }
}

/// The functions that the lines declare are on lines that functions are on.
proof fn declared_functions_are_known(functions: Seq<FunctionView>, lines: Seq<Line>, i: int)
    requires
        0 <= i < all_declared(functions, lines).len(),
    ensures
        ({
            let f = all_declared(functions, lines)[i];
            f.line is Some && declared_at(functions, f.line->0) < functions.len()
        }),
    decreases lines.len(),
{
    let head = all_declared(functions, lines.drop_last());
    if i < head.len() {
        declared_functions_are_known(functions, lines.drop_last(), i);
    }
}

proof fn declared_lines_stay_declared(functions: Seq<FunctionView>, lines: Seq<Line>, k: int)
    requires
        0 <= k < lines.len(),
        lines[k].branch is None,
        declared_at(functions, lines[k].number) < functions.len(),
    ensures
        exists|i: int|
            0 <= i < all_declared(functions, lines).len() && (#[trigger] all_declared(
                functions,
                lines,
            )[i]).line == Some(lines[k].number),
    decreases lines.len(),
{
    let find = |l: Line| declared(functions, l);
    let all = all_declared(functions, lines);
    let head = all_declared(functions, lines.drop_last());
    if k < lines.len() - 1 {
        declared_lines_stay_declared(functions, lines.drop_last(), k);
        let i = choose|i: int|
            0 <= i < head.len() && (#[trigger] head[i]).line == Some(lines[k].number);
        assert(all[i].line == Some(lines[k].number));
    } else {
        assert(find(lines.last()).len() == 1);
        assert(all[head.len() as int] == find(lines.last())[0]);
        assert(all[head.len() as int].line == Some(lines[k].number));
    }
}

proof fn lines_count_alike(m: Metrics, file: FileCoverageView, n: int)
    requires
        0 <= n <= file.lines.len(),
    ensures
        lines_counted(m, kept_file(file).functions, kept_file(file).lines.take(n))
            == lines_counted(m, file.functions, file.lines.take(n)),
        last_number(kept_file(file).lines.take(n)) == last_number(file.lines.take(n)),
    decreases n,
{
    let kept = kept_file(file);
    if n > 0 {
        lines_count_alike(m, file, n - 1);
        assert(kept.lines.take(n).drop_last() =~= kept.lines.take(n - 1));
        assert(file.lines.take(n).drop_last() =~= file.lines.take(n - 1));
        let line = file.lines[n - 1];
        assert(kept.lines[n - 1] == kept_line(line));
        if line.branch is None {
            declared_at_props(kept.functions, line.number);
            declared_at_props(file.functions, line.number);
            if declared_at(file.functions, line.number) < file.functions.len() {
                declared_lines_stay_declared(file.functions, file.lines, n - 1);
            }
            if declared_at(kept.functions, line.number) < kept.functions.len() {
                let i = choose|i: int|
                    0 <= i < kept.functions.len() && (#[trigger] kept.functions[i]).line == Some(
                        line.number,
                    );
                declared_functions_are_known(file.functions, file.lines, i);
            }
        }
    } else {
        assert(kept.lines.take(0) =~= file.lines.take(0));
    }
}

/// The totals agree with the lines that are written: what these read as has the
/// same totals.
pub proof fn totals_agree_with_the_lines(files: Seq<FileCoverageView>)
    ensures
        files_counted(files.map_values(|f: FileCoverageView| kept_file(f))) == files_counted(files),
    decreases files.len(),
{
    let keep = |f: FileCoverageView| kept_file(f);
    if files.len() > 0 {
        totals_agree_with_the_lines(files.drop_last());
        assert(files.map_values(keep).drop_last() =~= files.drop_last().map_values(keep));
        let file = files.last();
        let n = file.lines.len() as int;
        let before = files_counted(files.drop_last());
        let m = Metrics {
            classes: before.classes.wrapping_add(1),
            loc: before.loc.wrapping_add(last_number(file.lines) as u64),
            ..before
        };
        lines_count_alike(m, file, n);
        assert(file.lines.take(n) =~= file.lines);
        assert(kept_file(file).lines.take(n) =~= kept_file(file).lines);
    } else {
        assert(files.map_values(keep) =~= files);
    }
}

// ---------------------------------------------------------------------------
// The document
// ---------------------------------------------------------------------------

/// The names of the elements and attributes are plain.
proof fn names_are_plain()
    ensures
        plain_name("coverage"@),
        plain_name("project"@),
        plain_name("package"@),
        plain_name("file"@),
        plain_name("line"@),
        plain_name("metrics"@),
        plain_name("generated"@),
        plain_name("clover"@),
        plain_name("timestamp"@),
        plain_name("name"@),
        plain_name("path"@),
        plain_name("num"@),
        plain_name("type"@),
        plain_name("truecount"@),
        plain_name("falsecount"@),
        plain_name("count"@),
        plain_name("loc"@),
        plain_name("ncloc"@),
        plain_name("classes"@),
        plain_name("files"@),
        plain_name("statements"@),
        plain_name("coveredstatements"@),
        plain_name("conditionals"@),
        plain_name("coveredconditionals"@),
        plain_name("methods"@),
        plain_name("coveredmethods"@),
        plain_name("elements"@),
        plain_name("coveredelements"@),
{
    reveal(plain_name);
    reveal_strlit("coverage");
    reveal_strlit("project");
    reveal_strlit("package");
    reveal_strlit("file");
    reveal_strlit("line");
    reveal_strlit("metrics");
    reveal_strlit("generated");
    reveal_strlit("clover");
    reveal_strlit("timestamp");
    reveal_strlit("name");
    reveal_strlit("path");
    reveal_strlit("num");
    reveal_strlit("type");
    reveal_strlit("truecount");
    reveal_strlit("falsecount");
    reveal_strlit("count");
    reveal_strlit("loc");
    reveal_strlit("ncloc");
    reveal_strlit("classes");
    reveal_strlit("files");
    reveal_strlit("statements");
    reveal_strlit("coveredstatements");
    reveal_strlit("conditionals");
    reveal_strlit("coveredconditionals");
    reveal_strlit("methods");
    reveal_strlit("coveredmethods");
    reveal_strlit("elements");
    reveal_strlit("coveredelements");
}

/// No other element is the root or a file.
proof fn names_apart()
    ensures
        "project"@ != "coverage"@,
        "package"@ != "coverage"@,
        "file"@ != "coverage"@,
        "line"@ != "coverage"@,
        "metrics"@ != "coverage"@,
        "coverage"@ != "file"@,
        "project"@ != "file"@,
        "package"@ != "file"@,
        "line"@ != "file"@,
        "metrics"@ != "file"@,
        "name"@ != "path"@,
        "generated"@ != "clover"@,
{
    reveal_strlit("project");
    reveal_strlit("coverage");
    reveal_strlit("package");
    reveal_strlit("file");
    reveal_strlit("line");
    reveal_strlit("metrics");
    reveal_strlit("name");
    reveal_strlit("path");
    reveal_strlit("generated");
    reveal_strlit("clover");
    assert("project"@.len() == 7);
    assert("coverage"@.len() == 8);
    assert("package"@.len() == 7);
    assert("file"@.len() == 4 && "file"@[0] == 'f');
    assert("line"@.len() == 4 && "line"@[0] == 'l');
    assert("metrics"@.len() == 7);
    assert("name"@.len() == 4 && "name"@[0] == 'n');
    assert("path"@.len() == 4 && "path"@[0] == 'p');
    assert("generated"@.len() == 9);
    assert("clover"@.len() == 6);
}

/// A file whose path reads as one.
pub open spec fn named(file: FileCoverageView) -> bool {
    normalized(shown(file.path)).len() > 0
}

pub open spec fn all_named(files: Seq<FileCoverageView>) -> bool {
    forall|i: int| 0 <= i < files.len() ==> named(#[trigger] files[i])
}

/// A tag that the reader does not stumble over: the root is signed, and a file
/// has a path.
pub open spec fn legible_tag(name: Seq<char>, attrs: Seq<AttrView>) -> bool {
    &&& name == "coverage"@ ==> attr_in(attrs, "clover"@) is Some
    &&& name == "file"@ ==> match attr_in(attrs, "path"@) {
        Some(path) => normalized(path).len() > 0,
        None => false,
    }
}

pub open spec fn legible_line(item: Item) -> bool {
    match item {
        Item::Open { name, attrs } => legible_tag(name, attrs),
        Item::Empty { name, attrs } => legible_tag(name, attrs),
        Item::Text { name, attrs, .. } => legible_tag(name, attrs),
        _ => true,
    }
}

spec fn legible() -> spec_fn(Item) -> bool {
    |item: Item| legible_line(item)
}

proof fn metrics_are_a_block(files: Seq<FileCoverageView>, project_level: bool)
    ensures
        block(legible(), seq![metrics_item(files, project_level)]),
{
    names_are_plain();
    names_apart();
    assert(plain_attrs(metrics_attrs(files_counted(files), project_level)));
    one_line_is_a_block(legible(), metrics_item(files, project_level));
}

proof fn file_is_a_block(file: FileCoverageView)
    requires
        named(file),
    ensures
        block(legible(), file_items(file)),
{
    names_are_plain();
    names_apart();
    let f = |l: Line| empty_item("line"@, line_attrs(file.functions, l));
    let lines = file.lines.map_values(f);
    assert forall|i: int| 0 <= i < lines.len() implies whole(#[trigger] lines[i]) by {
        assert(plain_attrs(line_attrs(file.functions, file.lines[i])));
    }
    whole_lines_are_a_block(legible(), lines);
    let measures = seq![metrics_item(seq![file], false)];
    metrics_are_a_block(seq![file], false);
    blocks_together(legible(), lines, measures);
    assert(plain_attrs(file_attrs(file)));
    assert(file_attrs(file)[1] == ("path"@, file.path));
    attr_is_found(file_attrs(file), 1);
    element_is_a_block(legible(), "file"@, file_attrs(file), lines + measures);
    assert(file_items(file) =~= seq![open_item("file"@, file_attrs(file))] + (lines + measures)
        + seq![close_item("file"@)]);
}

proof fn package_is_a_block(package: Seq<char>, files: Seq<FileCoverageView>)
    requires
        all_named(files),
    ensures
        block(legible(), package_items(package, files)),
{
    names_are_plain();
    names_apart();
    let f = |f: FileCoverageView| file_items(f);
    assert forall|i: int| 0 <= i < files.len() implies block(legible(), f(#[trigger] files[i])) by {
        file_is_a_block(files[i]);
    }
    parts_are_a_block(legible(), files, f);
    let measures = seq![metrics_item(files, false)];
    metrics_are_a_block(files, false);
    blocks_together(legible(), flat(files, f), measures);
    let attrs = seq![("name"@, package)];
    assert(plain_attrs(attrs));
    element_is_a_block(legible(), "package"@, attrs, flat(files, f) + measures);
    assert(package_items(package, files) =~= seq![open_item("package"@, attrs)] + (flat(files, f)
        + measures) + seq![close_item("package"@)]);
}

proof fn packages_are_a_block(files: Seq<FileCoverageView>)
    requires
        all_named(files),
    ensures
        block(legible(), packages_items(files)),
{
    let packages = packages_by(files, dotted());
    let write = |p: PackageView| package_items(p.name, p.files);
    packages_are_of_the_files(files, dotted(), |f: FileCoverageView| named(f));
    assert forall|k: int| 0 <= k < packages.len() implies block(
        legible(),
        write(#[trigger] packages[k]),
    ) by {
        assert(all_named(packages[k].files));
        package_is_a_block(packages[k].name, packages[k].files);
    }
    parts_are_a_block(legible(), packages, write);
}

/// What is written as Clover XML is a document.
#[verifier::spinoff_prover]
#[verifier::rlimit(60)]
pub proof fn reports_are_well_formed(doc: CoverageDocView)
    requires
        all_named(doc.files),
    ensures
        well_formed(report_items(doc)),
        forall|i: int|
            0 <= i < report_items(doc).len() ==> legible_line(#[trigger] report_items(doc)[i]),
{
    names_are_plain();
    names_apart();
    let packages = packages_items(doc.files);
    let measures = seq![metrics_item(doc.files, true)];
    packages_are_a_block(doc.files);
    metrics_are_a_block(doc.files, true);
    blocks_together(legible(), packages, measures);
    assert(plain_attrs(project_attrs(doc)));
    assert(plain_attrs(coverage_attrs(doc)));
    assert(coverage_attrs(doc)[1].0 == "clover"@);
    attr_is_found(coverage_attrs(doc), 1);
    let inner = packages + measures;
    let project = seq![open_item("project"@, project_attrs(doc))] + inner + seq![
        close_item("project"@),
    ];
    element_is_a_block(legible(), "project"@, project_attrs(doc), inner);
    element_is_a_block(legible(), "coverage"@, coverage_attrs(doc), project);
    one_line_is_a_block(legible(), declaration_item());
    let report = seq![open_item("coverage"@, coverage_attrs(doc))] + project + seq![
        close_item("coverage"@),
    ];
    blocks_together(legible(), seq![declaration_item()], report);
    assert(report_items(doc) =~= seq![declaration_item()] + report);
    let items = report_items(doc);
    document_is_well_formed(legible(), items);
    assert forall|i: int| 0 <= i < items.len() implies legible_line(#[trigger] items[i]) by {
        assert(legible()(items[i]));
    }
}

spec fn unhindered(tag: TagView) -> bool {
    &&& tag.name == "coverage"@ ==> tag.attr("clover"@) is Some
    &&& tag.name == "file"@ ==> file_path(tag) is Some
}

/// Whatever is written as Clover XML with a path for each file is read again,
/// whatever events stand for it.
#[verifier::spinoff_prover]
#[verifier::rlimit(60)]
pub proof fn reports_are_read_again(doc: CoverageDocView, chunks: Seq<Seq<EventView>>)
    requires
        all_named(doc.files),
        reads_as(report_items(doc), chunks),
    ensures
        read_spec(events_of(chunks).push(EventView::Eof)) is Ok,
{
    elements_apart();
    let items = report_items(doc);
    let events = events_of(chunks);
    let sort = |event: EventView|
        match event {
            EventView::Failed(_) => false,
            EventView::Start(tag) => unhindered(tag),
            EventView::Empty(tag) => unhindered(tag),
            _ => true,
        };
    let mark = |s: StateView| s.saw_root;
    reports_are_well_formed(doc);
    assert forall|i: int, j: int|
        0 <= i < items.len() && 0 <= j < chunks[i].len() && stands_for(
            chunks[i],
            items[i],
        ) implies sort(#[trigger] chunks[i][j]) by {
        events_of_a_line(chunks[i], items[i], j);
        assert(legible_line(items[i]));
    }
    events_are_of_a_sort(items, chunks, sort);
    assert(items[1] == open_item("coverage"@, coverage_attrs(doc)));
    written_tags_are_read(items, chunks, 1);
    let k = choose|i: int|
        0 <= i < events.len() && opens(#[trigger] events[i], "coverage"@, coverage_attrs(doc));
    assert(sort(events[k]));
    runs_through(step(), start(), events, sort, mark, k);
    folding_is_running(events);
    assert(events.push(EventView::Eof).drop_last() =~= events);
}

/// Whether these bytes are the Clover report of a document with a path for each
/// file.
pub open spec fn is_report(input: Seq<u8>, doc: CoverageDocView) -> bool {
    all_named(doc.files) && input == encode_utf8(rendered(report_items(doc)))
}

/// What was written is read again from its bytes.
pub(crate) proof fn written_bytes_are_read_again(
    input: Seq<u8>,
    events: Seq<EventView>,
    doc: CoverageDocView,
)
    requires
        faithful(input, events),
        is_report(input, doc),
    ensures
        read_spec(events) is Ok,
{
    let items = report_items(doc);
    reports_are_well_formed(doc);
    assert(echoes(events, items));
    let chunks = choose|chunks: Seq<Seq<EventView>>| #[trigger]
        reads_as(items, chunks) && events == events_of(chunks).push(EventView::Eof);
    reports_are_read_again(doc, chunks);
}

/// Whether these bytes are the Clover report of a document whose files can be
/// written.
pub open spec fn holds_report(input: Seq<u8>, doc: CoverageDocView) -> bool {
    &&& forall|i: int| 0 <= i < doc.files.len() ==> plain_file(#[trigger] doc.files[i])
    &&& is_report(input, doc)
}

/// What was written reads back from its bytes.
pub(crate) proof fn written_bytes_read_back(
    input: Seq<u8>,
    events: Seq<EventView>,
    doc: CoverageDocView,
)
    requires
        faithful(input, events),
        holds_report(input, doc),
    ensures
        read_spec(events) == Ok::<DocView, ErrorView>(DocView::Coverage(sort_doc(kept_doc(doc)))),
{
    reports_are_well_formed(doc);
    assert(echoes(events, report_items(doc)));
    let chunks = choose|chunks: Seq<Seq<EventView>>| #[trigger]
        reads_as(report_items(doc), chunks) && events == events_of(chunks).push(EventView::Eof);
    reports_read_back(doc, chunks);
}

} // verus!
