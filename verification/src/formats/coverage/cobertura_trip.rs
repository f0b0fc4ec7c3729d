//! The round trip of a coverage report through Cobertura XML: what reading
//! gives back of what was written.

use vstd::prelude::*;
use vstd::utf8::encode_utf8;

use crate::echo::{
    arrives, attr_in, attr_is_absent, attr_is_found, block, blocks_together, close_leads,
    digits_are_shown, doctype, document_is_well_formed, echoes, element_is_a_block, empty_leads,
    events_are_of_a_sort, events_of, events_of_a_line, faithful, leads, leads_nowhere, leads_on,
    one_line_is_a_block, open_leads, opens, parts_are_a_block, plain_attrs, plain_name, ran,
    raw_leads, reads_as, runs_through, shown, shown_together, shown_whole, stands_for, steady,
    text_leads, well_formed, whole, whole_lines_are_a_block, written_as, written_tags_are_read,
};
use crate::error::ErrorView;
use crate::formats::coverage::cobertura::{
    class_attrs, class_file, class_items, coverage_attrs, folded, line_attrs, lines_read_back,
    method_attrs, method_items, methods_items, package_attrs, package_items, packages_items,
    percent_text, place_attrs, ratio_at, read_spec, report_items, source_items, stepped, RatioView,
    StateView, DOCTYPE,
};
use crate::formats::coverage::packages::{
    different_files_stay_different, dotted, gathered, grouped_files_sort_alike,
    packages_are_of_the_files, packages_by, PackageView,
};
use crate::model::coverage::{
    distinct_files, file_at, fold_files, sort_doc, CoverageDocView, FileCoverageView, FunctionView,
    Line,
};
use crate::paths::normalized;
use crate::registry::DocView;
use crate::text::{
    all_digits, decimal, is_digit, lacks_char, signed_decimal, trim, written_numbers_parse,
    written_signed_numbers_parse,
};
use crate::value::{flat, non_empty};
use crate::xml::{
    carries, close_item, declaration_item, empty_item, open_item, rendered, text_item, vanishes,
    AttrView, EventView, Item, TagView,
};

verus! {

// ---------------------------------------------------------------------------
// What a report can tell
// ---------------------------------------------------------------------------

/// A function whose name and signature can be written.
pub open spec fn plain_function(function: FunctionView) -> bool {
    shown(function.name) == function.name && match function.signature {
        Some(signature) => shown(signature) == signature,
        None => true,
    }
}

/// A file that can be written: its path is normalized.
pub open spec fn plain_file(file: FileCoverageView) -> bool {
    &&& file.path.len() > 0 && shown(file.path) == file.path && normalized(file.path) == file.path
    &&& forall|i: int|
        0 <= i < file.functions.len() ==> plain_function(#[trigger] file.functions[i])
}

/// A source root that can be written, without white space around it.
pub open spec fn plain_root(root: Seq<char>) -> bool {
    root.len() > 0 && shown(root) == root && trim(root) == root
}

/// A list of ratios whose percentages are whole numbers.
pub open spec fn plain_ratios(ratios: Seq<RatioView>) -> bool {
    forall|i: int| 0 <= i < ratios.len() ==> all_digits((#[trigger] ratios[i]).percent)
}

/// What is kept of a function: without a line there is no place for its hits.
pub open spec fn kept_function(function: FunctionView) -> FunctionView {
    FunctionView {
        signature: non_empty(function.signature),
        hits: if function.line is Some {
            function.hits
        } else {
            0
        },
        ..function
    }
}

pub open spec fn kept_file(file: FileCoverageView) -> FileCoverageView {
    FileCoverageView {
        lines: file.lines,
        functions: file.functions.map_values(|f: FunctionView| kept_function(f)),
        ..FileCoverageView::of(file.path)
    }
}

/// What is kept of a report: the time is the start of time without one, and the
/// root is the current directory without one.
pub open spec fn kept_doc(doc: CoverageDocView) -> CoverageDocView {
    CoverageDocView {
        timestamp: match doc.timestamp {
            Some(t) => Some(t),
            None => Some(0),
        },
        source_roots: if doc.source_roots.len() == 0 {
            seq!["."@]
        } else {
            doc.source_roots
        },
        files: doc.files.map_values(|f: FileCoverageView| kept_file(f)),
    }
}

// ---------------------------------------------------------------------------
// The reader
// ---------------------------------------------------------------------------

spec fn step() -> spec_fn(StateView, EventView) -> Result<StateView, ErrorView> {
    |s: StateView, event: EventView| stepped(s, event)
}

proof fn step_is_steady()
    ensures
        steady(step()),
{
}

spec fn start() -> StateView {
    StateView {
        doc: CoverageDocView::empty(),
        current: None,
        method: None,
        in_source: false,
        saw_root: false,
    }
}

proof fn folding_is_running(events: Seq<EventView>)
    ensures
        folded(events) == ran(step(), start(), events),
    decreases events.len(),
{
    if events.len() > 0 {
        folding_is_running(events.drop_last());
    }
}

/// The elements that mean something to the reader, and those that do not.
proof fn elements_apart()
    ensures
        "source"@ != "coverage"@,
        "class"@ != "coverage"@,
        "class"@ != "source"@,
        "class"@ != "method"@,
        "method"@ != "coverage"@,
        "method"@ != "source"@,
        "method"@ != "class"@,
        "line"@ != "coverage"@,
        "line"@ != "source"@,
        "line"@ != "class"@,
        "line"@ != "method"@,
        !told("sources"@),
        !told("packages"@),
        !told("package"@),
        !told("classes"@),
        !told("methods"@),
        !told("lines"@),
        "coverage"@ != "source"@,
        "coverage"@ != "method"@,
        "coverage"@ != "class"@,
{
    reveal_strlit("coverage");
    reveal_strlit("source");
    reveal_strlit("class");
    reveal_strlit("method");
    reveal_strlit("line");
    reveal_strlit("sources");
    reveal_strlit("packages");
    reveal_strlit("package");
    reveal_strlit("classes");
    reveal_strlit("methods");
    reveal_strlit("lines");
    assert("coverage"@.len() == 8 && "source"@.len() == 6 && "class"@.len() == 5);
    assert("method"@.len() == 6 && "line"@.len() == 4 && "sources"@.len() == 7);
    assert("packages"@.len() == 8 && "package"@.len() == 7 && "classes"@.len() == 7);
    assert("methods"@.len() == 7 && "lines"@.len() == 5);
    assert("packages"@[0] != "coverage"@[0]);
    assert("source"@[0] != "method"@[0]);
    assert("class"@[0] != "lines"@[0]);
}

/// Whether an element means something to the reader.
spec fn told(name: Seq<char>) -> bool {
    name == "coverage"@ || name == "source"@ || name == "class"@ || name == "method"@ || name
        == "line"@
}

/// An element that means nothing changes nothing.
proof fn untold(s: StateView, name: Seq<char>, attrs: Seq<AttrView>)
    requires
        !told(name),
    ensures
        leads(step(), s, seq![open_item(name, attrs)], s),
        leads(step(), s, seq![empty_item(name, attrs)], s),
        leads(step(), s, seq![close_item(name)], s),
{
    step_is_steady();
    open_leads(step(), s, name, attrs, s);
    empty_leads(step(), s, name, attrs, s);
    close_leads(step(), s, name, s);
}

// ---------------------------------------------------------------------------
// Lines
// ---------------------------------------------------------------------------

proof fn line_keys()
    ensures
        "hits"@ != "number"@,
        "branch"@ != "number"@,
        "branch"@ != "hits"@,
        "condition-coverage"@ != "number"@,
        "condition-coverage"@ != "hits"@,
        "condition-coverage"@ != "branch"@,
{
    reveal_strlit("number");
    reveal_strlit("hits");
    reveal_strlit("branch");
    reveal_strlit("condition-coverage");
    assert("number"@.len() == 6 && "hits"@.len() == 4 && "branch"@.len() == 6);
    assert("condition-coverage"@.len() == 18);
    assert("number"@[0] != "branch"@[0]);
}

proof fn percents_are_digits(ratios: Seq<RatioView>, covered: u64, valid: u64)
    requires
        plain_ratios(ratios),
    ensures
        all_digits(percent_text(ratios, covered, valid)),
{
    ratio_is_listed(ratios, covered, valid);
    reveal_strlit("100");
    assert(all_digits("100"@)) by {
        assert forall|i: int| 0 <= i < "100"@.len() implies is_digit(#[trigger] "100"@[i]) by {}
    }
}

proof fn ratio_is_listed(ratios: Seq<RatioView>, covered: u64, valid: u64)
    ensures
        0 <= ratio_at(ratios, covered, valid) <= ratios.len(),
    decreases ratios.len(),
{
    if ratios.len() > 0 && !(ratios[0].covered == covered && ratios[0].valid == valid) {
        ratio_is_listed(ratios.skip(1), covered, valid);
    }
}

proof fn written_lines_carry(line: Line, ratios: Seq<RatioView>, tag: TagView)
    requires
        plain_ratios(ratios),
        written_as(tag, "line"@, line_attrs(line, ratios)),
    ensures
        tag.attr_u32("number"@) == Some(line.number),
        tag.attr_u64("hits"@) == Some(line.hits),
        crate::formats::coverage::cobertura::condition_of(tag) == line.branch,
{
    let attrs = line_attrs(line, ratios);
    line_keys();
    digits_are_shown(line.number as nat);
    digits_are_shown(line.hits as nat);
    attr_is_found(attrs, 0);
    attr_is_found(attrs, 1);
    assert(tag.attr("number"@) == attr_in(attrs, "number"@));
    assert(tag.attr("hits"@) == attr_in(attrs, "hits"@));
    assert(tag.attr("branch"@) == attr_in(attrs, "branch"@));
    assert(tag.attr("condition-coverage"@) == attr_in(attrs, "condition-coverage"@));
    if let Some(b) = line.branch {
        reveal_strlit("true");
        reveal_strlit("% (");
        reveal_strlit("/");
        reveal_strlit(")");
        let percent = percent_text(ratios, b.covered as u64, b.total as u64);
        percents_are_digits(ratios, b.covered as u64, b.total as u64);
        shown_whole("true"@);
        let text = percent + "% ("@ + decimal(b.covered as nat) + "/"@ + decimal(b.total as nat)
            + ")"@;
        crate::text::decimal_reads_back(b.covered as nat);
        crate::text::decimal_reads_back(b.total as nat);
        assert forall|i: int| 0 <= i < percent.len() implies !vanishes(#[trigger] percent[i])
            && percent[i] != '(' by {
            assert(is_digit(percent[i]));
        }
        shown_whole(percent);
        digits_are_shown(b.covered as nat);
        digits_are_shown(b.total as nat);
        shown_whole("% ("@);
        shown_whole("/"@);
        shown_whole(")"@);
        shown_together(percent, "% ("@);
        shown_together(percent + "% ("@, decimal(b.covered as nat));
        shown_together(percent + "% ("@ + decimal(b.covered as nat), "/"@);
        shown_together(
            percent + "% ("@ + decimal(b.covered as nat) + "/"@,
            decimal(b.total as nat),
        );
        shown_together(
            percent + "% ("@ + decimal(b.covered as nat) + "/"@ + decimal(b.total as nat),
            ")"@,
        );
        assert(shown(text) == text);
        attr_is_found(attrs, 2);
        attr_is_found(attrs, 3);
        assert(carries(tag, attrs)) by {
            assert forall|i: int| 0 <= i < attrs.len() implies tag.attr((#[trigger] attrs[i]).0)
                == Some(attrs[i].1) by {
                assert(i == 0 || i == 1 || i == 2 || i == 3);
            }
        }
        lacks_char(percent, '(');
    } else {
        attr_is_absent(attrs, "branch"@);
        attr_is_absent(attrs, "condition-coverage"@);
        assert(carries(tag, attrs)) by {
            assert forall|i: int| 0 <= i < attrs.len() implies tag.attr((#[trigger] attrs[i]).0)
                == Some(attrs[i].1) by {
                assert(i == 0 || i == 1);
            }
        }
    }
    lines_read_back(line, ratios, tag);
}

/// A state in the middle of a class.
spec fn within(s: StateView, file: FileCoverageView) -> StateView {
    StateView { current: Some(file), method: None, ..s }
}

proof fn lines_lead(
    s: StateView,
    file: FileCoverageView,
    all: Seq<Line>,
    n: int,
    ratios: Seq<RatioView>,
)
    requires
        plain_ratios(ratios),
        0 <= n <= all.len(),
    ensures
        leads(
            step(),
            within(s, file),
            all.map_values(|l: Line| empty_item("line"@, line_attrs(l, ratios))).take(n),
            within(s, FileCoverageView { lines: file.lines + all.take(n), ..file }),
        ),
    decreases n,
{
    let items = all.map_values(|l: Line| empty_item("line"@, line_attrs(l, ratios)));
    let goal = within(s, FileCoverageView { lines: file.lines + all.take(n), ..file });
    if n == 0 {
        assert(items.take(0) =~= Seq::empty());
        assert(file.lines + all.take(0) =~= file.lines);
        leads_nowhere(step(), within(s, file));
    } else {
        lines_lead(s, file, all, n - 1, ratios);
        let line = all[n - 1];
        let mid = within(s, FileCoverageView { lines: file.lines + all.take(n - 1), ..file });
        elements_apart();
        step_is_steady();
        assert forall|tag: TagView| #[trigger]
            written_as(tag, "line"@, line_attrs(line, ratios)) implies step()(
            mid,
            EventView::Empty(tag),
        ) == Ok::<StateView, ErrorView>(goal) by {
            written_lines_carry(line, ratios, tag);
            assert((file.lines + all.take(n - 1)).push(line) =~= file.lines + all.take(n));
        }
        empty_leads(step(), mid, "line"@, line_attrs(line, ratios), goal);
        leads_on(
            step(),
            within(s, file),
            items.take(n - 1),
            mid,
            seq![empty_item("line"@, line_attrs(line, ratios))],
            goal,
        );
        assert(items.take(n - 1) + seq![empty_item("line"@, line_attrs(line, ratios))]
            =~= items.take(n));
    }
}

// ---------------------------------------------------------------------------
// Methods
// ---------------------------------------------------------------------------

proof fn method_leads(s: StateView, file: FileCoverageView, function: FunctionView)
    requires
        plain_function(function),
    ensures
        leads(
            step(),
            within(s, file),
            method_items(function),
            within(
                s,
                FileCoverageView {
                    functions: file.functions.push(kept_function(function)),
                    ..file
                },
            ),
        ),
{
    elements_apart();
    step_is_steady();
    let from = within(s, file);
    let attrs = method_attrs(function);
    let begun = FunctionView {
        name: function.name,
        signature: non_empty(function.signature),
        line: None,
        hits: 0,
    };
    let open = StateView { method: Some(begun), ..from };
    assert forall|tag: TagView| #[trigger] written_as(tag, "method"@, attrs) implies step()(
        from,
        EventView::Start(tag),
    ) == Ok::<StateView, ErrorView>(open) by {
        reveal_strlit("name");
        reveal_strlit("signature");
        reveal_strlit("");
        assert("name"@.len() != "signature"@.len());
        attr_is_found(attrs, 0);
        attr_is_found(attrs, 1);
        assert(tag.attr("name"@) == attr_in(attrs, "name"@));
        assert(tag.attr("signature"@) == attr_in(attrs, "signature"@));
        assert(""@ =~= Seq::empty());
    }
    open_leads(step(), from, "method"@, attrs, open);
    untold(open, "lines"@, Seq::empty());
    let head = seq![open_item("method"@, attrs)];
    leads_on(step(), from, head, open, seq![open_item("lines"@, Seq::empty())], open);
    let two = seq![open_item("method"@, attrs), open_item("lines"@, Seq::empty())];
    assert(head + seq![open_item("lines"@, Seq::empty())] =~= two);
    let placed = StateView { method: Some(kept_function(function)), ..from };
    let place = match function.line {
        Some(line) => seq![empty_item("line"@, place_attrs(line, function.hits))],
        None => Seq::empty(),
    };
    if let Some(line) = function.line {
        let at = place_attrs(line, function.hits);
        assert forall|tag: TagView| #[trigger] written_as(tag, "line"@, at) implies step()(
            open,
            EventView::Empty(tag),
        ) == Ok::<StateView, ErrorView>(placed) by {
            line_keys();
            digits_are_shown(line as nat);
            digits_are_shown(function.hits as nat);
            attr_is_found(at, 0);
            attr_is_found(at, 1);
            assert(tag.attr("number"@) == attr_in(at, "number"@));
            assert(tag.attr("hits"@) == attr_in(at, "hits"@));
            written_numbers_parse(line as u64);
            written_numbers_parse(function.hits);
        }
        empty_leads(step(), open, "line"@, at, placed);
    } else {
        assert(placed == open);
        leads_nowhere(step(), open);
    }
    leads_on(step(), from, two, open, place, placed);
    untold(placed, "lines"@, Seq::empty());
    leads_on(step(), from, two + place, placed, seq![close_item("lines"@)], placed);
    let done = within(
        s,
        FileCoverageView { functions: file.functions.push(kept_function(function)), ..file },
    );
    close_leads(step(), placed, "method"@, done);
    leads_on(
        step(),
        from,
        two + place + seq![close_item("lines"@)],
        placed,
        seq![close_item("method"@)],
        done,
    );
    assert(two + place + seq![close_item("lines"@)] + seq![close_item("method"@)]
        =~= method_items(function));
}

proof fn methods_lead(
    s: StateView,
    file: FileCoverageView,
    functions: Seq<FunctionView>,
    n: int,
)
    requires
        0 <= n <= functions.len(),
        forall|i: int| 0 <= i < functions.len() ==> plain_function(#[trigger] functions[i]),
    ensures
        leads(
            step(),
            within(s, file),
            flat(functions.take(n), |f: FunctionView| method_items(f)),
            within(
                s,
                FileCoverageView {
                    functions: file.functions + functions.map_values(
                        |f: FunctionView| kept_function(f),
                    ).take(n),
                    ..file
                },
            ),
        ),
    decreases n,
{
    let write = |f: FunctionView| method_items(f);
    let kept = functions.map_values(|f: FunctionView| kept_function(f));
    if n == 0 {
        assert(functions.take(0) =~= Seq::empty());
        assert(file.functions + kept.take(0) =~= file.functions);
        leads_nowhere(step(), within(s, file));
    } else {
        methods_lead(s, file, functions, n - 1);
        let f = functions[n - 1];
        let half = FileCoverageView { functions: file.functions + kept.take(n - 1), ..file };
        let whole = FileCoverageView { functions: file.functions + kept.take(n), ..file };
        assert(functions.take(n).drop_last() =~= functions.take(n - 1));
        method_leads(s, half, f);
        assert(half.functions.push(kept_function(f)) =~= whole.functions);
        leads_on(
            step(),
            within(s, file),
            flat(functions.take(n - 1), write),
            within(s, half),
            method_items(f),
            within(s, whole),
        );
    }
}

proof fn all_methods_lead(s: StateView, file: FileCoverageView, functions: Seq<FunctionView>)
    requires
        file.functions.len() == 0,
        forall|i: int| 0 <= i < functions.len() ==> plain_function(#[trigger] functions[i]),
    ensures
        leads(
            step(),
            within(s, file),
            methods_items(functions),
            within(
                s,
                FileCoverageView {
                    functions: functions.map_values(|f: FunctionView| kept_function(f)),
                    ..file
                },
            ),
        ),
{
    elements_apart();
    let kept = functions.map_values(|f: FunctionView| kept_function(f));
    let from = within(s, file);
    let to = within(s, FileCoverageView { functions: kept, ..file });
    if functions.len() == 0 {
        assert(kept =~= file.functions);
        untold(from, "methods"@, Seq::empty());
    } else {
        let n = functions.len() as int;
        methods_lead(s, file, functions, n);
        assert(functions.take(n) =~= functions);
        assert(file.functions + kept.take(n) =~= kept);
        untold(from, "methods"@, Seq::empty());
        untold(to, "methods"@, Seq::empty());
        let open = seq![open_item("methods"@, Seq::empty())];
        let body = flat(functions, |f: FunctionView| method_items(f));
        leads_on(step(), from, open, from, body, to);
        leads_on(step(), from, open + body, to, seq![close_item("methods"@)], to);
    }
}

// ---------------------------------------------------------------------------
// Classes and packages
// ---------------------------------------------------------------------------

/// A state between classes, with these files read.
spec fn between(s: StateView, files: Seq<FileCoverageView>) -> StateView {
    StateView { doc: CoverageDocView { files, ..s.doc }, current: None, method: None, ..s }
}

#[verifier::spinoff_prover]
#[verifier::rlimit(60)]
proof fn class_leads(
    s: StateView,
    files: Seq<FileCoverageView>,
    package: Seq<char>,
    file: FileCoverageView,
    ratios: Seq<RatioView>,
)
    requires
        plain_file(file),
        plain_ratios(ratios),
    ensures
        leads(
            step(),
            between(s, files),
            class_items(package, file, ratios),
            between(s, files.push(kept_file(file))),
        ),
{
    elements_apart();
    step_is_steady();
    let from = between(s, files);
    let attrs = class_attrs(package, file, ratios);
    let empty = FileCoverageView::of(file.path);
    let open = within(from, empty);
    assert forall|tag: TagView| #[trigger] written_as(tag, "class"@, attrs) implies step()(
        from,
        EventView::Start(tag),
    ) == Ok::<StateView, ErrorView>(open) by {
        reveal_strlit("name");
        reveal_strlit("filename");
        assert("name"@.len() != "filename"@.len());
        attr_is_found(attrs, 1);
        assert(tag.attr("filename"@) == attr_in(attrs, "filename"@));
    }
    open_leads(step(), from, "class"@, attrs, open);
    all_methods_lead(from, empty, file.functions);
    let kept = file.functions.map_values(|f: FunctionView| kept_function(f));
    let named = FileCoverageView { functions: kept, ..empty };
    let a = seq![open_item("class"@, attrs)];
    let b = methods_items(file.functions);
    leads_on(step(), from, a, open, b, within(from, named));
    let c = seq![open_item("lines"@, Seq::empty())];
    untold(within(from, named), "lines"@, Seq::empty());
    leads_on(step(), from, a + b, within(from, named), c, within(from, named));
    let n = file.lines.len() as int;
    let d = file.lines.map_values(|l: Line| empty_item("line"@, line_attrs(l, ratios)));
    lines_lead(from, named, file.lines, n, ratios);
    assert(d.take(n) =~= d);
    assert(named.lines + file.lines.take(n) =~= file.lines);
    let full = kept_file(file);
    leads_on(step(), from, a + b + c, within(from, named), d, within(from, full));
    untold(within(from, full), "lines"@, Seq::empty());
    let e = seq![close_item("lines"@)];
    leads_on(step(), from, a + b + c + d, within(from, full), e, within(from, full));
    let f = seq![close_item("class"@)];
    let to = between(s, files.push(full));
    close_leads(step(), within(from, full), "class"@, to);
    leads_on(step(), from, a + b + c + d + e, within(from, full), f, to);
    assert(a + b + c + d + e + f =~= class_items(package, file, ratios));
}

proof fn classes_lead(
    s: StateView,
    files: Seq<FileCoverageView>,
    package: Seq<char>,
    more: Seq<FileCoverageView>,
    n: int,
    ratios: Seq<RatioView>,
)
    requires
        0 <= n <= more.len(),
        forall|i: int| 0 <= i < more.len() ==> plain_file(#[trigger] more[i]),
        plain_ratios(ratios),
    ensures
        leads(
            step(),
            between(s, files),
            flat(more.take(n), |f: FileCoverageView| class_items(package, f, ratios)),
            between(s, files + more.map_values(|f: FileCoverageView| kept_file(f)).take(n)),
        ),
    decreases n,
{
    let write = |f: FileCoverageView| class_items(package, f, ratios);
    let kept = more.map_values(|f: FileCoverageView| kept_file(f));
    if n == 0 {
        assert(more.take(0) =~= Seq::empty());
        assert(files + kept.take(0) =~= files);
        leads_nowhere(step(), between(s, files));
    } else {
        classes_lead(s, files, package, more, n - 1, ratios);
        assert(more.take(n).drop_last() =~= more.take(n - 1));
        let file = more[n - 1];
        class_leads(s, files + kept.take(n - 1), package, file, ratios);
        assert((files + kept.take(n - 1)).push(kept_file(file)) =~= files + kept.take(n));
        leads_on(
            step(),
            between(s, files),
            flat(more.take(n - 1), write),
            between(s, files + kept.take(n - 1)),
            class_items(package, file, ratios),
            between(s, files + kept.take(n)),
        );
    }
}

proof fn package_leads(
    s: StateView,
    files: Seq<FileCoverageView>,
    package: Seq<char>,
    more: Seq<FileCoverageView>,
    ratios: Seq<RatioView>,
)
    requires
        forall|i: int| 0 <= i < more.len() ==> plain_file(#[trigger] more[i]),
        plain_ratios(ratios),
    ensures
        leads(
            step(),
            between(s, files),
            package_items(package, more, ratios),
            between(s, files + more.map_values(|f: FileCoverageView| kept_file(f))),
        ),
{
    elements_apart();
    let from = between(s, files);
    let n = more.len() as int;
    let kept = more.map_values(|f: FileCoverageView| kept_file(f));
    let to = between(s, files + kept);
    let a = seq![open_item("package"@, package_attrs(package, more, ratios))];
    let b = seq![open_item("classes"@, Seq::empty())];
    let c = flat(more, |f: FileCoverageView| class_items(package, f, ratios));
    let d = seq![close_item("classes"@)];
    let e = seq![close_item("package"@)];
    untold(from, "package"@, package_attrs(package, more, ratios));
    untold(from, "classes"@, Seq::empty());
    untold(to, "classes"@, Seq::empty());
    untold(to, "package"@, Seq::empty());
    classes_lead(s, files, package, more, n, ratios);
    assert(more.take(n) =~= more);
    assert(kept.take(n) =~= kept);
    leads_on(step(), from, a, from, b, from);
    leads_on(step(), from, a + b, from, c, to);
    leads_on(step(), from, a + b + c, to, d, to);
    leads_on(step(), from, a + b + c + d, to, e, to);
    assert(a + b + c + d + e =~= package_items(package, more, ratios));
}

#[verifier::spinoff_prover]
#[verifier::rlimit(60)]
proof fn packages_lead(s: StateView, packages: Seq<PackageView>, ratios: Seq<RatioView>)
    requires
        forall|k: int, i: int|
            0 <= k < packages.len() && 0 <= i < packages[k].files.len() ==> plain_file(
                #[trigger] packages[k].files[i],
            ),
        plain_ratios(ratios),
    ensures
        leads(
            step(),
            between(s, Seq::empty()),
            flat(packages, |p: PackageView| package_items(p.name, p.files, ratios)),
            between(s, gathered(packages).map_values(|f: FileCoverageView| kept_file(f))),
        ),
    decreases packages.len(),
{
    let keep = |f: FileCoverageView| kept_file(f);
    let write = |p: PackageView| package_items(p.name, p.files, ratios);
    let from = between(s, Seq::empty());
    if packages.len() == 0 {
        assert(gathered(packages).map_values(keep) =~= Seq::empty());
        leads_nowhere(step(), from);
    } else {
        let head = packages.drop_last();
        let last = packages[packages.len() - 1];
        assert forall|k: int, i: int|
            0 <= k < head.len() && 0 <= i < head[k].files.len() implies plain_file(
            #[trigger] head[k].files[i],
        ) by {
            assert(head[k] == packages[k]);
        }
        assert forall|i: int| 0 <= i < last.files.len() implies plain_file(
            #[trigger] last.files[i],
        ) by {
            assert(packages[packages.len() - 1].files[i] == last.files[i]);
        }
        packages_lead(s, head, ratios);
        let mid = gathered(head).map_values(keep);
        let all = gathered(packages).map_values(keep);
        package_leads(s, mid, last.name, last.files, ratios);
        assert(mid + last.files.map_values(keep) =~= all);
        leads_on(
            step(),
            from,
            flat(head, write),
            between(s, mid),
            write(last),
            between(s, all),
        );
    }
}

// ---------------------------------------------------------------------------
// The report
// ---------------------------------------------------------------------------

/// A state before the packages, with these roots read.
spec fn rooted(s: StateView, roots: Seq<Seq<char>>) -> StateView {
    StateView { doc: CoverageDocView { source_roots: roots, ..s.doc }, in_source: false, ..s }
}

proof fn root_leads(s: StateView, roots: Seq<Seq<char>>, root: Seq<char>)
    requires
        plain_root(root),
    ensures
        leads(
            step(),
            rooted(s, roots),
            seq![text_item("source"@, root)],
            rooted(s, roots.push(root)),
        ),
{
    elements_apart();
    step_is_steady();
    let from = rooted(s, roots);
    let to = rooted(s, roots.push(root));
    text_leads(
        step(),
        from,
        text_item("source"@, root),
        StateView { in_source: true, ..from },
        to,
    );
}

proof fn roots_lead(s: StateView, roots: Seq<Seq<char>>, n: int)
    requires
        0 <= n <= roots.len(),
        forall|i: int| 0 <= i < roots.len() ==> plain_root(#[trigger] roots[i]),
    ensures
        leads(
            step(),
            rooted(s, Seq::empty()),
            roots.map_values(|root: Seq<char>| text_item("source"@, root)).take(n),
            rooted(s, roots.take(n)),
        ),
    decreases n,
{
    let items = roots.map_values(|root: Seq<char>| text_item("source"@, root));
    if n == 0 {
        assert(items.take(0) =~= Seq::empty());
        assert(roots.take(0) =~= Seq::empty());
        leads_nowhere(step(), rooted(s, Seq::empty()));
    } else {
        roots_lead(s, roots, n - 1);
        assert(plain_root(roots[n - 1]));
        root_leads(s, roots.take(n - 1), roots[n - 1]);
        assert(roots.take(n - 1).push(roots[n - 1]) =~= roots.take(n));
        leads_on(
            step(),
            rooted(s, Seq::empty()),
            items.take(n - 1),
            rooted(s, roots.take(n - 1)),
            seq![text_item("source"@, roots[n - 1])],
            rooted(s, roots.take(n)),
        );
        assert(items.take(n - 1) + seq![text_item("source"@, roots[n - 1])] =~= items.take(n));
    }
}

proof fn sources_lead(s: StateView, roots: Seq<Seq<char>>)
    requires
        forall|i: int| 0 <= i < roots.len() ==> plain_root(#[trigger] roots[i]),
    ensures
        leads(
            step(),
            rooted(s, Seq::empty()),
            source_items(roots),
            rooted(
                s,
                if roots.len() == 0 {
                    seq!["."@]
                } else {
                    roots
                },
            ),
        ),
{
    if roots.len() == 0 {
        reveal_strlit(".");
        shown_whole("."@);
        assert(trim("."@) == "."@) by {
            reveal_with_fuel(crate::text::trim_start, 2);
            reveal_with_fuel(crate::text::trim_end, 2);
        }
        root_leads(s, Seq::empty(), "."@);
        assert(Seq::<Seq<char>>::empty().push("."@) =~= seq!["."@]);
    } else {
        let n = roots.len() as int;
        let items = roots.map_values(|root: Seq<char>| text_item("source"@, root));
        roots_lead(s, roots, n);
        assert(items.take(n) =~= items);
        assert(roots.take(n) =~= roots);
    }
}

proof fn root_keys(doc: CoverageDocView, ratios: Seq<RatioView>, tag: TagView)
    requires
        written_as(tag, "coverage"@, coverage_attrs(doc, ratios)),
    ensures
        tag.attr_i64("timestamp"@) == kept_doc(doc).timestamp,
{
    let attrs = coverage_attrs(doc, ratios);
    reveal_strlit("line-rate");
    reveal_strlit("branch-rate");
    reveal_strlit("lines-covered");
    reveal_strlit("lines-valid");
    reveal_strlit("branches-covered");
    reveal_strlit("branches-valid");
    reveal_strlit("complexity");
    reveal_strlit("version");
    reveal_strlit("timestamp");
    let t: i64 = match doc.timestamp {
        Some(t) => t,
        None => 0,
    };
    assert(attrs[8].0 == "timestamp"@);
    assert forall|j: int| 0 <= j < 8 implies (#[trigger] attrs[j]).0 != attrs[8].0 by {
        assert("line-rate"@[0] == 'l' && "timestamp"@[0] == 't');
        assert("branch-rate"@.len() == 11 && "lines-covered"@.len() == 13);
        assert("lines-valid"@.len() == 11 && "branches-covered"@.len() == 16);
        assert("branches-valid"@.len() == 14 && "complexity"@.len() == 10);
        assert("version"@.len() == 7 && "timestamp"@.len() == 9);
        assert(j == 0 || j == 1 || j == 2 || j == 3 || j == 4 || j == 5 || j == 6 || j == 7);
    }
    attr_is_found(attrs, 8);
    assert(tag.attr("timestamp"@) == attr_in(attrs, "timestamp"@));
    written_signed_numbers_parse(t);
    assert(shown(signed_decimal(t as int)) == signed_decimal(t as int)) by {
        if t < 0 {
            digits_are_shown((-t) as nat);
            shown_whole(seq!['-']);
            shown_together(seq!['-'], decimal((-t) as nat));
        } else {
            digits_are_shown(t as nat);
        }
    }
}

proof fn folding_different_files(files: Seq<FileCoverageView>)
    requires
        forall|i: int, j: int|
            0 <= i < j < files.len() ==> (#[trigger] files[i]).path != (#[trigger] files[j]).path,
    ensures
        fold_files(Seq::empty(), files) == files,
    decreases files.len(),
{
    if files.len() > 0 {
        let head = files.drop_last();
        assert forall|i: int, j: int| 0 <= i < j < head.len() implies (#[trigger] head[i]).path != (
        #[trigger] head[j]).path by {
            assert(head[i] == files[i] && head[j] == files[j]);
        }
        folding_different_files(head);
        assert forall|i: int| 0 <= i < head.len() implies (#[trigger] head[i]).path
            != files.last().path by {
            assert(head[i] == files[i]);
            assert(files[i].path != files[files.len() - 1].path);
        }
        path_is_new(head, files.last().path);
        assert(head.push(files.last()) =~= files);
    } else {
        assert(files =~= Seq::empty());
    }
}

proof fn path_is_new(files: Seq<FileCoverageView>, path: Seq<char>)
    requires
        forall|i: int| 0 <= i < files.len() ==> (#[trigger] files[i]).path != path,
    ensures
        file_at(files, path) == files.len(),
    decreases files.len(),
{
    if files.len() > 0 {
        assert(files[0].path != path);
        let rest = files.skip(1);
        assert forall|i: int| 0 <= i < rest.len() implies (#[trigger] rest[i]).path != path by {
            assert(rest[i] == files[i + 1]);
        }
        path_is_new(rest, path);
    }
}

/// What is written as Cobertura XML reads back, whatever events stand for it:
/// the time and roots of the report, and the files with their lines, hits,
/// branches and methods, in canonical order. What the format has no room for is
/// gone: the counters, and the hits of a function without a line.
pub proof fn reports_read_back(
    doc: CoverageDocView,
    ratios: Seq<RatioView>,
    chunks: Seq<Seq<EventView>>,
)
    requires
        plain_ratios(ratios),
        forall|i: int| 0 <= i < doc.source_roots.len() ==> plain_root(
            #[trigger] doc.source_roots[i],
        ),
        forall|i: int| 0 <= i < doc.files.len() ==> plain_file(#[trigger] doc.files[i]),
        distinct_files(doc.files),
        reads_as(report_items(doc, ratios), chunks),
    ensures
        read_spec(events_of(chunks).push(EventView::Eof)) == Ok::<DocView, ErrorView>(
            DocView::Coverage(sort_doc(kept_doc(doc))),
        ),
{
    elements_apart();
    step_is_steady();
    let kept = kept_doc(doc);
    let a = seq![declaration_item()];
    let b = seq![Item::Raw { text: DOCTYPE@ }];
    let c = seq![open_item("coverage"@, coverage_attrs(doc, ratios))];
    let d = seq![open_item("sources"@, Seq::empty())];
    let e = source_items(doc.source_roots);
    let f = seq![close_item("sources"@)];
    let g = seq![open_item("packages"@, Seq::empty())];
    let h = packages_items(doc.files, ratios);
    let i = seq![close_item("packages"@)];
    let k = seq![close_item("coverage"@)];
    let s0 = start();
    raw_leads(step(), s0, declaration_item());
    raw_leads(step(), s0, Item::Raw { text: DOCTYPE@ });
    leads_on(step(), s0, a, s0, b, s0);
    let s1 = StateView {
        saw_root: true,
        doc: CoverageDocView { timestamp: kept.timestamp, ..CoverageDocView::empty() },
        ..s0
    };
    assert forall|tag: TagView| #[trigger]
        written_as(tag, "coverage"@, coverage_attrs(doc, ratios)) implies step()(
        s0,
        EventView::Start(tag),
    ) == Ok::<StateView, ErrorView>(s1) by {
        root_keys(doc, ratios, tag);
    }
    open_leads(step(), s0, "coverage"@, coverage_attrs(doc, ratios), s1);
    leads_on(step(), s0, a + b, s0, c, s1);
    untold(s1, "sources"@, Seq::empty());
    leads_on(step(), s0, a + b + c, s1, d, s1);
    assert(rooted(s1, Seq::empty()) == s1);
    sources_lead(s1, doc.source_roots);
    let s2 = rooted(s1, kept.source_roots);
    leads_on(step(), s0, a + b + c + d, s1, e, s2);
    untold(s2, "sources"@, Seq::empty());
    leads_on(step(), s0, a + b + c + d + e, s2, f, s2);
    untold(s2, "packages"@, Seq::empty());
    leads_on(step(), s0, a + b + c + d + e + f, s2, g, s2);
    assert(between(s2, Seq::empty()) == s2);
    let packages = packages_by(doc.files, dotted());
    let keep = |f: FileCoverageView| kept_file(f);
    packages_are_of_the_files(doc.files, dotted(), |f: FileCoverageView| plain_file(f));
    packages_lead(s2, packages, ratios);
    let files = gathered(packages).map_values(keep);
    let s3 = between(s2, files);
    leads_on(step(), s0, a + b + c + d + e + f + g, s2, h, s3);
    untold(s3, "packages"@, Seq::empty());
    leads_on(step(), s0, a + b + c + d + e + f + g + h, s3, i, s3);
    close_leads(step(), s3, "coverage"@, s3);
    leads_on(step(), s0, a + b + c + d + e + f + g + h + i, s3, k, s3);
    assert(a + b + c + d + e + f + g + h + i + k =~= report_items(doc, ratios));
    arrives(step(), s0, report_items(doc, ratios), s3, chunks);
    let events = events_of(chunks);
    folding_is_running(events);
    assert(events.push(EventView::Eof).drop_last() =~= events);
    assert(folded(events.push(EventView::Eof)) == Ok::<StateView, ErrorView>(s3));
    different_files_stay_different(doc.files, dotted());
    assert forall|x: int, y: int| 0 <= x < y < files.len() implies (#[trigger] files[x]).path != (
    #[trigger] files[y]).path by {
        assert(gathered(packages)[x].path != gathered(packages)[y].path);
    }
    folding_different_files(files);
    grouped_files_sort_alike(doc.files, dotted(), keep);
    assert(s3.doc == CoverageDocView { files, ..kept });
}

// ---------------------------------------------------------------------------
// The document
// ---------------------------------------------------------------------------

/// The names of the elements and attributes are plain.
proof fn names_are_plain()
    ensures
        plain_name("coverage"@),
        plain_name("sources"@),
        plain_name("source"@),
        plain_name("packages"@),
        plain_name("package"@),
        plain_name("classes"@),
        plain_name("class"@),
        plain_name("methods"@),
        plain_name("method"@),
        plain_name("lines"@),
        plain_name("line"@),
        plain_name("name"@),
        plain_name("signature"@),
        plain_name("line-rate"@),
        plain_name("branch-rate"@),
        plain_name("complexity"@),
        plain_name("number"@),
        plain_name("hits"@),
        plain_name("branch"@),
        plain_name("condition-coverage"@),
        plain_name("filename"@),
        plain_name("lines-covered"@),
        plain_name("lines-valid"@),
        plain_name("branches-covered"@),
        plain_name("branches-valid"@),
        plain_name("version"@),
        plain_name("timestamp"@),
{
    reveal(plain_name);
    reveal_strlit("coverage");
    reveal_strlit("sources");
    reveal_strlit("source");
    reveal_strlit("packages");
    reveal_strlit("package");
    reveal_strlit("classes");
    reveal_strlit("class");
    reveal_strlit("methods");
    reveal_strlit("method");
    reveal_strlit("lines");
    reveal_strlit("line");
    reveal_strlit("name");
    reveal_strlit("signature");
    reveal_strlit("line-rate");
    reveal_strlit("branch-rate");
    reveal_strlit("complexity");
    reveal_strlit("number");
    reveal_strlit("hits");
    reveal_strlit("branch");
    reveal_strlit("condition-coverage");
    reveal_strlit("filename");
    reveal_strlit("lines-covered");
    reveal_strlit("lines-valid");
    reveal_strlit("branches-covered");
    reveal_strlit("branches-valid");
    reveal_strlit("version");
    reveal_strlit("timestamp");
}

/// No other element is a class.
proof fn names_apart()
    ensures
        "coverage"@ != "class"@,
        "sources"@ != "class"@,
        "source"@ != "class"@,
        "packages"@ != "class"@,
        "package"@ != "class"@,
        "classes"@ != "class"@,
        "methods"@ != "class"@,
        "method"@ != "class"@,
        "lines"@ != "class"@,
        "line"@ != "class"@,
        "name"@ != "filename"@,
{
    reveal_strlit("coverage");
    reveal_strlit("class");
    reveal_strlit("sources");
    reveal_strlit("source");
    reveal_strlit("packages");
    reveal_strlit("package");
    reveal_strlit("classes");
    reveal_strlit("methods");
    reveal_strlit("method");
    reveal_strlit("lines");
    reveal_strlit("line");
    reveal_strlit("name");
    reveal_strlit("filename");
    assert("coverage"@.len() == 8);
    assert("class"@.len() == 5 && "class"@[0] == 'c');
    assert("sources"@.len() == 7);
    assert("source"@.len() == 6);
    assert("packages"@.len() == 8);
    assert("package"@.len() == 7);
    assert("classes"@.len() == 7);
    assert("methods"@.len() == 7);
    assert("method"@.len() == 6);
    assert("lines"@.len() == 5 && "lines"@[0] == 'l');
    assert("line"@.len() == 4);
    assert("name"@.len() == 4);
    assert("filename"@.len() == 8);
}

/// A file whose path reads as one.
pub open spec fn named(file: FileCoverageView) -> bool {
    normalized(shown(file.path)).len() > 0
}

pub open spec fn all_named(files: Seq<FileCoverageView>) -> bool {
    forall|i: int| 0 <= i < files.len() ==> named(#[trigger] files[i])
}

/// A line that the reader does not stumble over: a class has a file name.
pub open spec fn legible_line(item: Item) -> bool {
    match item {
        Item::Open { name, attrs } => name == "class"@ ==> match attr_in(attrs, "filename"@) {
            Some(path) => normalized(path).len() > 0,
            None => false,
        },
        Item::Text { name, .. } => name != "class"@,
        _ => true,
    }
}

spec fn legible() -> spec_fn(Item) -> bool {
    |item: Item| legible_line(item)
}

proof fn doctype_is_plain()
    ensures
        doctype(DOCTYPE@),
{
    reveal(doctype);
    reveal_strlit("<!DOCTYPE ");
    reveal_strlit(
        "<!DOCTYPE coverage SYSTEM \"http://cobertura.sourceforge.net/xml/coverage-04.dtd\">",
    );
    assert(DOCTYPE@.take(10) =~= "<!DOCTYPE "@);
}

proof fn method_is_a_block(function: FunctionView)
    ensures
        block(legible(), method_items(function)),
{
    names_are_plain();
    names_apart();
    let inner = match function.line {
        Some(line) => seq![empty_item("line"@, place_attrs(line, function.hits))],
        None => Seq::empty(),
    };
    assert forall|i: int| 0 <= i < inner.len() implies whole(#[trigger] inner[i]) by {
        assert(plain_attrs(place_attrs(function.line->0, function.hits)));
    }
    whole_lines_are_a_block(legible(), inner);
    let lines = seq![open_item("lines"@, Seq::empty())] + inner + seq![close_item("lines"@)];
    element_is_a_block(legible(), "lines"@, Seq::empty(), inner);
    assert(plain_attrs(method_attrs(function)));
    element_is_a_block(legible(), "method"@, method_attrs(function), lines);
    assert(method_items(function) =~= seq![open_item("method"@, method_attrs(function))] + lines
        + seq![close_item("method"@)]);
}

proof fn methods_are_a_block(functions: Seq<FunctionView>)
    ensures
        block(legible(), methods_items(functions)),
{
    names_are_plain();
    names_apart();
    if functions.len() == 0 {
        one_line_is_a_block(legible(), empty_item("methods"@, Seq::empty()));
    } else {
        let f = |f: FunctionView| method_items(f);
        assert forall|i: int| 0 <= i < functions.len() implies block(
            legible(),
            f(#[trigger] functions[i]),
        ) by {
            method_is_a_block(functions[i]);
        }
        parts_are_a_block(legible(), functions, f);
        element_is_a_block(legible(), "methods"@, Seq::empty(), flat(functions, f));
    }
}

proof fn class_is_a_block(package: Seq<char>, file: FileCoverageView, ratios: Seq<RatioView>)
    requires
        named(file),
    ensures
        block(legible(), class_items(package, file, ratios)),
{
    names_are_plain();
    names_apart();
    let f = |l: Line| empty_item("line"@, line_attrs(l, ratios));
    let inner = file.lines.map_values(f);
    assert forall|i: int| 0 <= i < inner.len() implies whole(#[trigger] inner[i]) by {
        assert(plain_attrs(line_attrs(file.lines[i], ratios)));
    }
    whole_lines_are_a_block(legible(), inner);
    let lines = seq![open_item("lines"@, Seq::empty())] + inner + seq![close_item("lines"@)];
    element_is_a_block(legible(), "lines"@, Seq::empty(), inner);
    let methods = methods_items(file.functions);
    methods_are_a_block(file.functions);
    blocks_together(legible(), methods, lines);
    let attrs = class_attrs(package, file, ratios);
    assert(plain_attrs(attrs));
    assert(attrs[1] == ("filename"@, file.path));
    attr_is_found(attrs, 1);
    element_is_a_block(legible(), "class"@, attrs, methods + lines);
    assert(class_items(package, file, ratios) =~= seq![open_item("class"@, attrs)] + (methods
        + lines) + seq![close_item("class"@)]);
}

proof fn package_is_a_block(
    package: Seq<char>,
    files: Seq<FileCoverageView>,
    ratios: Seq<RatioView>,
)
    requires
        all_named(files),
    ensures
        block(legible(), package_items(package, files, ratios)),
{
    names_are_plain();
    names_apart();
    let f = |f: FileCoverageView| class_items(package, f, ratios);
    assert forall|i: int| 0 <= i < files.len() implies block(legible(), f(#[trigger] files[i])) by {
        class_is_a_block(package, files[i], ratios);
    }
    parts_are_a_block(legible(), files, f);
    let inner = flat(files, f);
    let classes = seq![open_item("classes"@, Seq::empty())] + inner + seq![close_item("classes"@)];
    element_is_a_block(legible(), "classes"@, Seq::empty(), inner);
    let attrs = package_attrs(package, files, ratios);
    assert(plain_attrs(attrs));
    element_is_a_block(legible(), "package"@, attrs, classes);
    assert(package_items(package, files, ratios) =~= seq![open_item("package"@, attrs)] + classes
        + seq![close_item("package"@)]);
}

proof fn packages_are_a_block(files: Seq<FileCoverageView>, ratios: Seq<RatioView>)
    requires
        all_named(files),
    ensures
        block(legible(), packages_items(files, ratios)),
{
    let packages = packages_by(files, dotted());
    let write = |p: PackageView| package_items(p.name, p.files, ratios);
    packages_are_of_the_files(files, dotted(), |f: FileCoverageView| named(f));
    assert forall|k: int| 0 <= k < packages.len() implies block(
        legible(),
        write(#[trigger] packages[k]),
    ) by {
        assert(all_named(packages[k].files));
        package_is_a_block(packages[k].name, packages[k].files, ratios);
    }
    parts_are_a_block(legible(), packages, write);
}

proof fn sources_are_a_block(roots: Seq<Seq<char>>)
    ensures
        block(legible(), source_items(roots)),
{
    names_are_plain();
    names_apart();
    let items = source_items(roots);
    assert forall|i: int| 0 <= i < items.len() implies whole(#[trigger] items[i]) by {}
    whole_lines_are_a_block(legible(), items);
}

/// What is written as Cobertura XML is a document.
pub proof fn reports_are_well_formed(doc: CoverageDocView, ratios: Seq<RatioView>)
    requires
        all_named(doc.files),
    ensures
        well_formed(report_items(doc, ratios)),
        forall|i: int|
            0 <= i < report_items(doc, ratios).len() ==> legible_line(
                #[trigger] report_items(doc, ratios)[i],
            ),
{
    names_are_plain();
    names_apart();
    doctype_is_plain();
    let roots = source_items(doc.source_roots);
    let files = packages_items(doc.files, ratios);
    sources_are_a_block(doc.source_roots);
    packages_are_a_block(doc.files, ratios);
    let sources = seq![open_item("sources"@, Seq::empty())] + roots + seq![
        close_item("sources"@),
    ];
    let packages = seq![open_item("packages"@, Seq::empty())] + files + seq![
        close_item("packages"@),
    ];
    element_is_a_block(legible(), "sources"@, Seq::empty(), roots);
    element_is_a_block(legible(), "packages"@, Seq::empty(), files);
    blocks_together(legible(), sources, packages);
    let attrs = coverage_attrs(doc, ratios);
    assert(plain_attrs(attrs));
    element_is_a_block(legible(), "coverage"@, attrs, sources + packages);
    let report = seq![open_item("coverage"@, attrs)] + (sources + packages) + seq![
        close_item("coverage"@),
    ];
    let head = seq![declaration_item(), Item::Raw { text: DOCTYPE@ }];
    whole_lines_are_a_block(legible(), head);
    blocks_together(legible(), head, report);
    assert(report_items(doc, ratios) =~= head + report);
    let items = report_items(doc, ratios);
    document_is_well_formed(legible(), items);
    assert forall|i: int| 0 <= i < items.len() implies legible_line(#[trigger] items[i]) by {
        assert(legible()(items[i]));
    }
}

/// Whatever is written as Cobertura XML with a path for each file is read again,
/// whatever events stand for it.
#[verifier::spinoff_prover]
#[verifier::rlimit(60)]
pub proof fn reports_are_read_again(
    doc: CoverageDocView,
    ratios: Seq<RatioView>,
    chunks: Seq<Seq<EventView>>,
)
    requires
        all_named(doc.files),
        reads_as(report_items(doc, ratios), chunks),
    ensures
        read_spec(events_of(chunks).push(EventView::Eof)) is Ok,
{
    elements_apart();
    let items = report_items(doc, ratios);
    let events = events_of(chunks);
    let sort = |event: EventView|
        match event {
            EventView::Failed(_) => false,
            EventView::Text(text) => text is Ok,
            EventView::Start(tag) => tag.name == "class"@ ==> class_file(tag) is Some,
            _ => true,
        };
    let mark = |s: StateView| s.saw_root;
    reports_are_well_formed(doc, ratios);
    assert forall|i: int, j: int|
        0 <= i < items.len() && 0 <= j < chunks[i].len() && stands_for(
            chunks[i],
            items[i],
        ) implies sort(#[trigger] chunks[i][j]) by {
        events_of_a_line(chunks[i], items[i], j);
        assert(legible_line(items[i]));
    }
    events_are_of_a_sort(items, chunks, sort);
    assert(items[2] == open_item("coverage"@, coverage_attrs(doc, ratios)));
    written_tags_are_read(items, chunks, 2);
    let k = choose|i: int|
        0 <= i < events.len() && opens(
            #[trigger] events[i],
            "coverage"@,
            coverage_attrs(doc, ratios),
        );
    runs_through(step(), start(), events, sort, mark, k);
    folding_is_running(events);
    assert(events.push(EventView::Eof).drop_last() =~= events);
}

/// Whether these bytes are the Cobertura report of a document with a path for
/// each file.
pub open spec fn is_report(input: Seq<u8>, doc: CoverageDocView, ratios: Seq<RatioView>) -> bool {
    all_named(doc.files) && input == encode_utf8(rendered(report_items(doc, ratios)))
}

/// What was written is read again from its bytes.
pub(crate) proof fn written_bytes_are_read_again(
    input: Seq<u8>,
    events: Seq<EventView>,
    doc: CoverageDocView,
    ratios: Seq<RatioView>,
)
    requires
        faithful(input, events),
        is_report(input, doc, ratios),
    ensures
        read_spec(events) is Ok,
{
    let items = report_items(doc, ratios);
    reports_are_well_formed(doc, ratios);
    assert(echoes(events, items));
    let chunks = choose|chunks: Seq<Seq<EventView>>| #[trigger]
        reads_as(items, chunks) && events == events_of(chunks).push(EventView::Eof);
    reports_are_read_again(doc, ratios, chunks);
}

/// Whether these bytes are the Cobertura report of a document whose parts can
/// be written.
pub open spec fn holds_report(
    input: Seq<u8>,
    doc: CoverageDocView,
    ratios: Seq<RatioView>,
) -> bool {
    &&& plain_ratios(ratios)
    &&& forall|i: int|
        0 <= i < doc.source_roots.len() ==> plain_root(#[trigger] doc.source_roots[i])
    &&& forall|i: int| 0 <= i < doc.files.len() ==> plain_file(#[trigger] doc.files[i])
    &&& distinct_files(doc.files)
    &&& is_report(input, doc, ratios)
}

/// What was written reads back from its bytes.
pub(crate) proof fn written_bytes_read_back(
    input: Seq<u8>,
    events: Seq<EventView>,
    doc: CoverageDocView,
    ratios: Seq<RatioView>,
)
    requires
        faithful(input, events),
        holds_report(input, doc, ratios),
    ensures
        read_spec(events) == Ok::<DocView, ErrorView>(DocView::Coverage(sort_doc(kept_doc(doc)))),
{
    let items = report_items(doc, ratios);
    reports_are_well_formed(doc, ratios);
    assert(echoes(events, items));
    let chunks = choose|chunks: Seq<Seq<EventView>>| #[trigger]
        reads_as(items, chunks) && events == events_of(chunks).push(EventView::Eof);
    reports_read_back(doc, ratios, chunks);
}

} // verus!
