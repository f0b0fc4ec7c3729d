//! The round trip of a coverage report through JaCoCo XML: what reading gives
//! back of what was written.

use vstd::prelude::*;
use vstd::utf8::encode_utf8;

use crate::echo::{
    any_line, arrives, attr_in, attr_is_absent, attr_is_found, block, blocks_together, close_leads,
    digits_are_shown, doctype, document_is_well_formed, echoes, element_is_a_block, empty_leads,
    events_are_of_a_sort, events_of, events_of_a_line, faithful, leads, leads_nowhere, leads_on,
    no_lines_are_a_block, one_line_is_a_block, open_leads, opens, parts_are_a_block, plain_attrs,
    plain_name, ran, raw_leads, reads_as, runs_through, shown, shown_whole, stands_for, steady,
    well_formed, whole, whole_lines_are_a_block, written_as, written_tags_are_read,
};
use crate::error::ErrorView;
use crate::formats::coverage::jacoco::{
    bytecode_counters_pass_through, class_attrs, class_items, counter_item, counter_kept,
    counter_of, counter_pairs, counters_items, counters_read_back, entered, file_of, files_totaled,
    first_state, folded, function_of, join_path, kept_line, line_attrs, line_of, lines_read_back,
    method_added, method_attrs, method_counter, method_items, opt_counter, package_items,
    packages_items, put, read_spec, report_items,
    source_items, started, stepped, StateView, TargetView, DOCTYPE,
};
use crate::formats::coverage::packages::{
    different_files_stay_different, gathered, grouped_files_sort_alike, packages_are_of_the_files,
    packages_by, placed, PackageView,
};
use crate::model::coverage::{
    add_counters, directory_part, distinct_files, file_at, file_at_props, name_part, sort_doc,
    Counter, CoverageDocView, FileCoverage, FileCoverageView, FunctionView, Line,
};
use crate::order::{sorted, sorting_forgets_the_order, Ranked};
use crate::paths::{normalize_is_idempotent, normalized};
use crate::registry::DocView;
use crate::text::{decimal, last, last_props, lex_lt_total, replace_char, written_numbers_parse};
use crate::value::{flat, non_empty, or_text};
use crate::xml::{
    close_item, declaration_item, empty_item, open_item, rendered, vanishes, EventView, Item,
    TagView,
};

verus! {

// ---------------------------------------------------------------------------
// What a report can tell
// ---------------------------------------------------------------------------

/// A file that can be written: its path is normalized, names a file in a
/// directory other than the root, and holds nothing that vanishes.
pub open spec fn plain_file(file: FileCoverageView) -> bool {
    &&& shown(file.path) == file.path && normalized(file.path) == file.path
    &&& directory_part(file.path).len() == 0 ==> name_part(file.path) == file.path
}

/// What is kept of a function: not whether it ran, which a method says with a
/// counter that is not written for it.
pub open spec fn kept_function(function: FunctionView) -> FunctionView {
    FunctionView {
        name: shown(function.name),
        signature: non_empty(Some(shown(or_text(function.signature, "()V"@)))),
        line: function.line,
        hits: 0,
    }
}

/// What is kept of a file: its lines, its functions and its bytecode counters.
pub open spec fn kept_file(file: FileCoverageView) -> FileCoverageView {
    FileCoverageView {
        path: file.path,
        lines: file.lines.map_values(|l: Line| kept_line(l)),
        functions: file.functions.map_values(|f: FunctionView| kept_function(f)),
        counters: file.counters,
    }
}

pub open spec fn kept_doc(doc: CoverageDocView) -> CoverageDocView {
    CoverageDocView {
        files: doc.files.map_values(|f: FileCoverageView| kept_file(f)),
        ..CoverageDocView::empty()
    }
}

// ---------------------------------------------------------------------------
// The reader
// ---------------------------------------------------------------------------

spec fn step() -> spec_fn(StateView, EventView) -> Result<StateView, ErrorView> {
    |s: StateView, event: EventView| stepped(s, event)
}

proof fn step_is_steady()
    ensures
        steady(step()),
{
}

proof fn folding_is_running(events: Seq<EventView>)
    ensures
        folded(events) == ran(step(), first_state(), events),
    decreases events.len(),
{
    if events.len() > 0 {
        folding_is_running(events.drop_last());
    }
}

proof fn elements_apart()
    ensures
        "report"@.len() == 6 && "report"@[0] == 'r',
        "package"@.len() == 7 && "package"@[0] == 'p',
        "class"@.len() == 5,
        "method"@.len() == 6 && "method"@[0] == 'm',
        "sourcefile"@.len() == 10,
        "line"@.len() == 4,
        "counter"@.len() == 7 && "counter"@[0] == 'c',
        "INSTRUCTION"@.len() == 11,
        "COMPLEXITY"@.len() == 10,
        "METHOD"@.len() == 6 && "METHOD"@[0] == 'M',
        "CLASS"@.len() == 5,
        "BRANCH"@.len() == 6 && "BRANCH"@[0] == 'B',
        "LINE"@.len() == 4,
{
    reveal_strlit("report");
    reveal_strlit("package");
    reveal_strlit("class");
    reveal_strlit("method");
    reveal_strlit("sourcefile");
    reveal_strlit("line");
    reveal_strlit("counter");
    reveal_strlit("INSTRUCTION");
    reveal_strlit("COMPLEXITY");
    reveal_strlit("METHOD");
    reveal_strlit("CLASS");
    reveal_strlit("BRANCH");
    reveal_strlit("LINE");
}

// ---------------------------------------------------------------------------
// Files by their path
// ---------------------------------------------------------------------------

proof fn put_is_found(
    files: Seq<FileCoverageView>,
    path: Seq<char>,
    file: FileCoverageView,
)
    requires
        file.path == path,
    ensures
        0 <= file_at(put(files, path, file), path) < put(files, path, file).len(),
        file_of(put(files, path, file), path) == file,
        forall|other: FileCoverageView|
            other.path == path ==> #[trigger] put(put(files, path, file), path, other) == put(
                files,
                path,
                other,
            ),
{
    let more = put(files, path, file);
    file_at_props(files, path);
    file_at_props(more, path);
    let at = file_at(files, path);
    let now = file_at(more, path);
    if at < files.len() {
        if now < at {
            assert(more[now] == files[now]);
        }
        if now > at {
            assert(more[at].path == path);
        }
    } else {
        if now < files.len() {
            assert(more[now] == files[now]);
        }
        if now > files.len() {
            assert(more[files.len() as int].path == path);
        }
        assert(now == files.len());
    }
    assert(now == at);
    assert forall|other: FileCoverageView| other.path == path implies #[trigger] put(
        more,
        path,
        other,
    ) == put(files, path, other) by {
        assert(put(more, path, other) =~= put(files, path, other));
    }
}

proof fn put_keeps_others(
    files: Seq<FileCoverageView>,
    path: Seq<char>,
    file: FileCoverageView,
    other: Seq<char>,
)
    requires
        file.path == path,
        other != path,
    ensures
        file_of(put(files, path, file), other) == file_of(files, other),
        file_at(put(files, path, file), other) < put(files, path, file).len() <==> file_at(
            files,
            other,
        ) < files.len(),
{
    let more = put(files, path, file);
    file_at_props(files, path);
    file_at_props(files, other);
    file_at_props(more, other);
    let at = file_at(files, other);
    let now = file_at(more, other);
    if at < files.len() {
        assert(more[at] == files[at]);
        if now < at {
            if now != file_at(files, path) {
                assert(more[now] == files[now]);
            }
        }
        if now > at {
            assert(more[at].path == other);
        }
    } else if now < more.len() {
        if now != file_at(files, path) {
            assert(more[now] == files[now]);
        }
    }
}

proof fn put_keeps_distinct(
    files: Seq<FileCoverageView>,
    path: Seq<char>,
    file: FileCoverageView,
)
    requires
        file.path == path,
        distinct_files(files),
    ensures
        distinct_files(put(files, path, file)),
{
    file_at_props(files, path);
}

proof fn entering_is_putting(files: Seq<FileCoverageView>, path: Seq<char>)
    ensures
        entered(files, path) == put(files, path, file_of(files, path)),
        file_of(files, path).path == path,
{
    file_at_props(files, path);
    assert(entered(files, path) =~= put(files, path, file_of(files, path)));
}

/// How a file changes with what is written of another.
spec fn one_put(
    files: Seq<FileCoverageView>,
    file: FileCoverageView,
    change: spec_fn(FileCoverageView, FileCoverageView) -> Option<FileCoverageView>,
) -> Seq<FileCoverageView> {
    match change(file_of(files, file.path), file) {
        Some(changed) => put(files, file.path, changed),
        None => files,
    }
}

spec fn all_put(
    files: Seq<FileCoverageView>,
    more: Seq<FileCoverageView>,
    change: spec_fn(FileCoverageView, FileCoverageView) -> Option<FileCoverageView>,
) -> Seq<FileCoverageView>
    decreases more.len(),
{
    if more.len() == 0 {
        files
    } else {
        one_put(all_put(files, more.drop_last(), change), more.last(), change)
    }
}

spec fn keeps_paths(
    change: spec_fn(FileCoverageView, FileCoverageView) -> Option<FileCoverageView>,
) -> bool {
    forall|before: FileCoverageView, file: FileCoverageView|
        before.path == file.path ==> match #[trigger] change(before, file) {
            Some(changed) => changed.path == file.path,
            None => true,
        }
}

spec fn listed(files: Seq<FileCoverageView>, path: Seq<char>) -> bool {
    exists|i: int| 0 <= i < files.len() && (#[trigger] files[i]).path == path
}

/// Every file changes by what is written of it alone.
proof fn all_put_props(
    files: Seq<FileCoverageView>,
    more: Seq<FileCoverageView>,
    change: spec_fn(FileCoverageView, FileCoverageView) -> Option<FileCoverageView>,
    path: Seq<char>,
)
    requires
        keeps_paths(change),
        distinct_files(more),
    ensures
        ({
            let all = all_put(files, more, change);
            &&& distinct_files(files) ==> distinct_files(all)
            &&& !listed(more, path) ==> file_of(all, path) == file_of(files, path) && (file_at(
                all,
                path,
            ) < all.len() <==> file_at(files, path) < files.len())
            &&& forall|i: int|
                0 <= i < more.len() && (#[trigger] more[i]).path == path ==> match change(
                    file_of(files, path),
                    more[i],
                ) {
                    Some(changed) => file_of(all, path) == changed && file_at(all, path)
                        < all.len(),
                    None => file_of(all, path) == file_of(files, path) && (file_at(all, path)
                        < all.len() <==> file_at(files, path) < files.len()),
                }
        }),
    decreases more.len(),
{
    if more.len() > 0 {
        let head = more.drop_last();
        let last = more.last();
        let n = more.len() - 1;
        assert(distinct_files(head)) by {
            assert forall|i: int, j: int| 0 <= i < j < head.len() implies (#[trigger] head[i]).path
                != (#[trigger] head[j]).path by {
                assert(more[i].path != more[j].path);
            }
        }
        let before = all_put(files, head, change);
        all_put_props(files, head, change, path);
        all_put_props(files, head, change, last.path);
        entering_is_putting(before, last.path);
        if let Some(changed) = change(file_of(before, last.path), last) {
            assert(changed.path == last.path);
            put_is_found(before, last.path, changed);
            if distinct_files(files) {
                put_keeps_distinct(before, last.path, changed);
            }
            if path != last.path {
                put_keeps_others(before, last.path, changed, path);
            }
        }
        assert(!listed(head, last.path)) by {
            assert forall|i: int| 0 <= i < head.len() implies (#[trigger] head[i]).path
                != last.path by {
                assert(more[i].path != more[n].path);
            }
        }
        if !listed(more, path) {
            assert(more[n].path != path);
            assert forall|i: int| 0 <= i < head.len() implies (#[trigger] head[i]).path != path by {
                assert(more[i].path != path);
            }
        }
        let all = all_put(files, more, change);
        assert forall|i: int|
            0 <= i < more.len() && (#[trigger] more[i]).path == path implies match change(
            file_of(files, path),
            more[i],
        ) {
            Some(changed) => file_of(all, path) == changed && file_at(all, path) < all.len(),
            None => file_of(all, path) == file_of(files, path) && (file_at(all, path) < all.len()
                <==> file_at(files, path) < files.len()),
        } by {
            if i < n {
                assert(more[i].path != more[n].path);
                assert(head[i] == more[i]);
            }
        }
    }
}

/// No other file appears.
proof fn all_put_adds_only_its_own(
    files: Seq<FileCoverageView>,
    more: Seq<FileCoverageView>,
    change: spec_fn(FileCoverageView, FileCoverageView) -> Option<FileCoverageView>,
    k: int,
)
    requires
        keeps_paths(change),
        0 <= k < all_put(files, more, change).len(),
    ensures
        ({
            let path = all_put(files, more, change)[k].path;
            listed(files, path) || listed(more, path)
        }),
    decreases more.len(),
{
    let all = all_put(files, more, change);
    if more.len() > 0 {
        let head = more.drop_last();
        let n = more.len() - 1;
        let before = all_put(files, head, change);
        entering_is_putting(before, more.last().path);
        file_at_props(before, more.last().path);
        if k < before.len() && all[k].path == before[k].path {
            all_put_adds_only_its_own(files, head, change, k);
            if listed(head, all[k].path) {
                let i = choose|i: int| 0 <= i < head.len() && (#[trigger] head[i]).path
                    == all[k].path;
                assert(more[i].path == all[k].path);
            }
        } else {
            assert(more[n].path == all[k].path);
        }
    } else {
        assert(files[k].path == all[k].path);
    }
}

// ---------------------------------------------------------------------------
// Names
// ---------------------------------------------------------------------------

proof fn shown_text_is_whole(s: Seq<char>)
    requires
        shown(s) == s,
    ensures
        forall|i: int| 0 <= i < s.len() ==> !vanishes(#[trigger] s[i]),
    decreases s.len(),
{
    shown_is_shorter(s);
    if s.len() > 0 {
        let head = s.drop_last();
        shown_is_shorter(head);
        assert(!vanishes(s.last()));
        assert(shown(s).drop_last() =~= shown(head));
        shown_text_is_whole(head);
        assert forall|i: int| 0 <= i < s.len() implies !vanishes(#[trigger] s[i]) by {
            if i < head.len() {
                assert(head[i] == s[i]);
            }
        }
    }
}

proof fn shown_is_shorter(s: Seq<char>)
    ensures
        shown(s).len() <= s.len(),
    decreases s.len(),
{
    if s.len() > 0 {
        shown_is_shorter(s.drop_last());
    }
}

/// A path is put together again from its directory and its name.
proof fn paths_are_rejoined(file: FileCoverageView)
    requires
        plain_file(file),
    ensures
        shown(directory_part(file.path)) == directory_part(file.path),
        shown(name_part(file.path)) == name_part(file.path),
        replace_char(directory_part(file.path), '\\', '/') == directory_part(file.path),
        join_path(directory_part(file.path), name_part(file.path)) == file.path,
{
    let path = file.path;
    let at = last(path, '/');
    last_props(path, '/');
    shown_text_is_whole(path);
    let directory = directory_part(path);
    let name = name_part(path);
    assert forall|i: int| 0 <= i < directory.len() implies !vanishes(#[trigger] directory[i]) by {
        assert(directory[i] == path[i]);
    }
    assert forall|i: int| 0 <= i < name.len() implies !vanishes(#[trigger] name[i]) by {
        assert(name[i] == path[i + at + 1]);
    }
    shown_whole(directory);
    shown_whole(name);
    normalize_is_idempotent(path);
    let unified = replace_char(path, '\\', '/');
    assert(replace_char(directory, '\\', '/') =~= directory) by {
        assert forall|i: int| 0 <= i < directory.len() implies replace_char(
            directory,
            '\\',
            '/',
        )[i] == directory[i] by {
            assert(directory[i] == path[i]);
            assert(unified[i] == path[i]);
        }
    }
    if directory.len() > 0 {
        reveal_strlit("/");
        assert(directory + "/"@ + name =~= path);
    }
}

// ---------------------------------------------------------------------------
// Counters
// ---------------------------------------------------------------------------

proof fn written_counters_carry(kind: Seq<char>, counter: Counter, tag: TagView)
    requires
        written_as(tag, "counter"@, counter_pairs(kind, counter)),
        shown(kind) == kind,
    ensures
        tag.attr("type"@) == Some(kind),
        counter_of(tag) == counter,
{
    let attrs = counter_pairs(kind, counter);
    reveal_strlit("type");
    reveal_strlit("missed");
    reveal_strlit("covered");
    assert("type"@.len() == 4 && "missed"@.len() == 6 && "covered"@.len() == 7);
    digits_are_shown(counter.missed as nat);
    digits_are_shown(counter.covered as nat);
    attr_is_found(attrs, 0);
    attr_is_found(attrs, 1);
    attr_is_found(attrs, 2);
    assert(attrs[0].0 == "type"@ && attrs[1].0 == "missed"@ && attrs[2].0 == "covered"@);
    assert(tag.attr("type"@) == attr_in(attrs, "type"@));
    assert(tag.attr("missed"@) == attr_in(attrs, "missed"@));
    assert(tag.attr("covered"@) == attr_in(attrs, "covered"@));
    assert forall|i: int| 0 <= i < attrs.len() implies tag.attr((#[trigger] attrs[i]).0) == Some(
        attrs[i].1,
    ) by {
        assert(i == 0 || i == 1 || i == 2);
    }
    counters_read_back(kind, counter, tag);
}

proof fn kinds_are_shown()
    ensures
        shown("INSTRUCTION"@) == "INSTRUCTION"@,
        shown("COMPLEXITY"@) == "COMPLEXITY"@,
        shown("METHOD"@) == "METHOD"@,
        shown("CLASS"@) == "CLASS"@,
        shown("BRANCH"@) == "BRANCH"@,
        shown("LINE"@) == "LINE"@,
{
    reveal_strlit("INSTRUCTION");
    reveal_strlit("COMPLEXITY");
    reveal_strlit("METHOD");
    reveal_strlit("CLASS");
    reveal_strlit("BRANCH");
    reveal_strlit("LINE");
    shown_whole("INSTRUCTION"@);
    shown_whole("COMPLEXITY"@);
    shown_whole("METHOD"@);
    shown_whole("CLASS"@);
    shown_whole("BRANCH"@);
    shown_whole("LINE"@);
}

/// A counter outside a class changes nothing.
proof fn loose_counter_leads(s: StateView, kind: Seq<char>, counter: Option<Counter>)
    requires
        s.target is Nothing,
    ensures
        leads(step(), s, opt_counter(kind, counter), s),
{
    elements_apart();
    step_is_steady();
    match counter {
        Some(counter) => {
            empty_leads(step(), s, "counter"@, counter_pairs(kind, counter), s);
        },
        None => {
            leads_nowhere(step(), s);
        },
    }
}

proof fn loose_counters_lead(s: StateView, files: Seq<FileCoverageView>, synthesize: bool)
    requires
        s.target is Nothing,
    ensures
        leads(step(), s, counters_items(files, synthesize), s),
{
    reveal(counters_items);
    let t = files_totaled(files);
    let instruction = match t.extra.instruction {
        Some(c) => Some(c),
        None => if synthesize {
            Some(t.line)
        } else {
            None
        },
    };
    let branch = if t.branch.missed.wrapping_add(t.branch.covered) > 0 {
        Some(t.branch)
    } else {
        None
    };
    let a = opt_counter("INSTRUCTION"@, instruction);
    let b = opt_counter("BRANCH"@, branch);
    let c = opt_counter("LINE"@, Some(t.line));
    let d = opt_counter("COMPLEXITY"@, t.extra.complexity);
    let e = opt_counter("METHOD"@, t.extra.method);
    let f = opt_counter("CLASS"@, t.extra.class);
    loose_counter_leads(s, "INSTRUCTION"@, instruction);
    loose_counter_leads(s, "BRANCH"@, branch);
    loose_counter_leads(s, "LINE"@, Some(t.line));
    loose_counter_leads(s, "COMPLEXITY"@, t.extra.complexity);
    loose_counter_leads(s, "METHOD"@, t.extra.method);
    loose_counter_leads(s, "CLASS"@, t.extra.class);
    leads_on(step(), s, a, s, b, s);
    leads_on(step(), s, a + b, s, c, s);
    leads_on(step(), s, a + b + c, s, d, s);
    leads_on(step(), s, a + b + c + d, s, e, s);
    leads_on(step(), s, a + b + c + d + e, s, f, s);
    assert(counters_items(files, synthesize) == a + b + c + d + e + f);
}

/// A state within the class of a file.
spec fn within(
    s: StateView,
    files: Seq<FileCoverageView>,
    file: FileCoverageView,
) -> StateView {
    StateView {
        files: put(files, file.path, file),
        target: TargetView::Class(file.path),
        ..s
    }
}

spec fn counted(
    file: FileCoverageView,
    kind: Seq<char>,
    counter: Option<Counter>,
) -> FileCoverageView {
    match counter {
        Some(counter) => FileCoverageView {
            counters: counter_kept(file.counters, kind, counter),
            ..file
        },
        None => file,
    }
}

proof fn class_counter_leads(
    s: StateView,
    files: Seq<FileCoverageView>,
    file: FileCoverageView,
    kind: Seq<char>,
    counter: Option<Counter>,
)
    requires
        shown(kind) == kind,
    ensures
        leads(
            step(),
            within(s, files, file),
            opt_counter(kind, counter),
            within(s, files, counted(file, kind, counter)),
        ),
{
    elements_apart();
    step_is_steady();
    let from = within(s, files, file);
    let to = within(s, files, counted(file, kind, counter));
    match counter {
        Some(counter) => {
            let attrs = counter_pairs(kind, counter);
            assert forall|tag: TagView| #[trigger]
                written_as(tag, "counter"@, attrs) implies step()(from, EventView::Empty(tag))
                == Ok::<StateView, ErrorView>(to) by {
                written_counters_carry(kind, counter, tag);
                put_is_found(files, file.path, file);
                let changed = counted(file, kind, Some(counter));
                assert(put(from.files, file.path, changed) == put(files, file.path, changed));
            }
            empty_leads(step(), from, "counter"@, attrs, to);
        },
        None => {
            leads_nowhere(step(), from);
        },
    }
}

/// The counters of a class are those of its file.
proof fn class_counters_lead(
    s: StateView,
    files: Seq<FileCoverageView>,
    before: FileCoverageView,
    file: FileCoverageView,
)
    ensures
        leads(
            step(),
            within(s, files, before),
            counters_items(seq![file], false),
            within(
                s,
                files,
                FileCoverageView {
                    counters: add_counters(before.counters, file.counters),
                    ..before
                },
            ),
        ),
{
    reveal(counters_items);
    elements_apart();
    kinds_are_shown();
    bytecode_counters_pass_through(file);
    let t = files_totaled(seq![file]);
    let branch = if t.branch.missed.wrapping_add(t.branch.covered) > 0 {
        Some(t.branch)
    } else {
        None
    };
    let a = opt_counter("INSTRUCTION"@, t.extra.instruction);
    let b = opt_counter("BRANCH"@, branch);
    let c = opt_counter("LINE"@, Some(t.line));
    let d = opt_counter("COMPLEXITY"@, t.extra.complexity);
    let e = opt_counter("METHOD"@, t.extra.method);
    let f = opt_counter("CLASS"@, t.extra.class);
    let f1 = counted(before, "INSTRUCTION"@, t.extra.instruction);
    let f2 = counted(f1, "COMPLEXITY"@, t.extra.complexity);
    let f3 = counted(f2, "METHOD"@, t.extra.method);
    let f4 = counted(f3, "CLASS"@, t.extra.class);
    let s0 = within(s, files, before);
    let s1 = within(s, files, f1);
    let s2 = within(s, files, f2);
    let s3 = within(s, files, f3);
    let s4 = within(s, files, f4);
    class_counter_leads(s, files, before, "INSTRUCTION"@, t.extra.instruction);
    class_counter_leads(s, files, f1, "BRANCH"@, branch);
    class_counter_leads(s, files, f1, "LINE"@, Some(t.line));
    assert(counted(f1, "BRANCH"@, branch) == f1);
    assert(counted(f1, "LINE"@, Some(t.line)) == f1);
    class_counter_leads(s, files, f1, "COMPLEXITY"@, t.extra.complexity);
    class_counter_leads(s, files, f2, "METHOD"@, t.extra.method);
    class_counter_leads(s, files, f3, "CLASS"@, t.extra.class);
    leads_on(step(), s0, a, s1, b, s1);
    leads_on(step(), s0, a + b, s1, c, s1);
    leads_on(step(), s0, a + b + c, s1, d, s2);
    leads_on(step(), s0, a + b + c + d, s2, e, s3);
    leads_on(step(), s0, a + b + c + d + e, s3, f, s4);
    assert(counters_items(seq![file], false) == a + b + c + d + e + f);
    assert(f4.counters == add_counters(before.counters, file.counters));
}

// ---------------------------------------------------------------------------
// Classes
// ---------------------------------------------------------------------------

proof fn written_methods_are_functions(function: FunctionView, tag: TagView)
    requires
        written_as(tag, "method"@, method_attrs(function)),
    ensures
        function_of(tag) == kept_function(function),
{
    let attrs = method_attrs(function);
    reveal_strlit("name");
    reveal_strlit("desc");
    reveal_strlit("line");
    assert("name"@[0] == 'n' && "desc"@[0] == 'd' && "line"@[0] == 'l');
    attr_is_found(attrs, 0);
    attr_is_found(attrs, 1);
    assert(attrs[0].0 == "name"@ && attrs[1].0 == "desc"@);
    assert(tag.attr("name"@) == attr_in(attrs, "name"@));
    assert(tag.attr("desc"@) == attr_in(attrs, "desc"@));
    assert(tag.attr("line"@) == attr_in(attrs, "line"@));
    match function.line {
        Some(line) => {
            digits_are_shown(line as nat);
            written_numbers_parse(line as u64);
            assert(attrs[2].0 == "line"@);
            attr_is_found(attrs, 2);
        },
        None => {
            attr_is_absent(attrs, "line"@);
        },
    }
}

/// A state within a method of a class.
spec fn in_method(
    s: StateView,
    files: Seq<FileCoverageView>,
    file: FileCoverageView,
    at: int,
) -> StateView {
    StateView { target: TargetView::Method(file.path, at), ..within(s, files, file) }
}

proof fn method_opens(
    s: StateView,
    files: Seq<FileCoverageView>,
    file: FileCoverageView,
    function: FunctionView,
)
    ensures
        leads(
            step(),
            within(s, files, file),
            seq![open_item("method"@, method_attrs(function))],
            in_method(
                s,
                files,
                FileCoverageView {
                    functions: file.functions.push(kept_function(function)),
                    ..file
                },
                file.functions.len() as int,
            ),
        ),
{
    elements_apart();
    step_is_steady();
    let attrs = method_attrs(function);
    let more = FileCoverageView {
        functions: file.functions.push(kept_function(function)),
        ..file
    };
    let from = within(s, files, file);
    let to = in_method(s, files, more, file.functions.len() as int);
    put_is_found(files, file.path, file);
    assert(put(from.files, file.path, more) == put(files, file.path, more));
    assert forall|tag: TagView| #[trigger] written_as(tag, "method"@, attrs) implies step()(
        from,
        EventView::Start(tag),
    ) == Ok::<StateView, ErrorView>(to) by {
        written_methods_are_functions(function, tag);
        assert(started(from, tag) == method_added(from, file.path, tag));
    }
    open_leads(step(), from, "method"@, attrs, to);
}

/// The counter of a method says nothing of whether it ran.
proof fn method_counter_leads(s: StateView, counter: Counter)
    requires
        s.target is Method,
    ensures
        leads(step(), s, seq![counter_item("METHOD"@, counter)], s),
{
    elements_apart();
    kinds_are_shown();
    step_is_steady();
    let pairs = counter_pairs("METHOD"@, counter);
    assert forall|tag: TagView| #[trigger] written_as(tag, "counter"@, pairs) implies step()(
        s,
        EventView::Empty(tag),
    ) == Ok::<StateView, ErrorView>(s) by {
        written_counters_carry("METHOD"@, counter, tag);
    }
    empty_leads(step(), s, "counter"@, pairs, s);
}

proof fn method_leads(
    s: StateView,
    files: Seq<FileCoverageView>,
    file: FileCoverageView,
    function: FunctionView,
)
    ensures
        leads(
            step(),
            within(s, files, file),
            method_items(function),
            within(
                s,
                files,
                FileCoverageView {
                    functions: file.functions.push(kept_function(function)),
                    ..file
                },
            ),
        ),
{
    let counter = method_counter(function);
    let more = FileCoverageView {
        functions: file.functions.push(kept_function(function)),
        ..file
    };
    let s0 = within(s, files, file);
    let s1 = in_method(s, files, more, file.functions.len() as int);
    let s2 = within(s, files, more);
    method_opens(s, files, file, function);
    method_counter_leads(s1, counter);
    assert(leads(step(), s1, seq![close_item("method"@)], s2)) by {
        elements_apart();
        step_is_steady();
        close_leads(step(), s1, "method"@, s2);
    }
    let a = seq![open_item("method"@, method_attrs(function))];
    let b = seq![counter_item("METHOD"@, counter)];
    let c = seq![close_item("method"@)];
    leads_on(step(), s0, a, s1, b, s1);
    leads_on(step(), s0, a + b, s1, c, s2);
    assert(a + b + c =~= method_items(function));
}

proof fn methods_lead(
    s: StateView,
    files: Seq<FileCoverageView>,
    file: FileCoverageView,
    all: Seq<FunctionView>,
    n: int,
)
    requires
        0 <= n <= all.len(),
    ensures
        leads(
            step(),
            within(s, files, file),
            flat(all.take(n), |f: FunctionView| method_items(f)),
            within(
                s,
                files,
                FileCoverageView {
                    functions: file.functions + all.map_values(
                        |f: FunctionView| kept_function(f),
                    ).take(n),
                    ..file
                },
            ),
        ),
    decreases n,
{
    let write = |f: FunctionView| method_items(f);
    let kept = all.map_values(|f: FunctionView| kept_function(f));
    let goal = FileCoverageView { functions: file.functions + kept.take(n), ..file };
    if n == 0 {
        assert(all.take(0) =~= Seq::empty());
        assert(goal.functions =~= file.functions);
        leads_nowhere(step(), within(s, files, file));
    } else {
        methods_lead(s, files, file, all, n - 1);
        let mid = FileCoverageView { functions: file.functions + kept.take(n - 1), ..file };
        method_leads(s, files, mid, all[n - 1]);
        assert(all.take(n).drop_last() =~= all.take(n - 1));
        assert(mid.functions.push(kept_function(all[n - 1])) =~= goal.functions);
        leads_on(
            step(),
            within(s, files, file),
            flat(all.take(n - 1), write),
            within(s, files, mid),
            method_items(all[n - 1]),
            within(s, files, goal),
        );
    }
}

/// What a class adds to its file.
spec fn classed() -> spec_fn(FileCoverageView, FileCoverageView) -> Option<FileCoverageView> {
    |before: FileCoverageView, file: FileCoverageView|
        if file.functions.len() == 0 && !file.has_extra() {
            None
        } else {
            Some(
                FileCoverageView {
                    functions: before.functions + file.functions.map_values(
                        |f: FunctionView| kept_function(f),
                    ),
                    counters: add_counters(before.counters, file.counters),
                    ..before
                },
            )
        }
}

/// A state within a package, outside its elements.
spec fn outside(
    s: StateView,
    package: Seq<char>,
    files: Seq<FileCoverageView>,
) -> StateView {
    StateView { files, package, source_file: None, target: TargetView::Nothing, ..s }
}

proof fn class_leads(
    s: StateView,
    package: Seq<char>,
    files: Seq<FileCoverageView>,
    file: FileCoverageView,
)
    requires
        plain_file(file),
        package == directory_part(file.path),
    ensures
        leads(
            step(),
            outside(s, package, files),
            class_items(package, file),
            outside(s, package, one_put(files, file, classed())),
        ),
{
    reveal(class_items);
    elements_apart();
    step_is_steady();
    paths_are_rejoined(file);
    let from = outside(s, package, files);
    if file.functions.len() == 0 && !file.has_extra() {
        leads_nowhere(step(), from);
    } else {
        let attrs = class_attrs(package, file);
        let before = file_of(files, file.path);
        entering_is_putting(files, file.path);
        let s1 = within(from, files, before);
        assert forall|tag: TagView| #[trigger] written_as(tag, "class"@, attrs) implies step()(
            from,
            EventView::Start(tag),
        ) == Ok::<StateView, ErrorView>(s1) by {
            reveal_strlit("name");
            reveal_strlit("sourcefilename");
            assert("name"@.len() == 4 && "sourcefilename"@.len() == 14);
            attr_is_found(attrs, 1);
            assert(attrs[1].0 == "sourcefilename"@);
            assert(tag.attr("sourcefilename"@) == attr_in(attrs, "sourcefilename"@));
        }
        open_leads(step(), from, "class"@, attrs, s1);
        let n = file.functions.len() as int;
        let kept = file.functions.map_values(|f: FunctionView| kept_function(f));
        methods_lead(from, files, before, file.functions, n);
        assert(file.functions.take(n) =~= file.functions);
        assert(kept.take(n) =~= kept);
        let with_functions = FileCoverageView { functions: before.functions + kept, ..before };
        let s2 = within(from, files, with_functions);
        class_counters_lead(from, files, with_functions, file);
        let changed = FileCoverageView {
            counters: add_counters(before.counters, file.counters),
            ..with_functions
        };
        let s3 = within(from, files, changed);
        assert(classed()(before, file) == Some(changed));
        let to = outside(s, package, one_put(files, file, classed()));
        close_leads(step(), s3, "class"@, to);
        let a = seq![open_item("class"@, attrs)];
        let b = flat(file.functions, |f: FunctionView| method_items(f));
        let c = counters_items(seq![file], false);
        let d = seq![close_item("class"@)];
        leads_on(step(), from, a, s1, b, s2);
        leads_on(step(), from, a + b, s2, c, s3);
        leads_on(step(), from, a + b + c, s3, d, to);
        assert(class_items(package, file) == a + b + c + d);
    }
}

proof fn classes_lead(
    s: StateView,
    package: Seq<char>,
    files: Seq<FileCoverageView>,
    more: Seq<FileCoverageView>,
    n: int,
)
    requires
        0 <= n <= more.len(),
        forall|i: int|
            0 <= i < more.len() ==> plain_file(#[trigger] more[i]) && directory_part(more[i].path)
                == package,
    ensures
        leads(
            step(),
            outside(s, package, files),
            flat(more.take(n), |f: FileCoverageView| class_items(package, f)),
            outside(s, package, all_put(files, more.take(n), classed())),
        ),
    decreases n,
{
    let write = |f: FileCoverageView| class_items(package, f);
    if n == 0 {
        assert(more.take(0) =~= Seq::empty());
        leads_nowhere(step(), outside(s, package, files));
    } else {
        classes_lead(s, package, files, more, n - 1);
        assert(more.take(n).drop_last() =~= more.take(n - 1));
        let file = more[n - 1];
        let before = all_put(files, more.take(n - 1), classed());
        class_leads(s, package, before, file);
        leads_on(
            step(),
            outside(s, package, files),
            flat(more.take(n - 1), write),
            outside(s, package, before),
            class_items(package, file),
            outside(s, package, all_put(files, more.take(n), classed())),
        );
    }
}

// ---------------------------------------------------------------------------
// Source files
// ---------------------------------------------------------------------------

proof fn written_lines_carry(line: Line, tag: TagView)
    requires
        written_as(tag, "line"@, line_attrs(line)),
    ensures
        line_of(tag) == Some(kept_line(line)),
{
    let attrs = line_attrs(line);
    reveal_strlit("nr");
    reveal_strlit("mi");
    reveal_strlit("ci");
    reveal_strlit("mb");
    reveal_strlit("cb");
    assert("nr"@[0] == 'n' && "mi"@[0] == 'm' && "ci"@[0] == 'c' && "mb"@[0] == 'm');
    assert("mi"@[1] == 'i' && "ci"@[1] == 'i' && "mb"@[1] == 'b' && "cb"@[1] == 'b');
    assert("cb"@[0] == 'c');
    assert forall|i: int| 0 <= i < attrs.len() implies tag.attr((#[trigger] attrs[i]).0) == Some(
        attrs[i].1,
    ) by {
        assert(i == 0 || i == 1 || i == 2 || i == 3 || i == 4);
        assert forall|j: int| 0 <= j < i implies (#[trigger] attrs[j]).0 != attrs[i].0 by {
            assert(j == 0 || j == 1 || j == 2 || j == 3);
        }
        attr_is_found(attrs, i);
        assert(tag.attr(attrs[i].0) == attr_in(attrs, attrs[i].0));
        let n = choose|n: nat| attrs[i].1 == #[trigger] decimal(n);
        digits_are_shown(n);
    }
    lines_read_back(line, tag);
}

/// A state within a source file.
spec fn reading(
    s: StateView,
    files: Seq<FileCoverageView>,
    file: FileCoverageView,
) -> StateView {
    StateView {
        files: put(files, file.path, file),
        source_file: Some(file.path),
        target: TargetView::Nothing,
        ..s
    }
}

proof fn lines_lead(
    s: StateView,
    files: Seq<FileCoverageView>,
    file: FileCoverageView,
    all: Seq<Line>,
    n: int,
)
    requires
        0 <= n <= all.len(),
    ensures
        leads(
            step(),
            reading(s, files, file),
            all.map_values(|l: Line| empty_item("line"@, line_attrs(l))).take(n),
            reading(
                s,
                files,
                FileCoverageView {
                    lines: file.lines + all.map_values(|l: Line| kept_line(l)).take(n),
                    ..file
                },
            ),
        ),
    decreases n,
{
    let items = all.map_values(|l: Line| empty_item("line"@, line_attrs(l)));
    let kept = all.map_values(|l: Line| kept_line(l));
    let goal = FileCoverageView { lines: file.lines + kept.take(n), ..file };
    if n == 0 {
        assert(items.take(0) =~= Seq::empty());
        assert(goal.lines =~= file.lines);
        leads_nowhere(step(), reading(s, files, file));
    } else {
        lines_lead(s, files, file, all, n - 1);
        elements_apart();
        step_is_steady();
        let line = all[n - 1];
        let attrs = line_attrs(line);
        let mid = FileCoverageView { lines: file.lines + kept.take(n - 1), ..file };
        assert(mid.lines.push(kept_line(line)) =~= goal.lines);
        let s1 = reading(s, files, mid);
        let s2 = reading(s, files, goal);
        assert forall|tag: TagView| #[trigger] written_as(tag, "line"@, attrs) implies step()(
            s1,
            EventView::Empty(tag),
        ) == Ok::<StateView, ErrorView>(s2) by {
            written_lines_carry(line, tag);
            put_is_found(files, file.path, mid);
            assert(put(s1.files, file.path, goal) == put(files, file.path, goal));
        }
        empty_leads(step(), s1, "line"@, attrs, s2);
        leads_on(
            step(),
            reading(s, files, file),
            items.take(n - 1),
            s1,
            seq![empty_item("line"@, attrs)],
            s2,
        );
        assert(items.take(n - 1) + seq![empty_item("line"@, attrs)] =~= items.take(n));
    }
}

/// What a source file adds to its file.
spec fn sourced() -> spec_fn(FileCoverageView, FileCoverageView) -> Option<FileCoverageView> {
    |before: FileCoverageView, file: FileCoverageView|
        Some(
            FileCoverageView {
                lines: before.lines + file.lines.map_values(|l: Line| kept_line(l)),
                ..before
            },
        )
}

proof fn source_leads(
    s: StateView,
    package: Seq<char>,
    files: Seq<FileCoverageView>,
    file: FileCoverageView,
)
    requires
        plain_file(file),
        package == directory_part(file.path),
    ensures
        leads(
            step(),
            outside(s, package, files),
            source_items(file),
            outside(s, package, one_put(files, file, sourced())),
        ),
{
    reveal(source_items);
    elements_apart();
    step_is_steady();
    paths_are_rejoined(file);
    let from = outside(s, package, files);
    let attrs = seq![("name"@, name_part(file.path))];
    let before = file_of(files, file.path);
    entering_is_putting(files, file.path);
    let s1 = reading(from, files, before);
    assert forall|tag: TagView| #[trigger] written_as(tag, "sourcefile"@, attrs) implies step()(
        from,
        EventView::Start(tag),
    ) == Ok::<StateView, ErrorView>(s1) by {
        attr_is_found(attrs, 0);
        assert(tag.attr("name"@) == attr_in(attrs, "name"@));
    }
    open_leads(step(), from, "sourcefile"@, attrs, s1);
    let n = file.lines.len() as int;
    let items = file.lines.map_values(|l: Line| empty_item("line"@, line_attrs(l)));
    let kept = file.lines.map_values(|l: Line| kept_line(l));
    lines_lead(from, files, before, file.lines, n);
    assert(items.take(n) =~= items);
    assert(kept.take(n) =~= kept);
    let changed = FileCoverageView { lines: before.lines + kept, ..before };
    assert(sourced()(before, file) == Some(changed));
    let s2 = reading(from, files, changed);
    loose_counters_lead(s2, seq![file], true);
    let to = outside(s, package, one_put(files, file, sourced()));
    close_leads(step(), s2, "sourcefile"@, to);
    let a = seq![open_item("sourcefile"@, attrs)];
    let c = counters_items(seq![file], true);
    let d = seq![close_item("sourcefile"@)];
    leads_on(step(), from, a, s1, items, s2);
    leads_on(step(), from, a + items, s2, c, s2);
    leads_on(step(), from, a + items + c, s2, d, to);
    assert(source_items(file) == a + items + c + d);
}

proof fn sources_lead(
    s: StateView,
    package: Seq<char>,
    files: Seq<FileCoverageView>,
    more: Seq<FileCoverageView>,
    n: int,
)
    requires
        0 <= n <= more.len(),
        forall|i: int|
            0 <= i < more.len() ==> plain_file(#[trigger] more[i]) && directory_part(more[i].path)
                == package,
    ensures
        leads(
            step(),
            outside(s, package, files),
            flat(more.take(n), |f: FileCoverageView| source_items(f)),
            outside(s, package, all_put(files, more.take(n), sourced())),
        ),
    decreases n,
{
    let write = |f: FileCoverageView| source_items(f);
    if n == 0 {
        assert(more.take(0) =~= Seq::empty());
        leads_nowhere(step(), outside(s, package, files));
    } else {
        sources_lead(s, package, files, more, n - 1);
        assert(more.take(n).drop_last() =~= more.take(n - 1));
        let file = more[n - 1];
        let before = all_put(files, more.take(n - 1), sourced());
        source_leads(s, package, before, file);
        leads_on(
            step(),
            outside(s, package, files),
            flat(more.take(n - 1), write),
            outside(s, package, before),
            source_items(file),
            outside(s, package, all_put(files, more.take(n), sourced())),
        );
    }
}

// ---------------------------------------------------------------------------
// Packages
// ---------------------------------------------------------------------------

/// The files once the elements of a package are read.
spec fn package_put(
    files: Seq<FileCoverageView>,
    more: Seq<FileCoverageView>,
) -> Seq<FileCoverageView> {
    all_put(all_put(files, more, classed()), more, sourced())
}

/// The files once these packages are read.
spec fn packages_put(
    files: Seq<FileCoverageView>,
    packages: Seq<PackageView>,
) -> Seq<FileCoverageView>
    decreases packages.len(),
{
    if packages.len() == 0 {
        files
    } else {
        package_put(packages_put(files, packages.drop_last()), packages.last().files)
    }
}

proof fn package_leads(
    s: StateView,
    other: Seq<char>,
    package: Seq<char>,
    files: Seq<FileCoverageView>,
    more: Seq<FileCoverageView>,
)
    requires
        more.len() > 0,
        forall|i: int|
            0 <= i < more.len() ==> plain_file(#[trigger] more[i]) && directory_part(more[i].path)
                == package,
    ensures
        leads(
            step(),
            outside(s, other, files),
            package_items(package, more),
            outside(s, package, package_put(files, more)),
        ),
{
    reveal(package_items);
    elements_apart();
    step_is_steady();
    assert(plain_file(more[0]));
    paths_are_rejoined(more[0]);
    let from = outside(s, other, files);
    let attrs = seq![("name"@, package)];
    let s1 = outside(s, package, files);
    assert forall|tag: TagView| #[trigger] written_as(tag, "package"@, attrs) implies step()(
        from,
        EventView::Start(tag),
    ) == Ok::<StateView, ErrorView>(s1) by {
        attr_is_found(attrs, 0);
        assert(tag.attr("name"@) == attr_in(attrs, "name"@));
    }
    open_leads(step(), from, "package"@, attrs, s1);
    let n = more.len() as int;
    assert(more.take(n) =~= more);
    let mid = all_put(files, more, classed());
    classes_lead(s, package, files, more, n);
    let s2 = outside(s, package, mid);
    sources_lead(s, package, mid, more, n);
    let s3 = outside(s, package, package_put(files, more));
    loose_counters_lead(s3, more, true);
    close_leads(step(), s3, "package"@, s3);
    let a = seq![open_item("package"@, attrs)];
    let b = flat(more, |f: FileCoverageView| class_items(package, f));
    let c = flat(more, |f: FileCoverageView| source_items(f));
    let d = counters_items(more, true);
    let e = seq![close_item("package"@)];
    leads_on(step(), from, a, s1, b, s2);
    leads_on(step(), from, a + b, s2, c, s3);
    leads_on(step(), from, a + b + c, s3, d, s3);
    leads_on(step(), from, a + b + c + d, s3, e, s3);
    assert(package_items(package, more) == a + b + c + d + e);
}

/// Packages whose files can be written, each in its directory.
spec fn plain_packages(packages: Seq<PackageView>) -> bool {
    &&& forall|k: int, i: int|
        0 <= k < packages.len() && 0 <= i < packages[k].files.len() ==> plain_file(
            #[trigger] packages[k].files[i],
        ) && directory_part(packages[k].files[i].path) == packages[k].name
    &&& forall|k: int| 0 <= k < packages.len() ==> (#[trigger] packages[k]).files.len() > 0
}

/// The packages lead to their files; the reader is left in some package.
#[verifier::spinoff_prover]
#[verifier::rlimit(60)]
proof fn packages_lead(
    s: StateView,
    other: Seq<char>,
    files: Seq<FileCoverageView>,
    packages: Seq<PackageView>,
) -> (package: Seq<char>)
    requires
        plain_packages(packages),
    ensures
        leads(
            step(),
            outside(s, other, files),
            flat(packages, |p: PackageView| package_items(p.name, p.files)),
            outside(s, package, packages_put(files, packages)),
        ),
    decreases packages.len(),
{
    let write = |p: PackageView| package_items(p.name, p.files);
    if packages.len() == 0 {
        leads_nowhere(step(), outside(s, other, files));
        other
    } else {
        let head = packages.drop_last();
        let last = packages[packages.len() - 1];
        assert(plain_packages(head)) by {
            assert forall|k: int, i: int|
                0 <= k < head.len() && 0 <= i < head[k].files.len() implies plain_file(
                #[trigger] head[k].files[i],
            ) && directory_part(head[k].files[i].path) == head[k].name by {
                assert(head[k] == packages[k]);
                assert(plain_file(packages[k].files[i]));
            }
            assert forall|k: int| 0 <= k < head.len() implies (
            #[trigger] head[k]).files.len() > 0 by {
                assert(head[k] == packages[k]);
            }
        }
        assert forall|i: int| 0 <= i < last.files.len() implies plain_file(
            #[trigger] last.files[i],
        ) && directory_part(last.files[i].path) == last.name by {
            assert(plain_file(packages[packages.len() - 1].files[i]));
        }
        let before = packages_lead(s, other, files, head);
        let mid = packages_put(files, head);
        let all = packages_put(files, packages);
        package_leads(s, before, last.name, mid, last.files);
        leads_on(
            step(),
            outside(s, other, files),
            flat(head, write),
            outside(s, before, mid),
            write(last),
            outside(s, last.name, all),
        );
        last.name
    }
}

// ---------------------------------------------------------------------------
// The files
// ---------------------------------------------------------------------------

/// The files that were read are those that were written, each as it is kept.
spec fn complete(read: Seq<FileCoverageView>, done: Seq<FileCoverageView>) -> bool {
    &&& distinct_files(read)
    &&& forall|i: int|
        0 <= i < done.len() ==> file_at(read, (#[trigger] done[i]).path) < read.len() && file_of(
            read,
            done[i].path,
        ) == kept_file(done[i])
    &&& forall|k: int| 0 <= k < read.len() ==> listed(done, (#[trigger] read[k]).path)
}

proof fn changes_keep_paths()
    ensures
        keeps_paths(classed()),
        keeps_paths(sourced()),
{
}

proof fn package_completes(
    read: Seq<FileCoverageView>,
    done: Seq<FileCoverageView>,
    more: Seq<FileCoverageView>,
)
    requires
        complete(read, done),
        distinct_files(done + more),
    ensures
        complete(package_put(read, more), done + more),
{
    changes_keep_paths();
    let all = done + more;
    assert(distinct_files(more)) by {
        assert forall|i: int, j: int| 0 <= i < j < more.len() implies (#[trigger] more[i]).path != (
        #[trigger] more[j]).path by {
            assert(all[i + done.len()] == more[i]);
            assert(all[j + done.len()] == more[j]);
        }
    }
    let mid = all_put(read, more, classed());
    let end = package_put(read, more);
    all_put_props(read, more, classed(), Seq::empty());
    all_put_props(mid, more, sourced(), Seq::empty());
    assert forall|i: int| 0 <= i < all.len() implies file_at(end, (#[trigger] all[i]).path)
        < end.len() && file_of(end, all[i].path) == kept_file(all[i]) by {
        let path = all[i].path;
        all_put_props(read, more, classed(), path);
        all_put_props(mid, more, sourced(), path);
        if i < done.len() {
            assert(all[i] == done[i]);
            assert forall|j: int| 0 <= j < more.len() implies (#[trigger] more[j]).path
                != path by {
                assert(all[j + done.len()] == more[j]);
            }
            assert(!listed(more, path));
        } else {
            let j = i - done.len();
            assert(more[j] == all[i]);
            file_at_props(read, path);
            if file_at(read, path) < read.len() {
                let at = file_at(read, path);
                assert(listed(done, read[at].path));
                let k = choose|k: int| 0 <= k < done.len() && (#[trigger] done[k]).path == path;
                assert(all[k].path == all[i].path);
                assert(false);
            }
            let empty = FileCoverageView::of(path);
            assert(file_of(read, path) == empty);
            let functions = more[j].functions.map_values(|f: FunctionView| kept_function(f));
            let lines = more[j].lines.map_values(|l: Line| kept_line(l));
            assert(empty.functions + functions =~= functions);
            assert(empty.lines + lines =~= lines);
            if more[j].functions.len() == 0 {
                assert(functions =~= Seq::empty());
            }
        }
    }
    assert forall|k: int| 0 <= k < end.len() implies listed(all, (#[trigger] end[k]).path) by {
        let path = end[k].path;
        all_put_adds_only_its_own(mid, more, sourced(), k);
        if listed(mid, path) {
            let m = choose|m: int| 0 <= m < mid.len() && (#[trigger] mid[m]).path == path;
            all_put_adds_only_its_own(read, more, classed(), m);
        }
        if listed(more, path) {
            let j = choose|j: int| 0 <= j < more.len() && (#[trigger] more[j]).path == path;
            assert(all[j + done.len()].path == path);
        } else {
            assert(listed(read, path));
            let r = choose|r: int| 0 <= r < read.len() && (#[trigger] read[r]).path == path;
            assert(listed(done, read[r].path));
            let j = choose|j: int| 0 <= j < done.len() && (#[trigger] done[j]).path == path;
            assert(all[j].path == path);
        }
    }
}

proof fn packages_complete(packages: Seq<PackageView>)
    requires
        distinct_files(gathered(packages)),
    ensures
        complete(packages_put(Seq::empty(), packages), gathered(packages)),
    decreases packages.len(),
{
    if packages.len() > 0 {
        let head = packages.drop_last();
        let last = packages.last();
        let done = gathered(head);
        let all = gathered(packages);
        assert(all == done + last.files);
        assert forall|i: int, j: int| 0 <= i < j < done.len() implies (#[trigger] done[i]).path != (
        #[trigger] done[j]).path by {
            assert(all[i] == done[i] && all[j] == done[j]);
        }
        packages_complete(head);
        package_completes(packages_put(Seq::empty(), head), done, last.files);
    }
}

/// Complete files sort as they were written.
proof fn complete_files_sort_alike(read: Seq<FileCoverageView>, done: Seq<FileCoverageView>)
    requires
        complete(read, done),
        distinct_files(done),
    ensures
        sorted::<FileCoverage>(read) == sorted::<FileCoverage>(
            done.map_values(|f: FileCoverageView| kept_file(f)),
        ),
{
    let kept = done.map_values(|f: FileCoverageView| kept_file(f));
    assert(read.no_duplicates()) by {
        assert forall|i: int, j: int|
            0 <= i < read.len() && 0 <= j < read.len() && i != j implies read[i] != read[j] by {
            if i < j {
                assert(read[i].path != read[j].path);
            } else {
                assert(read[j].path != read[i].path);
            }
        }
    }
    assert(kept.no_duplicates()) by {
        assert forall|i: int, j: int|
            0 <= i < kept.len() && 0 <= j < kept.len() && i != j implies kept[i] != kept[j] by {
            if i < j {
                assert(done[i].path != done[j].path);
            } else {
                assert(done[j].path != done[i].path);
            }
        }
    }
    assert forall|v: FileCoverageView| read.contains(v) implies kept.contains(v) by {
        let k = choose|k: int| 0 <= k < read.len() && read[k] == v;
        assert(listed(done, read[k].path));
        let i = choose|i: int| 0 <= i < done.len() && (#[trigger] done[i]).path == v.path;
        file_at_props(read, v.path);
        let at = file_at(read, done[i].path);
        if at < k {
            assert(read[at].path != read[k].path);
        }
        if k < at {
            assert(read[k].path != read[at].path);
        }
        assert(kept[i] == v);
    }
    assert forall|v: FileCoverageView| kept.contains(v) implies read.contains(v) by {
        let i = choose|i: int| 0 <= i < kept.len() && kept[i] == v;
        let at = file_at(read, done[i].path);
        file_at_props(read, done[i].path);
        assert(read[at] == v);
    }
    assert forall|u: FileCoverageView, v: FileCoverageView|
        read.contains(u) && read.contains(v) && u != v implies #[trigger] FileCoverage::precedes(
        u,
        v,
    ) || FileCoverage::precedes(v, u) by {
        let i = choose|i: int| 0 <= i < read.len() && read[i] == u;
        let j = choose|j: int| 0 <= j < read.len() && read[j] == v;
        if i < j {
            assert(read[i].path != read[j].path);
        } else {
            assert(read[j].path != read[i].path);
        }
        lex_lt_total(u.path, v.path);
    }
    sorting_forgets_the_order::<FileCoverage>(read, kept);
}

/// What is written as JaCoCo XML reads back, whatever events stand for it: every
/// file with its lines, whether they ran and their branches, its functions and its
/// counters, in canonical order.
pub proof fn reports_read_back(doc: CoverageDocView, chunks: Seq<Seq<EventView>>)
    requires
        forall|i: int| 0 <= i < doc.files.len() ==> plain_file(#[trigger] doc.files[i]),
        distinct_files(doc.files),
        reads_as(report_items(doc), chunks),
    ensures
        read_spec(events_of(chunks).push(EventView::Eof)) == Ok::<DocView, ErrorView>(
            DocView::Coverage(sort_doc(kept_doc(doc))),
        ),
{
    elements_apart();
    step_is_steady();
    let attrs = seq![("name"@, "udc"@)];
    let empty = Seq::<FileCoverageView>::empty();
    let a = seq![declaration_item()];
    let b = seq![Item::Raw { text: DOCTYPE@ }];
    let c = seq![open_item("report"@, attrs)];
    let d = packages_items(doc.files);
    let e = counters_items(doc.files, true);
    let f = seq![close_item("report"@)];
    let s0 = first_state();
    raw_leads(step(), s0, declaration_item());
    raw_leads(step(), s0, Item::Raw { text: DOCTYPE@ });
    leads_on(step(), s0, a, s0, b, s0);
    let s1 = StateView { saw_root: true, ..s0 };
    open_leads(step(), s0, "report"@, attrs, s1);
    leads_on(step(), s0, a + b, s0, c, s1);
    assert(outside(s1, s1.package, empty) == s1);
    let packages = packages_by(doc.files, placed());
    let files = gathered(packages);
    packages_are_of_the_files(doc.files, placed(), |f: FileCoverageView| plain_file(f));
    assert(plain_packages(packages)) by {
        assert forall|k: int, i: int|
            0 <= k < packages.len() && 0 <= i < packages[k].files.len() implies plain_file(
            #[trigger] packages[k].files[i],
        ) && directory_part(packages[k].files[i].path) == packages[k].name by {
            let f = packages[k].files[i];
            assert(placed()(f) == directory_part(f.path));
        }
    }
    let end = packages_lead(s1, s1.package, empty, packages);
    let read = packages_put(empty, packages);
    let s2 = outside(s1, end, read);
    leads_on(step(), s0, a + b + c, s1, d, s2);
    loose_counters_lead(s2, doc.files, true);
    leads_on(step(), s0, a + b + c + d, s2, e, s2);
    close_leads(step(), s2, "report"@, s2);
    leads_on(step(), s0, a + b + c + d + e, s2, f, s2);
    assert(a + b + c + d + e + f =~= report_items(doc));
    arrives(step(), s0, report_items(doc), s2, chunks);
    let events = events_of(chunks);
    folding_is_running(events);
    assert(events.push(EventView::Eof).drop_last() =~= events);
    assert(folded(events.push(EventView::Eof)) == Ok::<StateView, ErrorView>(s2));
    different_files_stay_different(doc.files, placed());
    packages_complete(packages);
    complete_files_sort_alike(read, files);
    grouped_files_sort_alike(doc.files, placed(), |f: FileCoverageView| kept_file(f));
}

/// Whatever is written as JaCoCo XML is read again, whatever events stand for
/// it.
#[verifier::spinoff_prover]
#[verifier::rlimit(60)]
pub proof fn reports_are_read_again(doc: CoverageDocView, chunks: Seq<Seq<EventView>>)
    requires
        reads_as(report_items(doc), chunks),
    ensures
        read_spec(events_of(chunks).push(EventView::Eof)) is Ok,
{
    let items = report_items(doc);
    let events = events_of(chunks);
    let attrs = seq![("name"@, "udc"@)];
    let sort = |event: EventView| !(event is Failed);
    let mark = |s: StateView| s.saw_root;
    assert forall|i: int, j: int|
        0 <= i < items.len() && 0 <= j < chunks[i].len() && stands_for(
            chunks[i],
            items[i],
        ) implies sort(#[trigger] chunks[i][j]) by {
        events_of_a_line(chunks[i], items[i], j);
    }
    events_are_of_a_sort(items, chunks, sort);
    assert(items[2] == open_item("report"@, attrs));
    written_tags_are_read(items, chunks, 2);
    let k = choose|i: int|
        0 <= i < events.len() && opens(#[trigger] events[i], "report"@, attrs);
    runs_through(step(), first_state(), events, sort, mark, k);
    folding_is_running(events);
    assert(events.push(EventView::Eof).drop_last() =~= events);
}

// ---------------------------------------------------------------------------
// The document
// ---------------------------------------------------------------------------

/// The names of the elements and attributes are plain.
proof fn names_are_plain()
    ensures
        plain_name("report"@),
        plain_name("package"@),
        plain_name("class"@),
        plain_name("method"@),
        plain_name("sourcefile"@),
        plain_name("line"@),
        plain_name("counter"@),
        plain_name("name"@),
        plain_name("desc"@),
        plain_name("sourcefilename"@),
        plain_name("type"@),
        plain_name("missed"@),
        plain_name("covered"@),
        plain_name("nr"@),
        plain_name("mi"@),
        plain_name("ci"@),
        plain_name("mb"@),
        plain_name("cb"@),
{
    reveal(plain_name);
    reveal_strlit("report");
    reveal_strlit("package");
    reveal_strlit("class");
    reveal_strlit("method");
    reveal_strlit("sourcefile");
    reveal_strlit("line");
    reveal_strlit("counter");
    reveal_strlit("name");
    reveal_strlit("desc");
    reveal_strlit("sourcefilename");
    reveal_strlit("type");
    reveal_strlit("missed");
    reveal_strlit("covered");
    reveal_strlit("nr");
    reveal_strlit("mi");
    reveal_strlit("ci");
    reveal_strlit("mb");
    reveal_strlit("cb");
}

proof fn doctype_is_plain()
    ensures
        doctype(DOCTYPE@),
{
    reveal(doctype);
    reveal_strlit("<!DOCTYPE ");
    reveal_strlit(
        "<!DOCTYPE report PUBLIC \"-//JACOCO//DTD Report 1.1//EN\" \"report.dtd\">",
    );
    assert(DOCTYPE@.take(10) =~= "<!DOCTYPE "@);
}

proof fn counters_are_a_block(files: Seq<FileCoverageView>, synthesize: bool)
    ensures
        block(any_line(), counters_items(files, synthesize)),
{
    reveal(counters_items);
    names_are_plain();
    let items = counters_items(files, synthesize);
    assert forall|kind: Seq<char>, c: Counter| whole(#[trigger] counter_item(kind, c)) by {
        assert(plain_attrs(counter_pairs(kind, c)));
    }
    whole_lines_are_a_block(any_line(), items);
}

proof fn method_is_a_block(function: FunctionView)
    ensures
        block(any_line(), method_items(function)),
{
    names_are_plain();
    let counter = method_counter(function);
    assert(plain_attrs(counter_pairs("METHOD"@, counter)));
    one_line_is_a_block(any_line(), counter_item("METHOD"@, counter));
    assert(plain_attrs(method_attrs(function)));
    element_is_a_block(
        any_line(),
        "method"@,
        method_attrs(function),
        seq![counter_item("METHOD"@, counter)],
    );
    assert(method_items(function) =~= seq![open_item("method"@, method_attrs(function))] + seq![
        counter_item("METHOD"@, counter),
    ] + seq![close_item("method"@)]);
}

/// Lines may be grouped as one likes.
proof fn grouped(a: Seq<Item>, b: Seq<Item>, c: Seq<Item>, d: Seq<Item>)
    ensures
        a + b + c + d == a + (b + c) + d,
{
    assert(a + b + c + d =~= a + (b + c) + d);
}

proof fn class_is_a_block(package: Seq<char>, file: FileCoverageView)
    ensures
        block(any_line(), class_items(package, file)),
{
    reveal(class_items);
    names_are_plain();
    if file.functions.len() == 0 && !file.has_extra() {
        no_lines_are_a_block(any_line());
    } else {
        let f = |f: FunctionView| method_items(f);
        assert forall|i: int| 0 <= i < file.functions.len() implies block(
            any_line(),
            f(#[trigger] file.functions[i]),
        ) by {
            method_is_a_block(file.functions[i]);
        }
        parts_are_a_block(any_line(), file.functions, f);
        let methods = flat(file.functions, f);
        let counters = counters_items(seq![file], false);
        counters_are_a_block(seq![file], false);
        blocks_together(any_line(), methods, counters);
        let attrs = class_attrs(package, file);
        assert(plain_attrs(attrs));
        element_is_a_block(any_line(), "class"@, attrs, methods + counters);
        grouped(
            seq![open_item("class"@, attrs)],
            methods,
            counters,
            seq![close_item("class"@)],
        );
    }
}

proof fn source_is_a_block(file: FileCoverageView)
    ensures
        block(any_line(), source_items(file)),
{
    reveal(source_items);
    names_are_plain();
    let lines = file.lines.map_values(|l: Line| empty_item("line"@, line_attrs(l)));
    assert forall|i: int| 0 <= i < lines.len() implies whole(#[trigger] lines[i]) by {
        assert(plain_attrs(line_attrs(file.lines[i])));
    }
    whole_lines_are_a_block(any_line(), lines);
    let counters = counters_items(seq![file], true);
    counters_are_a_block(seq![file], true);
    blocks_together(any_line(), lines, counters);
    let attrs = seq![("name"@, name_part(file.path))];
    assert(plain_attrs(attrs));
    element_is_a_block(any_line(), "sourcefile"@, attrs, lines + counters);
    grouped(
        seq![open_item("sourcefile"@, attrs)],
        lines,
        counters,
        seq![close_item("sourcefile"@)],
    );
}

proof fn package_is_a_block(package: Seq<char>, files: Seq<FileCoverageView>)
    ensures
        block(any_line(), package_items(package, files)),
{
    reveal(package_items);
    names_are_plain();
    let f = |f: FileCoverageView| class_items(package, f);
    let g = |f: FileCoverageView| source_items(f);
    assert forall|i: int| 0 <= i < files.len() implies block(
        any_line(),
        f(#[trigger] files[i]),
    ) by {
        class_is_a_block(package, files[i]);
    }
    assert forall|i: int| 0 <= i < files.len() implies block(
        any_line(),
        g(#[trigger] files[i]),
    ) by {
        source_is_a_block(files[i]);
    }
    parts_are_a_block(any_line(), files, f);
    parts_are_a_block(any_line(), files, g);
    let counters = counters_items(files, true);
    counters_are_a_block(files, true);
    let a = flat(files, f);
    let b = flat(files, g);
    blocks_together(any_line(), b, counters);
    blocks_together(any_line(), a, b + counters);
    let attrs = seq![("name"@, package)];
    assert(plain_attrs(attrs));
    element_is_a_block(any_line(), "package"@, attrs, a + (b + counters));
    let head = seq![open_item("package"@, attrs)];
    let end = seq![close_item("package"@)];
    grouped(head + a, b, counters, end);
    grouped(head, a, b + counters, end);
}

proof fn packages_are_a_block(files: Seq<FileCoverageView>)
    ensures
        block(any_line(), packages_items(files)),
{
    let packages = packages_by(files, placed());
    let write = |p: PackageView| package_items(p.name, p.files);
    assert forall|k: int| 0 <= k < packages.len() implies block(
        any_line(),
        write(#[trigger] packages[k]),
    ) by {
        package_is_a_block(packages[k].name, packages[k].files);
    }
    parts_are_a_block(any_line(), packages, write);
}

/// What is written as JaCoCo XML is a document.
pub proof fn reports_are_well_formed(doc: CoverageDocView)
    ensures
        well_formed(report_items(doc)),
{
    names_are_plain();
    doctype_is_plain();
    let packages = packages_items(doc.files);
    let counters = counters_items(doc.files, true);
    packages_are_a_block(doc.files);
    counters_are_a_block(doc.files, true);
    blocks_together(any_line(), packages, counters);
    let attrs = seq![("name"@, "udc"@)];
    assert(plain_attrs(attrs));
    element_is_a_block(any_line(), "report"@, attrs, packages + counters);
    let report = seq![open_item("report"@, attrs)] + (packages + counters) + seq![
        close_item("report"@),
    ];
    let head = seq![declaration_item(), Item::Raw { text: DOCTYPE@ }];
    whole_lines_are_a_block(any_line(), head);
    blocks_together(any_line(), head, report);
    assert(report_items(doc) =~= head + report);
    document_is_well_formed(any_line(), report_items(doc));
}

/// Whether these bytes are the JaCoCo report of a document.
pub open spec fn is_report(input: Seq<u8>, doc: CoverageDocView) -> bool {
    input == encode_utf8(rendered(report_items(doc)))
}

/// Whether these bytes are the JaCoCo report of a document whose files can be
/// written, each path once.
pub open spec fn holds_report(input: Seq<u8>, doc: CoverageDocView) -> bool {
    &&& forall|i: int| 0 <= i < doc.files.len() ==> plain_file(#[trigger] doc.files[i])
    &&& distinct_files(doc.files)
    &&& is_report(input, doc)
}

/// What was written is read again from its bytes.
pub(crate) proof fn written_bytes_are_read_again(
    input: Seq<u8>,
    events: Seq<EventView>,
    doc: CoverageDocView,
)
    requires
        faithful(input, events),
        is_report(input, doc),
    ensures
        read_spec(events) is Ok,
{
    let items = report_items(doc);
    reports_are_well_formed(doc);
    assert(echoes(events, items));
    let chunks = choose|chunks: Seq<Seq<EventView>>| #[trigger]
        reads_as(items, chunks) && events == events_of(chunks).push(EventView::Eof);
    reports_are_read_again(doc, chunks);
}

/// What was written reads back from its bytes.
pub(crate) proof fn written_bytes_read_back(
    input: Seq<u8>,
    events: Seq<EventView>,
    doc: CoverageDocView,
)
    requires
        faithful(input, events),
        holds_report(input, doc),
    ensures
        read_spec(events) == Ok::<DocView, ErrorView>(DocView::Coverage(sort_doc(kept_doc(doc)))),
{
    let items = report_items(doc);
    reports_are_well_formed(doc);
    assert(echoes(events, items));
    let chunks = choose|chunks: Seq<Seq<EventView>>| #[trigger]
        reads_as(items, chunks) && events == events_of(chunks).push(EventView::Eof);
    reports_read_back(doc, chunks);
}

} // verus!
