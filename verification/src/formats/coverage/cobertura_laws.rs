//! What reading and writing a Cobertura report promises.

use vstd::prelude::*;

use crate::formats::coverage::cobertura::{
    class_attrs, condition_fraction, condition_of, coverage_attrs, emptied, ended, folded,
    method_attrs, package_attrs, rate_text, ratio_at, read_spec, started, stepped, RatioView,
    StateView,
};
use crate::formats::coverage::lcov::digits_lack;
use crate::model::coverage::{
    branch_total, covered_count, distinct_files, file_at, file_at_props, fold_files, stem_part,
    total_branches, total_covered, total_lines, Branch, CoverageDocView, FileCoverage,
    FileCoverageView, FunctionView, Line,
};
use crate::order::{sorted, sorted_props, sorting_keeps_members};
use crate::paths::normalized;
use crate::registry::DocView;
use crate::text::{
    contains_char, decimal, lacks_char, lower, split_once_at, trim, written_numbers_parse,
};
use crate::value::non_empty;
use crate::xml::{EventView, TagView};

verus! {

// ---------------------------------------------------------------------------
// Branches
// ---------------------------------------------------------------------------

/// The branches of a line are the fraction in brackets: the covered ones before
/// the stroke, all of them behind it, whatever percentage stands in front.
pub proof fn branches_are_the_fraction(
    percentage: Seq<char>,
    covered: u32,
    total: u32,
    behind: Seq<char>,
)
    requires
        !contains_char(percentage, '('),
    ensures
        condition_fraction(
            percentage.push('(') + (decimal(covered as nat).push('/') + decimal(
                total as nat,
            )).push(')') + behind,
        ) == Some(Branch { covered, total }),
{
    let a = decimal(covered as nat);
    let b = decimal(total as nat);
    let fraction = a.push('/') + b;
    let rest = fraction.push(')') + behind;
    assert(percentage.push('(') + fraction.push(')') + behind =~= percentage.push('(') + rest);
    split_once_at(percentage, '(', rest);
    digits_lack(covered as nat, ')');
    digits_lack(total as nat, ')');
    digits_lack(covered as nat, '/');
    assert forall|i: int| 0 <= i < fraction.len() implies #[trigger] fraction[i] != ')' by {
        if i < a.len() {
            assert(a[i] == fraction[i]);
            lacks_char(a, ')');
        } else if i > a.len() {
            assert(b[i - a.len() - 1] == fraction[i]);
            lacks_char(b, ')');
        }
    }
    lacks_char(fraction, ')');
    split_once_at(fraction, ')', behind);
    split_once_at(a, '/', b);
    written_numbers_parse(covered as u64);
    written_numbers_parse(total as u64);
}

/// A line has the branches that its `condition-coverage` states. Where that states
/// none, a line marked as a branch has one that was not covered, and any other has
/// no record.
pub proof fn branches_are_stated_or_marked(tag: TagView)
    ensures
        match condition_of(tag) {
            Some(b) => {
                ||| (tag.attr("condition-coverage"@) matches Some(raw) && condition_fraction(raw)
                    == Some(b))
                ||| {
                    &&& (tag.attr("condition-coverage"@) matches Some(raw) ==> condition_fraction(
                        raw,
                    ) is None)
                    &&& (tag.attr("branch"@) matches Some(v) && lower(v) == lower("true"@))
                    &&& b == Branch { covered: 0, total: 1 }
                }
            },
            None => {
                &&& (tag.attr("condition-coverage"@) matches Some(raw) ==> condition_fraction(
                    raw,
                ) is None)
                &&& (tag.attr("branch"@) matches Some(v) ==> lower(v) != lower("true"@))
            },
        },
{
}

// ---------------------------------------------------------------------------
// Elements
// ---------------------------------------------------------------------------

proof fn names_differ()
    ensures
        "coverage"@ != "source"@ && "coverage"@ != "class"@ && "coverage"@ != "method"@
            && "coverage"@ != "line"@,
        "source"@ != "class"@ && "source"@ != "method"@ && "source"@ != "line"@,
        "class"@ != "method"@ && "class"@ != "line"@,
        "method"@ != "line"@,
{
    reveal_strlit("coverage");
    reveal_strlit("source");
    reveal_strlit("class");
    reveal_strlit("method");
    reveal_strlit("line");
    assert("coverage"@.len() == 8);
    assert("source"@.len() == 6);
    assert("class"@.len() == 5);
    assert("method"@.len() == 6);
    assert("line"@.len() == 4);
    assert("method"@[0] == 'm');
    assert("source"@[0] == 's');
}

/// A `<line>` of a class, outside its methods, is a line of the class' file: with
/// its number, its hits, which are none where it states none, and its branches.
pub proof fn lines_belong_to_the_open_class(s: StateView, tag: TagView, empty: bool)
    requires
        tag.name == "line"@,
        s.method is None,
        s.current is Some,
        tag.attr_u32("number"@) is Some,
    ensures
        match stepped(
            s,
            if empty {
                EventView::Empty(tag)
            } else {
                EventView::Start(tag)
            },
        ) {
            Ok(after) => match after.current {
                Some(file) => {
                    &&& file.path == s.current->0.path
                    &&& file.functions == s.current->0.functions
                    &&& file.lines.len() == s.current->0.lines.len() + 1
                    &&& file.lines.drop_last() == s.current->0.lines
                    &&& Some(file.lines.last().number) == tag.attr_u32("number"@)
                    &&& file.lines.last().hits == match tag.attr_u64("hits"@) {
                        Some(n) => n,
                        None => 0,
                    }
                    &&& file.lines.last().branch == condition_of(tag)
                    &&& after.method is None
                    &&& after.doc == s.doc
                },
                None => false,
            },
            Err(_) => false,
        },
{
    names_differ();
    assert(s.current->0.lines.push(
        Line {
            number: tag.attr_u32("number"@)->0,
            hits: match tag.attr_u64("hits"@) {
                Some(n) => n,
                None => 0,
            },
            branch: condition_of(tag),
        },
    ).drop_last() =~= s.current->0.lines);
}

/// The first `<line>` of a method says where it is and how often it ran. The lines
/// of a method are no lines of the file, and those behind the first say nothing.
pub proof fn methods_are_at_their_first_line(s: StateView, tag: TagView)
    requires
        tag.name == "line"@,
        s.method is Some,
        tag.attr_u32("number"@) is Some,
    ensures
        ({
            let after = emptied(s, tag);
            let hits: u64 = match tag.attr_u64("hits"@) {
                Some(n) => n,
                None => 0,
            };
            &&& after.current == s.current
            &&& after.doc == s.doc
            &&& after.method is Some
            &&& after.method->0.name == s.method->0.name
            &&& after.method->0.signature == s.method->0.signature
            &&& if s.method->0.line is None {
                after.method->0.line == tag.attr_u32("number"@) && after.method->0.hits == hits
            } else {
                after == s
            }
        }),
{
    names_differ();
}

/// A method becomes a function of its class' file at its end, under its name and
/// with its signature.
pub proof fn methods_become_functions(s: StateView, tag: TagView)
    requires
        tag.name == "method"@,
        s.current is Some,
    ensures
        match started(s, tag) {
            Ok(inside) => {
                let after = ended(inside, "method"@);
                &&& inside.method is Some
                &&& inside.method->0.line is None && inside.method->0.hits == 0
                &&& inside.method->0.signature == non_empty(tag.attr("signature"@))
                &&& inside.method->0.name == match tag.attr("name"@) {
                    Some(name) => name,
                    None => ""@,
                }
                &&& inside.current == s.current
                &&& after.method is None
                &&& after.current is Some
                &&& after.current->0.functions == s.current->0.functions.push(inside.method->0)
                &&& after.current->0.lines == s.current->0.lines
                &&& after.current->0.path == s.current->0.path
            },
            Err(_) => false,
        },
{
    names_differ();
}

/// A class opens a new file at its normalized file name and hands it to the report
/// at its end; one without a file name is refused.
pub proof fn classes_become_files(s: StateView, tag: TagView)
    requires
        tag.name == "class"@,
    ensures
        match (tag.attr("filename"@), started(s, tag)) {
            (Some(name), Ok(open)) => {
                &&& normalized(name).len() > 0
                &&& open.current == Some(FileCoverageView::of(normalized(name)))
                &&& open.doc == s.doc
                &&& ended(open, "class"@).doc.files == s.doc.files.push(open.current->0)
                &&& ended(open, "class"@).current is None
            },
            (Some(name), Err(_)) => normalized(name).len() == 0,
            (None, r) => r is Err,
        },
{
    names_differ();
}

/// The root states when the report was made, and the text of each `<source>` that
/// is not blank is one of its source roots.
pub proof fn roots_and_time_are_kept(s: StateView, tag: TagView, text: Seq<char>)
    ensures
        tag.name == "coverage"@ ==> match started(s, tag) {
            Ok(after) => after.doc.timestamp == tag.attr_i64("timestamp"@) && after.saw_root
                && after.doc.files == s.doc.files,
            Err(_) => false,
        },
        tag.name == "source"@ ==> match started(s, tag) {
            Ok(inside) => match stepped(inside, EventView::Text(Ok(text))) {
                Ok(after) => {
                    &&& trim(text).len() > 0 ==> after.doc.source_roots
                        == s.doc.source_roots.push(trim(text))
                    &&& trim(text).len() == 0 ==> after.doc.source_roots == s.doc.source_roots
                    &&& !ended(after, "source"@).in_source
                },
                Err(_) => false,
            },
            Err(_) => false,
        },
{
    names_differ();
}

proof fn folding_lists_no_path_twice(more: Seq<FileCoverageView>)
    ensures
        distinct_files(fold_files(Seq::empty(), more)),
    decreases more.len(),
{
    if more.len() > 0 {
        let before = fold_files(Seq::empty(), more.drop_last());
        let after = fold_files(Seq::empty(), more);
        let file = more.last();
        folding_lists_no_path_twice(more.drop_last());
        file_at_props(before, file.path);
        assert forall|i: int, j: int| 0 <= i < j < after.len() implies (#[trigger] after[i]).path
            != (#[trigger] after[j]).path by {
            if j < before.len() {
                assert(before[i].path != before[j].path);
            } else {
                assert(before[i].path != file.path);
            }
        }
    }
}

proof fn folding_keeps_every_path(more: Seq<FileCoverageView>, i: int) -> (k: int)
    requires
        0 <= i < more.len(),
    ensures
        0 <= k < fold_files(Seq::empty(), more).len(),
        fold_files(Seq::empty(), more)[k].path == more[i].path,
    decreases more.len(),
{
    let before = fold_files(Seq::empty(), more.drop_last());
    file_at_props(before, more.last().path);
    if i == more.len() - 1 {
        file_at(before, more.last().path)
    } else {
        assert(more.drop_last()[i] == more[i]);
        let k = folding_keeps_every_path(more.drop_last(), i);
        assert(before[k].path == more[i].path);
        k
    }
}

proof fn sorting_keeps_paths_apart(files: Seq<FileCoverageView>)
    requires
        distinct_files(files),
    ensures
        distinct_files(sorted::<FileCoverage>(files)),
{
    let order = sorted::<FileCoverage>(files);
    sorted_props::<FileCoverage>(files);
    assert forall|i: int, j: int|
        0 <= i < files.len() && 0 <= j < files.len() && i != j implies files[i] != files[j] by {
        if i < j {
            assert(files[i].path != files[j].path);
        } else {
            assert(files[j].path != files[i].path);
        }
    }
    assert(files.no_duplicates());
    files.lemma_multiset_has_no_duplicates();
    order.lemma_multiset_has_no_duplicates_conv();
    assert forall|a: int, b: int| 0 <= a < b < order.len() implies (#[trigger] order[a]).path != (
    #[trigger] order[b]).path by {
        sorting_keeps_members::<FileCoverage>(files, order[a]);
        sorting_keeps_members::<FileCoverage>(files, order[b]);
        assert(order.contains(order[a]) && order.contains(order[b]));
        let i = choose|i: int| 0 <= i < files.len() && files[i] == order[a];
        let j = choose|j: int| 0 <= j < files.len() && files[j] == order[b];
        if order[a].path == order[b].path && i != j {
            assert(files[i].path != files[j].path || files[j].path != files[i].path);
        }
    }
}

/// Every class is in the report under its file, and no file is there twice: the
/// classes of one file are joined.
pub proof fn classes_of_one_file_are_joined(events: Seq<EventView>, i: int)
    requires
        read_spec(events) is Ok,
        0 <= i < folded(events)->Ok_0.doc.files.len(),
    ensures
        match read_spec(events) {
            Ok(DocView::Coverage(doc)) => {
                &&& exists|k: int|
                    0 <= k < doc.files.len() && (#[trigger] doc.files[k]).path == folded(
                        events,
                    )->Ok_0.doc.files[i].path
                &&& distinct_files(doc.files)
                &&& doc.timestamp == folded(events)->Ok_0.doc.timestamp
                &&& doc.source_roots == folded(events)->Ok_0.doc.source_roots
            },
            _ => false,
        },
{
    let collected = folded(events)->Ok_0.doc.files;
    let files = fold_files(Seq::empty(), collected);
    let k = folding_keeps_every_path(collected, i);
    folding_lists_no_path_twice(collected);
    let order = sorted::<FileCoverage>(files);
    sorted_props::<FileCoverage>(files);
    assert(files.contains(files[k]));
    sorting_keeps_members::<FileCoverage>(files, files[k]);
    let p = choose|p: int| 0 <= p < order.len() && order[p] == files[k];
    let doc = read_spec(events)->Ok_0->Coverage_0;
    assert(doc.files[p].path == order[p].path);
    sorting_keeps_paths_apart(files);
    assert forall|a: int, b: int| 0 <= a < b < doc.files.len() implies (
    #[trigger] doc.files[a]).path != (#[trigger] doc.files[b]).path by {
        assert(doc.files[a].path == order[a].path && doc.files[b].path == order[b].path);
    }
}

// ---------------------------------------------------------------------------
// Rates
// ---------------------------------------------------------------------------

/// A rate is that of the covered ones among all, as given for that pair; of none
/// at all it is full.
pub proof fn rates_are_those_of_their_pair(ratios: Seq<RatioView>, covered: u64, valid: u64)
    ensures
        valid == 0 ==> rate_text(ratios, covered, valid) == "1.0000"@,
        valid > 0 && rate_text(ratios, covered, valid).len() > 0 ==> exists|i: int|
            0 <= i < ratios.len() && (#[trigger] ratios[i]).covered == covered && ratios[i].valid
                == valid && ratios[i].rate == rate_text(ratios, covered, valid),
    decreases ratios.len(),
{
    if valid > 0 && ratios.len() > 0 {
        if ratios[0].covered == covered && ratios[0].valid == valid {
        } else {
            let tail = ratios.skip(1);
            rates_are_those_of_their_pair(tail, covered, valid);
            let at = ratio_at(tail, covered, valid);
            ratio_at_props(tail, covered, valid);
            if at < tail.len() {
                assert(tail[at] == ratios[at + 1]);
            }
        }
    }
}

proof fn ratio_at_props(ratios: Seq<RatioView>, covered: u64, valid: u64)
    ensures
        0 <= ratio_at(ratios, covered, valid) <= ratios.len(),
    decreases ratios.len(),
{
    if ratios.len() > 0 {
        ratio_at_props(ratios.skip(1), covered, valid);
    }
}

/// The report, each package and each class state the rates of their own lines and
/// branches, and the report also states the numbers.
pub proof fn rates_are_of_their_own_lines(
    doc: CoverageDocView,
    package: Seq<char>,
    files: Seq<FileCoverageView>,
    file: FileCoverageView,
    ratios: Seq<RatioView>,
)
    ensures
        ({
            let b = total_branches(doc.files);
            let attrs = coverage_attrs(doc, ratios);
            &&& attrs.contains(
                ("line-rate"@, rate_text(ratios, total_covered(doc.files), total_lines(doc.files))),
            )
            &&& attrs.contains(
                ("branch-rate"@, rate_text(ratios, b.covered as u64, b.total as u64)),
            )
            &&& attrs.contains(("lines-covered"@, decimal(total_covered(doc.files) as nat)))
            &&& attrs.contains(("lines-valid"@, decimal(total_lines(doc.files) as nat)))
            &&& attrs.contains(("branches-covered"@, decimal(b.covered as nat)))
            &&& attrs.contains(("branches-valid"@, decimal(b.total as nat)))
        }),
        ({
            let b = total_branches(files);
            let attrs = package_attrs(package, files, ratios);
            &&& attrs.contains(("name"@, package))
            &&& attrs.contains(
                ("line-rate"@, rate_text(ratios, total_covered(files), total_lines(files))),
            )
            &&& attrs.contains(
                ("branch-rate"@, rate_text(ratios, b.covered as u64, b.total as u64)),
            )
        }),
        ({
            let b = branch_total(file.lines);
            let attrs = class_attrs(package, file, ratios);
            &&& attrs.contains(("filename"@, file.path))
            &&& attrs.contains(
                (
                    "line-rate"@,
                    rate_text(ratios, covered_count(file.lines) as u64, file.lines.len() as u64),
                ),
            )
            &&& attrs.contains(
                ("branch-rate"@, rate_text(ratios, b.covered as u64, b.total as u64)),
            )
        }),
{
    let a = coverage_attrs(doc, ratios);
    assert(a[0].0 == "line-rate"@ && a[1].0 == "branch-rate"@ && a[2].0 == "lines-covered"@);
    assert(a[3].0 == "lines-valid"@ && a[4].0 == "branches-covered"@);
    assert(a[5].0 == "branches-valid"@);
    let p = package_attrs(package, files, ratios);
    assert(p[0].0 == "name"@ && p[1].0 == "line-rate"@ && p[2].0 == "branch-rate"@);
    let c = class_attrs(package, file, ratios);
    assert(c[1].0 == "filename"@ && c[2].0 == "line-rate"@ && c[3].0 == "branch-rate"@);
}

/// A class is named for its package and its file, and a method's rate says whether
/// it ran.
pub proof fn classes_and_methods_are_named(
    package: Seq<char>,
    file: FileCoverageView,
    function: FunctionView,
    ratios: Seq<RatioView>,
)
    ensures
        class_attrs(package, file, ratios).contains(
            (
                "name"@,
                if package.len() == 0 {
                    stem_part(file.path)
                } else {
                    package + "."@ + stem_part(file.path)
                },
            ),
        ),
        ({
            let a = method_attrs(function);
            &&& a.contains(("name"@, function.name))
            &&& a.contains(
                (
                    "signature"@,
                    match function.signature {
                        Some(signature) => signature,
                        None => ""@,
                    },
                ),
            )
            &&& function.hits > 0 ==> a.contains(("line-rate"@, "1.0"@))
            &&& function.hits == 0 ==> a.contains(("line-rate"@, "0.0"@))
        }),
{
    let c = class_attrs(package, file, ratios);
    assert(c[0].0 == "name"@);
    let a = method_attrs(function);
    assert(a[0].0 == "name"@ && a[1].0 == "signature"@ && a[2].0 == "line-rate"@);
}

} // verus!
