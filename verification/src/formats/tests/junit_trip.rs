//! The round trip of a test report through JUnit XML: what reading gives back
//! of what was written.

use vstd::prelude::*;
use vstd::utf8::encode_utf8;

use crate::echo::{
    any_line, arrives, attr_in, attr_is_found, attrs_together, block, blocks_together, close_leads,
    digits_are_shown, document_is_well_formed, echoes, element_is_a_block, empty_leads, events_of,
    faithful, leads, leads_nowhere, leads_on, no_lines_are_a_block, one_line_is_a_block, open_leads,
    opt_text_is_a_block, plain_attrs, plain_name, ran, raw_leads, reads_as, rests, shown,
    text_leads, well_formed, whole, whole_lines_are_a_block, written_as,
};
use crate::error::ErrorView;
use crate::formats::tests::junit::{
    captured, case_attrs, case_items, case_of, cases_items, first_state, folded, opt_attr,
    outcome_items, problem_attrs, problem_item, problem_of, properties_items, property_attrs,
    read_spec, report_attrs, report_items, stepped, suite_attrs, suite_items, suite_of,
    suites_items, SinkView, StateView, SuiteTimesView, TimesView,
};
use crate::model::tests::{
    ElapsedView, OutcomeView, ProblemView, TestCaseView, TestReportView, TestSuiteView,
};
use crate::registry::DocView;
use crate::text::{decimal, trim, written_numbers_parse};
use crate::value::non_empty;
use crate::xml::{
    close_item, declaration_item, empty_item, float_literal, open_item, opt_text_items, rendered,
    text_item, EventView, TagView,
};

verus! {

// ---------------------------------------------------------------------------
// What is kept
// ---------------------------------------------------------------------------

/// What is kept of an attribute.
pub open spec fn kept_attr(value: Option<Seq<char>>) -> Option<Seq<char>> {
    match value {
        Some(v) => Some(shown(v)),
        None => None,
    }
}

/// What is kept of a text: the white space around it is not, nor is a blank
/// text.
pub open spec fn kept_text(text: Option<Seq<char>>) -> Option<Seq<char>> {
    match text {
        Some(t) => captured(shown(t)),
        None => None,
    }
}

/// A duration, read as it was written out.
pub open spec fn kept_time(text: Seq<char>) -> Option<ElapsedView> {
    if float_literal(trim(shown(text))) {
        Some(ElapsedView::Seconds(trim(shown(text))))
    } else {
        None
    }
}

pub open spec fn kept_problem(problem: ProblemView) -> ProblemView {
    ProblemView {
        message: kept_attr(problem.message),
        kind: kept_attr(problem.kind),
        detail: kept_text(problem.detail),
    }
}

pub open spec fn kept_outcome(outcome: OutcomeView) -> OutcomeView {
    match outcome {
        OutcomeView::Passed => OutcomeView::Passed,
        OutcomeView::Skipped { message } => OutcomeView::Skipped { message: kept_attr(message) },
        OutcomeView::Failed(p) => OutcomeView::Failed(kept_problem(p)),
        OutcomeView::Errored(p) => OutcomeView::Errored(kept_problem(p)),
    }
}

/// What is kept of a case, with the duration that was written out for it.
pub open spec fn kept_case(case: TestCaseView, time: Seq<char>) -> TestCaseView {
    TestCaseView {
        name: shown(case.name),
        classname: kept_attr(case.classname),
        file: kept_attr(case.file),
        line: case.line,
        time: match case.time {
            Some(_) => kept_time(time),
            None => None,
        },
        outcome: kept_outcome(case.outcome),
        system_out: kept_text(case.system_out),
        system_err: kept_text(case.system_err),
    }
}

/// What is kept of a suite: its duration is the one that was written out.
pub open spec fn kept_suite(suite: TestSuiteView, times: SuiteTimesView) -> TestSuiteView {
    TestSuiteView {
        name: shown(suite.name),
        timestamp: kept_attr(suite.timestamp),
        hostname: kept_attr(suite.hostname),
        file: kept_attr(suite.file),
        time: kept_time(times.total),
        properties: suite.properties.map_values(
            |p: (Seq<char>, Seq<char>)| (shown(p.0), shown(p.1)),
        ),
        cases: Seq::new(
            suite.cases.len(),
            |i: int| kept_case(suite.cases[i], times.case(i)),
        ),
        system_out: kept_text(suite.system_out),
        system_err: kept_text(suite.system_err),
    }
}

pub open spec fn kept_report(report: TestReportView, times: TimesView) -> TestReportView {
    TestReportView {
        name: non_empty(kept_attr(report.name)),
        suites: Seq::new(
            report.suites.len(),
            |i: int| kept_suite(report.suites[i], times.suite(i)),
        ),
    }
}

// ---------------------------------------------------------------------------
// The reader
// ---------------------------------------------------------------------------

spec fn step() -> spec_fn(StateView, EventView) -> Result<StateView, ErrorView> {
    |s: StateView, event: EventView| stepped(s, event)
}

/// A reader that collects no text passes over what stands between elements.
proof fn at_rest(s: StateView)
    requires
        s.sink is Discard,
    ensures
        rests(step(), s),
{
}

proof fn folding_is_running(events: Seq<EventView>)
    ensures
        folded(events) == ran(step(), first_state(), events),
    decreases events.len(),
{
    if events.len() > 0 {
        folding_is_running(events.drop_last());
    }
}

/// The elements that mean something are different elements.
proof fn elements_apart()
    ensures
        "testsuite"@ != "testsuites"@,
        "property"@ != "testsuites"@,
        "property"@ != "testsuite"@,
        "testcase"@ != "testsuites"@,
        "testcase"@ != "testsuite"@,
        "testcase"@ != "property"@,
        "failure"@ != "testsuites"@,
        "failure"@ != "testsuite"@,
        "failure"@ != "property"@,
        "failure"@ != "testcase"@,
        "error"@ != "testsuites"@,
        "error"@ != "testsuite"@,
        "error"@ != "property"@,
        "error"@ != "testcase"@,
        "error"@ != "failure"@,
        "skipped"@ != "testsuites"@,
        "skipped"@ != "testsuite"@,
        "skipped"@ != "property"@,
        "skipped"@ != "testcase"@,
        "skipped"@ != "failure"@,
        "skipped"@ != "error"@,
        "system-out"@ != "testsuites"@,
        "system-out"@ != "testsuite"@,
        "system-out"@ != "property"@,
        "system-out"@ != "testcase"@,
        "system-out"@ != "failure"@,
        "system-out"@ != "error"@,
        "system-out"@ != "skipped"@,
        "system-err"@ != "testsuites"@,
        "system-err"@ != "testsuite"@,
        "system-err"@ != "property"@,
        "system-err"@ != "testcase"@,
        "system-err"@ != "failure"@,
        "system-err"@ != "error"@,
        "system-err"@ != "skipped"@,
        "system-err"@ != "system-out"@,
        "properties"@ != "testsuites"@,
        "properties"@ != "testsuite"@,
        "properties"@ != "property"@,
        "properties"@ != "testcase"@,
        "properties"@ != "failure"@,
        "properties"@ != "error"@,
        "properties"@ != "skipped"@,
        "properties"@ != "system-out"@,
        "properties"@ != "system-err"@,
{
    reveal_strlit("testsuites");
    reveal_strlit("testsuite");
    reveal_strlit("property");
    reveal_strlit("properties");
    reveal_strlit("testcase");
    reveal_strlit("failure");
    reveal_strlit("error");
    reveal_strlit("skipped");
    reveal_strlit("system-out");
    reveal_strlit("system-err");
    assert("testsuites"@.len() == 10 && "testsuite"@.len() == 9 && "property"@.len() == 8);
    assert("properties"@.len() == 10 && "testcase"@.len() == 8 && "failure"@.len() == 7);
    assert("error"@.len() == 5 && "skipped"@.len() == 7);
    assert("system-out"@.len() == 10 && "system-err"@.len() == 10);
    assert("testsuites"@[0] == 't' && "properties"@[0] == 'p' && "system-out"@[0] == 's');
    assert("system-err"@[0] == 's' && "system-out"@[7] == 'o' && "system-err"@[7] == 'e');
    assert("property"@[0] == 'p' && "testcase"@[0] == 't');
    assert("failure"@[0] == 'f' && "skipped"@[0] == 's');
}

// ---------------------------------------------------------------------------
// Attributes
// ---------------------------------------------------------------------------

/// The attributes are different attributes.
proof fn keys_apart()
    ensures
        "name"@.len() == 4 && "name"@[0] == 'n',
        "classname"@.len() == 9 && "classname"@[0] == 'c',
        "file"@.len() == 4 && "file"@[0] == 'f',
        "line"@.len() == 4 && "line"@[0] == 'l',
        "time"@.len() == 4 && "time"@[0] == 't',
        "tests"@.len() == 5,
        "failures"@.len() == 8 && "failures"@[0] == 'f',
        "errors"@.len() == 6,
        "skipped"@.len() == 7,
        "timestamp"@.len() == 9 && "timestamp"@[0] == 't',
        "hostname"@.len() == 8 && "hostname"@[0] == 'h',
        "message"@.len() == 7,
        "type"@.len() == 4,
        "value"@.len() == 5,
{
    reveal_strlit("name");
    reveal_strlit("classname");
    reveal_strlit("file");
    reveal_strlit("line");
    reveal_strlit("time");
    reveal_strlit("tests");
    reveal_strlit("failures");
    reveal_strlit("errors");
    reveal_strlit("skipped");
    reveal_strlit("timestamp");
    reveal_strlit("hostname");
    reveal_strlit("message");
    reveal_strlit("type");
    reveal_strlit("value");
}

/// An attribute that is there where there is a value.
proof fn opt_is_found(name: Seq<char>, value: Option<Seq<char>>, key: Seq<char>)
    ensures
        attr_in(opt_attr(name, value), key) == if key == name {
            kept_attr(value)
        } else {
            None
        },
{
    if let Some(v) = value {
        let one = opt_attr(name, value);
        assert(one.skip(1) =~= Seq::empty());
        assert(attr_in(one.skip(1), key) is None);
    }
}

proof fn one_is_found(name: Seq<char>, value: Seq<char>, key: Seq<char>)
    ensures
        attr_in(seq![(name, value)], key) == if key == name {
            Some(shown(value))
        } else {
            None
        },
{
    let one = seq![(name, value)];
    assert(one.skip(1) =~= Seq::empty());
    assert(attr_in(one.skip(1), key) is None);
}

proof fn problem_says(problem: ProblemView, tag: TagView, name: Seq<char>)
    requires
        written_as(tag, name, problem_attrs(problem)),
    ensures
        problem_of(tag) == (ProblemView { detail: None, ..kept_problem(problem) }),
{
    keys_apart();
    let a = opt_attr("message"@, problem.message);
    let b = opt_attr("type"@, problem.kind);
    assert(tag.attr("message"@) == attr_in(a + b, "message"@));
    assert(tag.attr("type"@) == attr_in(a + b, "type"@));
    attrs_together(a, b, "message"@);
    attrs_together(a, b, "type"@);
    opt_is_found("message"@, problem.message, "message"@);
    opt_is_found("message"@, problem.message, "type"@);
    opt_is_found("type"@, problem.kind, "message"@);
    opt_is_found("type"@, problem.kind, "type"@);
}

spec fn line_text(case: TestCaseView) -> Option<Seq<char>> {
    match case.line {
        Some(n) => Some(decimal(n as nat)),
        None => None,
    }
}

spec fn time_text(case: TestCaseView, time: Seq<char>) -> Option<Seq<char>> {
    match case.time {
        Some(_) => Some(time),
        None => None,
    }
}

proof fn case_attr(case: TestCaseView, time: Seq<char>, key: Seq<char>)
    ensures
        attr_in(case_attrs(case, time), key) == if key == "name"@ {
            Some(shown(case.name))
        } else if key == "classname"@ {
            kept_attr(case.classname)
        } else if key == "file"@ {
            kept_attr(case.file)
        } else if key == "line"@ {
            kept_attr(line_text(case))
        } else if key == "time"@ {
            kept_attr(time_text(case, time))
        } else {
            None
        },
{
    keys_apart();
    let a = seq![("name"@, case.name)];
    let b = opt_attr("classname"@, case.classname);
    let c = opt_attr("file"@, case.file);
    let d = opt_attr("line"@, line_text(case));
    let e = opt_attr("time"@, time_text(case, time));
    assert(case_attrs(case, time) == a + b + c + d + e);
    attrs_together(a, b, key);
    attrs_together(a + b, c, key);
    attrs_together(a + b + c, d, key);
    attrs_together(a + b + c + d, e, key);
    one_is_found("name"@, case.name, key);
    opt_is_found("classname"@, case.classname, key);
    opt_is_found("file"@, case.file, key);
    opt_is_found("line"@, line_text(case), key);
    opt_is_found("time"@, time_text(case, time), key);
}

/// A case as its tag tells it: passed, and without output.
spec fn case_begun(case: TestCaseView, time: Seq<char>) -> TestCaseView {
    TestCaseView {
        outcome: OutcomeView::Passed,
        system_out: None,
        system_err: None,
        ..kept_case(case, time)
    }
}

proof fn case_says(case: TestCaseView, time: Seq<char>, tag: TagView)
    requires
        written_as(tag, "testcase"@, case_attrs(case, time)),
    ensures
        case_of(tag) == case_begun(case, time),
{
    keys_apart();
    let attrs = case_attrs(case, time);
    assert(tag.attr("name"@) == attr_in(attrs, "name"@));
    assert(tag.attr("classname"@) == attr_in(attrs, "classname"@));
    assert(tag.attr("file"@) == attr_in(attrs, "file"@));
    assert(tag.attr("line"@) == attr_in(attrs, "line"@));
    assert(tag.attr("time"@) == attr_in(attrs, "time"@));
    case_attr(case, time, "name"@);
    case_attr(case, time, "classname"@);
    case_attr(case, time, "file"@);
    case_attr(case, time, "line"@);
    case_attr(case, time, "time"@);
    if let Some(n) = case.line {
        digits_are_shown(n as nat);
        written_numbers_parse(n as u64);
    }
}

proof fn suite_says(suite: TestSuiteView, times: SuiteTimesView, tag: TagView)
    requires
        written_as(tag, "testsuite"@, suite_attrs(suite, times.total)),
    ensures
        suite_of(tag) == (TestSuiteView {
            timestamp: kept_attr(suite.timestamp),
            hostname: kept_attr(suite.hostname),
            file: kept_attr(suite.file),
            time: kept_time(times.total),
            ..TestSuiteView::of(shown(suite.name))
        }),
{
    keys_apart();
    let attrs = suite_attrs(suite, times.total);
    let a = attrs.take(6);
    let b = opt_attr("timestamp"@, suite.timestamp);
    let c = opt_attr("hostname"@, suite.hostname);
    let d = opt_attr("file"@, suite.file);
    assert(attrs =~= a + b + c + d);
    assert(tag.attr("name"@) == attr_in(attrs, "name"@));
    assert(tag.attr("time"@) == attr_in(attrs, "time"@));
    assert(tag.attr("timestamp"@) == attr_in(attrs, "timestamp"@));
    assert(tag.attr("hostname"@) == attr_in(attrs, "hostname"@));
    assert(tag.attr("file"@) == attr_in(attrs, "file"@));
    attr_is_found(attrs, 0);
    assert forall|j: int| 0 <= j < 5 implies (#[trigger] attrs[j]).0 != attrs[5].0 by {
        assert(j == 0 || j == 1 || j == 2 || j == 3 || j == 4);
    }
    attr_is_found(attrs, 5);
    suite_tail(suite, times, "timestamp"@);
    suite_tail(suite, times, "hostname"@);
    suite_tail(suite, times, "file"@);
}

proof fn suite_tail(suite: TestSuiteView, times: SuiteTimesView, key: Seq<char>)
    requires
        key == "timestamp"@ || key == "hostname"@ || key == "file"@,
    ensures
        attr_in(suite_attrs(suite, times.total), key) == if key == "timestamp"@ {
            kept_attr(suite.timestamp)
        } else if key == "hostname"@ {
            kept_attr(suite.hostname)
        } else {
            kept_attr(suite.file)
        },
{
    keys_apart();
    let attrs = suite_attrs(suite, times.total);
    let a = attrs.take(6);
    let b = opt_attr("timestamp"@, suite.timestamp);
    let c = opt_attr("hostname"@, suite.hostname);
    let d = opt_attr("file"@, suite.file);
    assert(attrs =~= a + b + c + d);
    assert forall|j: int| 0 <= j < a.len() implies (#[trigger] a[j]).0 != key by {
        assert(j == 0 || j == 1 || j == 2 || j == 3 || j == 4 || j == 5);
    }
    crate::echo::attr_is_absent(a, key);
    attrs_together(a, b, key);
    attrs_together(a + b, c, key);
    attrs_together(a + b + c, d, key);
    opt_is_found("timestamp"@, suite.timestamp, key);
    opt_is_found("hostname"@, suite.hostname, key);
    opt_is_found("file"@, suite.file, key);
}

// ---------------------------------------------------------------------------
// Cases
// ---------------------------------------------------------------------------

/// A state within a suite.
spec fn in_suite(s: StateView, suite: TestSuiteView) -> StateView {
    StateView {
        suites: seq![suite],
        case: None,
        sink: SinkView::Discard,
        text: Seq::empty(),
        ..s
    }
}

/// A state within a case of a suite.
spec fn in_case(s: StateView, suite: TestSuiteView, case: TestCaseView) -> StateView {
    StateView { case: Some(case), ..in_suite(s, suite) }
}

proof fn problem_leads(
    s: StateView,
    suite: TestSuiteView,
    case: TestCaseView,
    problem: ProblemView,
    failed: bool,
)
    ensures
        leads(
            step(),
            in_case(s, suite, case),
            seq![
                problem_item(
                    if failed {
                        "failure"@
                    } else {
                        "error"@
                    },
                    problem,
                ),
            ],
            in_case(
                s,
                suite,
                TestCaseView {
                    outcome: if failed {
                        OutcomeView::Failed(kept_problem(problem))
                    } else {
                        OutcomeView::Errored(kept_problem(problem))
                    },
                    ..case
                },
            ),
        ),
{
    elements_apart();
    let name = if failed {
        "failure"@
    } else {
        "error"@
    };
    let attrs = problem_attrs(problem);
    let kept = kept_problem(problem);
    let outcome = if failed {
        OutcomeView::Failed(kept)
    } else {
        OutcomeView::Errored(kept)
    };
    let from = in_case(s, suite, case);
    let to = in_case(s, suite, TestCaseView { outcome, ..case });
    at_rest(to);
    match problem.detail {
        None => {
            assert forall|tag: TagView| #[trigger] written_as(tag, name, attrs) implies step()(
                from,
                EventView::Empty(tag),
            ) == Ok::<StateView, ErrorView>(to) by {
                problem_says(problem, tag, name);
            }
            empty_leads(step(), from, name, attrs, to);
        },
        Some(text) => {
            let begun = ProblemView { detail: None, ..kept };
            let opened = StateView {
                sink: if failed {
                    SinkView::Failure(begun)
                } else {
                    SinkView::Error(begun)
                },
                ..from
            };
            assert forall|tag: TagView| #[trigger] written_as(tag, name, attrs) implies step()(
                from,
                EventView::Start(tag),
            ) == Ok::<StateView, ErrorView>(opened) by {
                problem_says(problem, tag, name);
            }
            assert forall|read: Seq<char>|
                trim(read) == trim(shown(text)) implies match #[trigger] step()(
                opened,
                EventView::Text(Ok(read)),
            ) {
                Ok(filled) => step()(filled, EventView::End(name)) == Ok::<StateView, ErrorView>(
                    to,
                ),
                Err(_) => false,
            } by {
                assert(Seq::<char>::empty() + read =~= read);
            }
            if trim(shown(text)).len() == 0 {
                assert(trim(Seq::<char>::empty()).len() == 0);
                assert(trim(Seq::<char>::empty()) =~= trim(shown(text)));
            }
            text_leads(step(), from, problem_item(name, problem), opened, to);
        },
    }
}

proof fn outcome_leads(
    s: StateView,
    suite: TestSuiteView,
    case: TestCaseView,
    outcome: OutcomeView,
)
    requires
        case.outcome is Passed,
    ensures
        leads(
            step(),
            in_case(s, suite, case),
            outcome_items(outcome),
            in_case(s, suite, TestCaseView { outcome: kept_outcome(outcome), ..case }),
        ),
{
    let from = in_case(s, suite, case);
    let to = in_case(s, suite, TestCaseView { outcome: kept_outcome(outcome), ..case });
    match outcome {
        OutcomeView::Passed => {
            assert(to == from);
            leads_nowhere(step(), from);
        },
        OutcomeView::Skipped { message } => {
            elements_apart();
            at_rest(to);
            let attrs = opt_attr("message"@, message);
            assert forall|tag: TagView| #[trigger]
                written_as(tag, "skipped"@, attrs) implies step()(from, EventView::Empty(tag))
                == Ok::<StateView, ErrorView>(to) by {
                assert(tag.attr("message"@) == attr_in(attrs, "message"@));
                opt_is_found("message"@, message, "message"@);
            }
            empty_leads(step(), from, "skipped"@, attrs, to);
        },
        OutcomeView::Failed(problem) => {
            problem_leads(s, suite, case, problem, true);
        },
        OutcomeView::Errored(problem) => {
            problem_leads(s, suite, case, problem, false);
        },
    }
}

/// Where collected text goes.
spec fn collecting(s: StateView, sink: SinkView) -> StateView {
    StateView { sink, ..s }
}

/// An element of output leads from one state to another where its text, once
/// collected, does.
proof fn output_leads(
    from: StateView,
    name: Seq<char>,
    text: Option<Seq<char>>,
    sink: SinkView,
    to: StateView,
)
    requires
        name == "system-out"@ || name == "system-err"@,
        from.sink is Discard,
        from.text.len() == 0,
        to.sink is Discard,
        sink == match (from.case is Some, name == "system-out"@) {
            (true, true) => SinkView::CaseOut,
            (true, false) => SinkView::CaseErr,
            (false, true) => SinkView::SuiteOut,
            (false, false) => SinkView::SuiteErr,
        },
        text is None ==> to == from,
        forall|read: Seq<char>|
            text is Some && trim(read) == trim(shown(text->0)) ==> (
            #[trigger] crate::formats::tests::junit::output_ended(
                StateView { sink, text: read, ..from },
            )) == to,
    ensures
        leads(step(), from, opt_text_items(name, text), to),
{
    elements_apart();
    at_rest(to);
    assert(from.text =~= Seq::empty());
    match text {
        None => {
            leads_nowhere(step(), from);
        },
        Some(t) => {
            let item = text_item(name, t);
            let opened = collecting(from, sink);
            assert forall|tag: TagView| #[trigger]
                written_as(tag, name, Seq::empty()) implies step()(from, EventView::Start(tag))
                == Ok::<StateView, ErrorView>(opened) by {
                assert(tag.name == name);
            }
            assert forall|read: Seq<char>|
                trim(read) == trim(shown(t)) implies match #[trigger] step()(
                opened,
                EventView::Text(Ok(read)),
            ) {
                Ok(filled) => step()(filled, EventView::End(name)) == Ok::<StateView, ErrorView>(
                    to,
                ),
                Err(_) => false,
            } by {
                assert(Seq::<char>::empty() + read =~= read);
                let filled = StateView { sink, text: read, ..from };
                assert(step()(opened, EventView::Text(Ok(read))) == Ok::<StateView, ErrorView>(
                    filled,
                ));
                assert(crate::formats::tests::junit::output_ended(filled) == to);
            }
            if trim(shown(t)).len() == 0 {
                let nothing = Seq::<char>::empty();
                assert(trim(nothing).len() == 0);
                assert(trim(nothing) =~= trim(shown(t)));
                assert(opened == (StateView { sink, text: nothing, ..from }));
                assert(crate::formats::tests::junit::output_ended(opened) == to);
            }
            text_leads(step(), from, item, opened, to);
        },
    }
}

proof fn case_leads(
    s: StateView,
    suite: TestSuiteView,
    case: TestCaseView,
    time: Seq<char>,
)
    ensures
        leads(
            step(),
            in_suite(s, suite),
            case_items(case, time),
            in_suite(
                s,
                TestSuiteView { cases: suite.cases.push(kept_case(case, time)), ..suite },
            ),
        ),
{
    elements_apart();
    let attrs = case_attrs(case, time);
    let from = in_suite(s, suite);
    let kept = kept_case(case, time);
    let begun = case_begun(case, time);
    let to = in_suite(s, TestSuiteView { cases: suite.cases.push(kept), ..suite });
    at_rest(to);
    assert(seq![suite].update(0, to.suites[0]) =~= to.suites);
    if case.outcome is Passed && case.system_out is None && case.system_err is None {
        assert(kept == begun);
        assert forall|tag: TagView| #[trigger]
            written_as(tag, "testcase"@, attrs) implies step()(from, EventView::Empty(tag))
            == Ok::<StateView, ErrorView>(to) by {
            case_says(case, time, tag);
        }
        empty_leads(step(), from, "testcase"@, attrs, to);
    } else {
        let s1 = in_case(s, suite, begun);
        at_rest(s1);
        assert forall|tag: TagView| #[trigger]
            written_as(tag, "testcase"@, attrs) implies step()(from, EventView::Start(tag))
            == Ok::<StateView, ErrorView>(s1) by {
            case_says(case, time, tag);
        }
        open_leads(step(), from, "testcase"@, attrs, s1);
        let a = seq![open_item("testcase"@, attrs)];
        let b = outcome_items(case.outcome);
        let c = opt_text_items("system-out"@, case.system_out);
        let d = opt_text_items("system-err"@, case.system_err);
        let e = seq![close_item("testcase"@)];
        outcome_leads(s, suite, begun, case.outcome);
        let told = TestCaseView { outcome: kept.outcome, ..begun };
        let s2 = in_case(s, suite, told);
        leads_on(step(), from, a, s1, b, s2);
        let heard = TestCaseView { system_out: kept.system_out, ..told };
        let s3 = in_case(s, suite, heard);
        output_leads(s2, "system-out"@, case.system_out, SinkView::CaseOut, s3);
        leads_on(step(), from, a + b, s2, c, s3);
        let s4 = in_case(s, suite, kept);
        output_leads(s3, "system-err"@, case.system_err, SinkView::CaseErr, s4);
        leads_on(step(), from, a + b + c, s3, d, s4);
        close_leads(step(), s4, "testcase"@, to);
        leads_on(step(), from, a + b + c + d, s4, e, to);
        assert(a + b + c + d + e =~= case_items(case, time));
    }
}

proof fn cases_lead(
    s: StateView,
    suite: TestSuiteView,
    cases: Seq<TestCaseView>,
    times: SuiteTimesView,
    n: nat,
)
    requires
        n <= cases.len(),
        suite.cases.len() == 0,
    ensures
        leads(
            step(),
            in_suite(s, suite),
            cases_items(cases, times, n),
            in_suite(
                s,
                TestSuiteView {
                    cases: Seq::new(n, |i: int| kept_case(cases[i], times.case(i))),
                    ..suite
                },
            ),
        ),
    decreases n,
{
    let all = Seq::new(n, |i: int| kept_case(cases[i], times.case(i)));
    if n == 0 {
        assert(all =~= suite.cases);
        leads_nowhere(step(), in_suite(s, suite));
    } else {
        let m = (n - 1) as nat;
        cases_lead(s, suite, cases, times, m);
        let fewer = Seq::new(m, |i: int| kept_case(cases[i], times.case(i)));
        let half = TestSuiteView { cases: fewer, ..suite };
        case_leads(s, half, cases[n - 1], times.case(n - 1));
        assert(fewer.push(kept_case(cases[n - 1], times.case(n - 1))) =~= all);
        leads_on(
            step(),
            in_suite(s, suite),
            cases_items(cases, times, m),
            in_suite(s, half),
            case_items(cases[n - 1], times.case(n - 1)),
            in_suite(s, TestSuiteView { cases: all, ..suite }),
        );
    }
}

// ---------------------------------------------------------------------------
// Suites
// ---------------------------------------------------------------------------

spec fn kept_properties(properties: Seq<(Seq<char>, Seq<char>)>) -> Seq<(Seq<char>, Seq<char>)> {
    properties.map_values(|p: (Seq<char>, Seq<char>)| (shown(p.0), shown(p.1)))
}

proof fn property_list_leads(
    s: StateView,
    suite: TestSuiteView,
    properties: Seq<(Seq<char>, Seq<char>)>,
    n: int,
)
    requires
        0 <= n <= properties.len(),
        suite.properties.len() == 0,
    ensures
        leads(
            step(),
            in_suite(s, suite),
            properties.map_values(
                |p: (Seq<char>, Seq<char>)| empty_item("property"@, property_attrs(p)),
            ).take(n),
            in_suite(
                s,
                TestSuiteView { properties: kept_properties(properties).take(n), ..suite },
            ),
        ),
    decreases n,
{
    let items = properties.map_values(
        |p: (Seq<char>, Seq<char>)| empty_item("property"@, property_attrs(p)),
    );
    let kept = kept_properties(properties);
    if n == 0 {
        assert(items.take(0) =~= Seq::empty());
        assert(kept.take(0) =~= suite.properties);
        leads_nowhere(step(), in_suite(s, suite));
    } else {
        property_list_leads(s, suite, properties, n - 1);
        elements_apart();
        let pair = properties[n - 1];
        let attrs = property_attrs(pair);
        let half = TestSuiteView { properties: kept.take(n - 1), ..suite };
        let whole = TestSuiteView { properties: kept.take(n), ..suite };
        let mid = in_suite(s, half);
        let to = in_suite(s, whole);
        at_rest(to);
        assert(half.properties.push((shown(pair.0), shown(pair.1))) =~= whole.properties);
        assert(seq![half].update(0, whole) =~= seq![whole]);
        assert forall|tag: TagView| #[trigger]
            written_as(tag, "property"@, attrs) implies step()(mid, EventView::Empty(tag))
            == Ok::<StateView, ErrorView>(to) by {
            keys_apart();
            attr_is_found(attrs, 0);
            attr_is_found(attrs, 1);
            assert(tag.attr("name"@) == attr_in(attrs, "name"@));
            assert(tag.attr("value"@) == attr_in(attrs, "value"@));
        }
        empty_leads(step(), mid, "property"@, attrs, to);
        leads_on(
            step(),
            in_suite(s, suite),
            items.take(n - 1),
            mid,
            seq![empty_item("property"@, attrs)],
            to,
        );
        assert(items.take(n - 1) + seq![empty_item("property"@, attrs)] =~= items.take(n));
    }
}

proof fn properties_lead(
    s: StateView,
    suite: TestSuiteView,
    properties: Seq<(Seq<char>, Seq<char>)>,
)
    requires
        suite.properties.len() == 0,
    ensures
        leads(
            step(),
            in_suite(s, suite),
            properties_items(properties),
            in_suite(s, TestSuiteView { properties: kept_properties(properties), ..suite }),
        ),
{
    let kept = kept_properties(properties);
    let from = in_suite(s, suite);
    let to = in_suite(s, TestSuiteView { properties: kept, ..suite });
    if properties.len() == 0 {
        assert(kept =~= suite.properties);
        leads_nowhere(step(), from);
    } else {
        elements_apart();
        at_rest(from);
        at_rest(to);
        let n = properties.len() as int;
        let items = properties.map_values(
            |p: (Seq<char>, Seq<char>)| empty_item("property"@, property_attrs(p)),
        );
        property_list_leads(s, suite, properties, n);
        assert(items.take(n) =~= items);
        assert(kept.take(n) =~= kept);
        open_leads(step(), from, "properties"@, Seq::empty(), from);
        close_leads(step(), to, "properties"@, to);
        let open = seq![open_item("properties"@, Seq::empty())];
        leads_on(step(), from, open, from, items, to);
        leads_on(step(), from, open + items, to, seq![close_item("properties"@)], to);
    }
}

/// A state between suites, with these suites read.
spec fn between(s: StateView, suites: Seq<TestSuiteView>) -> StateView {
    StateView {
        report: TestReportView { suites, ..s.report },
        suites: Seq::empty(),
        case: None,
        sink: SinkView::Discard,
        text: Seq::empty(),
        saw_root: true,
    }
}

proof fn suite_leads(
    s: StateView,
    suites: Seq<TestSuiteView>,
    suite: TestSuiteView,
    times: SuiteTimesView,
)
    ensures
        leads(
            step(),
            between(s, suites),
            suite_items(suite, times),
            between(s, suites.push(kept_suite(suite, times))),
        ),
{
    elements_apart();
    let from = between(s, suites);
    let attrs = suite_attrs(suite, times.total);
    let kept = kept_suite(suite, times);
    let begun = TestSuiteView {
        timestamp: kept.timestamp,
        hostname: kept.hostname,
        file: kept.file,
        time: kept.time,
        ..TestSuiteView::of(kept.name)
    };
    let s1 = in_suite(from, begun);
    at_rest(s1);
    assert(Seq::<TestSuiteView>::empty().push(begun) =~= seq![begun]);
    assert forall|tag: TagView| #[trigger]
        written_as(tag, "testsuite"@, attrs) implies step()(from, EventView::Start(tag)) == Ok::<
        StateView,
        ErrorView,
    >(s1) by {
        suite_says(suite, times, tag);
    }
    open_leads(step(), from, "testsuite"@, attrs, s1);
    let a = seq![open_item("testsuite"@, attrs)];
    let b = properties_items(suite.properties);
    let c = cases_items(suite.cases, times, suite.cases.len());
    let d = opt_text_items("system-out"@, suite.system_out);
    let e = opt_text_items("system-err"@, suite.system_err);
    let f = seq![close_item("testsuite"@)];
    properties_lead(from, begun, suite.properties);
    let known = TestSuiteView { properties: kept.properties, ..begun };
    let s2 = in_suite(from, known);
    assert(kept_properties(suite.properties) =~= kept.properties);
    leads_on(step(), from, a, s1, b, s2);
    cases_lead(from, known, suite.cases, times, suite.cases.len());
    let filled = TestSuiteView { cases: kept.cases, ..known };
    let s3 = in_suite(from, filled);
    leads_on(step(), from, a + b, s2, c, s3);
    let heard = TestSuiteView { system_out: kept.system_out, ..filled };
    let s4 = in_suite(from, heard);
    assert(seq![filled].update(0, heard) =~= seq![heard]);
    output_leads(s3, "system-out"@, suite.system_out, SinkView::SuiteOut, s4);
    leads_on(step(), from, a + b + c, s3, d, s4);
    let s5 = in_suite(from, kept);
    assert(seq![heard].update(0, kept) =~= seq![kept]);
    output_leads(s4, "system-err"@, suite.system_err, SinkView::SuiteErr, s5);
    leads_on(step(), from, a + b + c + d, s4, e, s5);
    let to = between(s, suites.push(kept));
    at_rest(to);
    assert(seq![kept].drop_last() =~= Seq::empty());
    close_leads(step(), s5, "testsuite"@, to);
    leads_on(step(), from, a + b + c + d + e, s5, f, to);
    assert(a + b + c + d + e + f =~= suite_items(suite, times));
}

proof fn suites_lead(s: StateView, suites: Seq<TestSuiteView>, times: TimesView, n: nat)
    requires
        n <= suites.len(),
    ensures
        leads(
            step(),
            between(s, Seq::empty()),
            suites_items(suites, times, n),
            between(s, Seq::new(n, |i: int| kept_suite(suites[i], times.suite(i)))),
        ),
    decreases n,
{
    let all = Seq::new(n, |i: int| kept_suite(suites[i], times.suite(i)));
    if n == 0 {
        assert(all =~= Seq::empty());
        leads_nowhere(step(), between(s, Seq::empty()));
    } else {
        let m = (n - 1) as nat;
        suites_lead(s, suites, times, m);
        let fewer = Seq::new(m, |i: int| kept_suite(suites[i], times.suite(i)));
        suite_leads(s, fewer, suites[n - 1], times.suite(n - 1));
        assert(fewer.push(kept_suite(suites[n - 1], times.suite(n - 1))) =~= all);
        leads_on(
            step(),
            between(s, Seq::empty()),
            suites_items(suites, times, m),
            between(s, fewer),
            suite_items(suites[n - 1], times.suite(n - 1)),
            between(s, all),
        );
    }
}

// ---------------------------------------------------------------------------
// The report
// ---------------------------------------------------------------------------

proof fn report_says(report: TestReportView, total: Seq<char>, tag: TagView)
    requires
        written_as(tag, "testsuites"@, report_attrs(report, total)),
    ensures
        tag.attr("name"@) == kept_attr(report.name),
{
    keys_apart();
    let attrs = report_attrs(report, total);
    let a = opt_attr("name"@, report.name);
    let b = attrs.skip(a.len() as int);
    assert(attrs =~= a + b);
    assert forall|j: int| 0 <= j < b.len() implies (#[trigger] b[j]).0 != "name"@ by {
        assert(j == 0 || j == 1 || j == 2 || j == 3 || j == 4);
    }
    crate::echo::attr_is_absent(b, "name"@);
    attrs_together(a, b, "name"@);
    opt_is_found("name"@, report.name, "name"@);
    assert(tag.attr("name"@) == attr_in(attrs, "name"@));
}

/// What is written as JUnit XML reads back, whatever events stand for it: every
/// suite and case in its order, with its outcome, texts and properties.
/// Durations come back as they were written out, and texts without the white
/// space around them.
pub proof fn reports_read_back(
    report: TestReportView,
    times: TimesView,
    chunks: Seq<Seq<EventView>>,
)
    requires
        reads_as(report_items(report, times), chunks),
    ensures
        read_spec(events_of(chunks).push(EventView::Eof)) == Ok::<DocView, ErrorView>(
            DocView::Tests(kept_report(report, times)),
        ),
{
    elements_apart();
    let kept = kept_report(report, times);
    let attrs = report_attrs(report, times.total);
    let a = seq![declaration_item()];
    let b = seq![open_item("testsuites"@, attrs)];
    let c = suites_items(report.suites, times, report.suites.len());
    let d = seq![close_item("testsuites"@)];
    let s0 = first_state();
    at_rest(s0);
    raw_leads(step(), s0, declaration_item());
    let named = StateView { report: TestReportView { name: kept.name, ..s0.report }, ..s0 };
    let s1 = between(named, Seq::empty());
    at_rest(s1);
    assert(s0.report.suites =~= Seq::empty());
    assert forall|tag: TagView| #[trigger] written_as(tag, "testsuites"@, attrs) implies step()(
        s0,
        EventView::Start(tag),
    ) == Ok::<StateView, ErrorView>(s1) by {
        report_says(report, times.total, tag);
    }
    open_leads(step(), s0, "testsuites"@, attrs, s1);
    leads_on(step(), s0, a, s0, b, s1);
    suites_lead(named, report.suites, times, report.suites.len());
    let s2 = between(named, kept.suites);
    leads_on(step(), s0, a + b, s1, c, s2);
    at_rest(s2);
    close_leads(step(), s2, "testsuites"@, s2);
    leads_on(step(), s0, a + b + c, s2, d, s2);
    assert(a + b + c + d =~= report_items(report, times));
    arrives(step(), s0, report_items(report, times), s2, chunks);
    let events = events_of(chunks);
    folding_is_running(events);
    assert(events.push(EventView::Eof).drop_last() =~= events);
    assert(folded(events.push(EventView::Eof)) == Ok::<StateView, ErrorView>(s2));
    assert(s2.report == kept);
}

// ---------------------------------------------------------------------------
// The document
// ---------------------------------------------------------------------------

/// The names of the elements and attributes are plain.
proof fn names_are_plain()
    ensures
        plain_name("testsuites"@),
        plain_name("testsuite"@),
        plain_name("testcase"@),
        plain_name("properties"@),
        plain_name("property"@),
        plain_name("skipped"@),
        plain_name("failure"@),
        plain_name("error"@),
        plain_name("system-out"@),
        plain_name("system-err"@),
        plain_name("message"@),
        plain_name("type"@),
        plain_name("name"@),
        plain_name("classname"@),
        plain_name("file"@),
        plain_name("line"@),
        plain_name("time"@),
        plain_name("tests"@),
        plain_name("failures"@),
        plain_name("errors"@),
        plain_name("timestamp"@),
        plain_name("hostname"@),
        plain_name("value"@),
{
    reveal(plain_name);
    reveal_strlit("testsuites");
    reveal_strlit("testsuite");
    reveal_strlit("testcase");
    reveal_strlit("properties");
    reveal_strlit("property");
    reveal_strlit("skipped");
    reveal_strlit("failure");
    reveal_strlit("error");
    reveal_strlit("system-out");
    reveal_strlit("system-err");
    reveal_strlit("message");
    reveal_strlit("type");
    reveal_strlit("name");
    reveal_strlit("classname");
    reveal_strlit("file");
    reveal_strlit("line");
    reveal_strlit("time");
    reveal_strlit("tests");
    reveal_strlit("failures");
    reveal_strlit("errors");
    reveal_strlit("timestamp");
    reveal_strlit("hostname");
    reveal_strlit("value");
}

proof fn outcome_is_a_block(outcome: OutcomeView)
    ensures
        block(any_line(), outcome_items(outcome)),
{
    names_are_plain();
    assert forall|problem: ProblemView| #[trigger] plain_attrs(problem_attrs(problem)) by {}
    let items = outcome_items(outcome);
    assert forall|i: int| 0 <= i < items.len() implies whole(#[trigger] items[i]) by {
        match outcome {
            OutcomeView::Skipped { message } => {
                assert(plain_attrs(opt_attr("message"@, message)));
            },
            OutcomeView::Failed(problem) => {
                assert(plain_attrs(problem_attrs(problem)));
            },
            OutcomeView::Errored(problem) => {
                assert(plain_attrs(problem_attrs(problem)));
            },
            OutcomeView::Passed => {},
        }
    }
    whole_lines_are_a_block(any_line(), items);
}

proof fn case_is_a_block(case: TestCaseView, time: Seq<char>)
    ensures
        block(any_line(), case_items(case, time)),
{
    names_are_plain();
    let attrs = case_attrs(case, time);
    assert(plain_attrs(attrs));
    if case.outcome is Passed && case.system_out is None && case.system_err is None {
        one_line_is_a_block(any_line(), empty_item("testcase"@, attrs));
    } else {
        let outcome = outcome_items(case.outcome);
        let out = opt_text_items("system-out"@, case.system_out);
        let err = opt_text_items("system-err"@, case.system_err);
        outcome_is_a_block(case.outcome);
        opt_text_is_a_block("system-out"@, case.system_out);
        opt_text_is_a_block("system-err"@, case.system_err);
        blocks_together(any_line(), outcome, out);
        blocks_together(any_line(), outcome + out, err);
        let inner = outcome + out + err;
        element_is_a_block(any_line(), "testcase"@, attrs, inner);
        assert(case_items(case, time) =~= seq![open_item("testcase"@, attrs)] + inner + seq![
            close_item("testcase"@),
        ]);
    }
}

proof fn properties_are_a_block(properties: Seq<(Seq<char>, Seq<char>)>)
    ensures
        block(any_line(), properties_items(properties)),
{
    names_are_plain();
    if properties.len() == 0 {
        no_lines_are_a_block(any_line());
    } else {
        let inner = properties.map_values(
            |p: (Seq<char>, Seq<char>)| empty_item("property"@, property_attrs(p)),
        );
        assert forall|i: int| 0 <= i < inner.len() implies whole(#[trigger] inner[i]) by {
            assert(plain_attrs(property_attrs(properties[i])));
        }
        whole_lines_are_a_block(any_line(), inner);
        element_is_a_block(any_line(), "properties"@, Seq::empty(), inner);
    }
}

proof fn cases_are_a_block(cases: Seq<TestCaseView>, times: SuiteTimesView, n: nat)
    ensures
        block(any_line(), cases_items(cases, times, n)),
    decreases n,
{
    if n == 0 {
        no_lines_are_a_block(any_line());
    } else {
        cases_are_a_block(cases, times, (n - 1) as nat);
        case_is_a_block(cases[n - 1], times.case(n - 1));
        blocks_together(
            any_line(),
            cases_items(cases, times, (n - 1) as nat),
            case_items(cases[n - 1], times.case(n - 1)),
        );
    }
}

proof fn suite_is_a_block(suite: TestSuiteView, times: SuiteTimesView)
    ensures
        block(any_line(), suite_items(suite, times)),
{
    names_are_plain();
    let attrs = suite_attrs(suite, times.total);
    assert(plain_attrs(attrs));
    let properties = properties_items(suite.properties);
    let cases = cases_items(suite.cases, times, suite.cases.len());
    let out = opt_text_items("system-out"@, suite.system_out);
    let err = opt_text_items("system-err"@, suite.system_err);
    properties_are_a_block(suite.properties);
    cases_are_a_block(suite.cases, times, suite.cases.len());
    opt_text_is_a_block("system-out"@, suite.system_out);
    opt_text_is_a_block("system-err"@, suite.system_err);
    blocks_together(any_line(), properties, cases);
    blocks_together(any_line(), properties + cases, out);
    blocks_together(any_line(), properties + cases + out, err);
    let inner = properties + cases + out + err;
    element_is_a_block(any_line(), "testsuite"@, attrs, inner);
    assert(suite_items(suite, times) =~= seq![open_item("testsuite"@, attrs)] + inner + seq![
        close_item("testsuite"@),
    ]);
}

proof fn suites_are_a_block(suites: Seq<TestSuiteView>, times: TimesView, n: nat)
    ensures
        block(any_line(), suites_items(suites, times, n)),
    decreases n,
{
    if n == 0 {
        no_lines_are_a_block(any_line());
    } else {
        suites_are_a_block(suites, times, (n - 1) as nat);
        suite_is_a_block(suites[n - 1], times.suite(n - 1));
        blocks_together(
            any_line(),
            suites_items(suites, times, (n - 1) as nat),
            suite_items(suites[n - 1], times.suite(n - 1)),
        );
    }
}

/// What is written as JUnit XML is a document.
pub proof fn reports_are_well_formed(report: TestReportView, times: TimesView)
    ensures
        well_formed(report_items(report, times)),
{
    names_are_plain();
    let attrs = report_attrs(report, times.total);
    assert(plain_attrs(attrs));
    let inner = suites_items(report.suites, times, report.suites.len());
    suites_are_a_block(report.suites, times, report.suites.len());
    element_is_a_block(any_line(), "testsuites"@, attrs, inner);
    one_line_is_a_block(any_line(), declaration_item());
    let body = seq![open_item("testsuites"@, attrs)] + inner + seq![close_item("testsuites"@)];
    blocks_together(any_line(), seq![declaration_item()], body);
    assert(report_items(report, times) =~= seq![declaration_item()] + body);
    document_is_well_formed(any_line(), report_items(report, times));
}

/// Whether these bytes are the JUnit report of some test results.
pub open spec fn holds_report(input: Seq<u8>, report: TestReportView, times: TimesView) -> bool {
    input == encode_utf8(rendered(report_items(report, times)))
}

/// What was written reads back from its bytes.
pub(crate) proof fn written_bytes_read_back(
    input: Seq<u8>,
    events: Seq<EventView>,
    report: TestReportView,
    times: TimesView,
)
    requires
        faithful(input, events),
        holds_report(input, report, times),
    ensures
        read_spec(events) == Ok::<DocView, ErrorView>(
            DocView::Tests(kept_report(report, times)),
        ),
{
    let items = report_items(report, times);
    reports_are_well_formed(report, times);
    assert(echoes(events, items));
    let chunks = choose|chunks: Seq<Seq<EventView>>| #[trigger]
        reads_as(items, chunks) && events == events_of(chunks).push(EventView::Eof);
    reports_read_back(report, times, chunks);
}

} // verus!
