//! What reading and writing a JUnit report promises.

use vstd::prelude::*;

use crate::formats::tests::junit::{
    ended, folded, read_spec, report_attrs, started, stepped, suite_attrs, StateView,
};
use crate::model::tests::{
    count_cases, count_suites, total_cases, ElapsedView, OutcomeView, ProblemView, Tally,
    TestCaseView, TestReportView, TestSuiteView,
};
use crate::registry::DocView;
use crate::text::{decimal, trim};
use crate::value::non_empty;
use crate::xml::{EventView, TagView};

verus! {

proof fn names_differ()
    ensures
        "testsuites"@ != "testsuite"@ && "testsuites"@ != "property"@
            && "testsuites"@ != "testcase"@ && "testsuites"@ != "failure"@
            && "testsuites"@ != "error"@ && "testsuites"@ != "skipped"@
            && "testsuites"@ != "system-out"@ && "testsuites"@ != "system-err"@,
        "testsuite"@ != "property"@ && "testsuite"@ != "testcase"@ && "testsuite"@ != "failure"@
            && "testsuite"@ != "error"@ && "testsuite"@ != "skipped"@
            && "testsuite"@ != "system-out"@ && "testsuite"@ != "system-err"@,
        "property"@ != "testcase"@ && "property"@ != "failure"@ && "property"@ != "error"@
            && "property"@ != "skipped"@ && "property"@ != "system-out"@
            && "property"@ != "system-err"@,
        "testcase"@ != "failure"@ && "testcase"@ != "error"@ && "testcase"@ != "skipped"@
            && "testcase"@ != "system-out"@ && "testcase"@ != "system-err"@,
        "failure"@ != "error"@ && "failure"@ != "skipped"@ && "failure"@ != "system-out"@
            && "failure"@ != "system-err"@,
        "error"@ != "skipped"@ && "error"@ != "system-out"@ && "error"@ != "system-err"@,
        "skipped"@ != "system-out"@ && "skipped"@ != "system-err"@,
        "system-out"@ != "system-err"@,
{
    reveal_strlit("testsuites");
    reveal_strlit("testsuite");
    reveal_strlit("property");
    reveal_strlit("testcase");
    reveal_strlit("failure");
    reveal_strlit("error");
    reveal_strlit("skipped");
    reveal_strlit("system-out");
    reveal_strlit("system-err");
    assert("testsuites"@.len() == 10);
    assert("testsuite"@.len() == 9);
    assert("property"@.len() == 8);
    assert("testcase"@.len() == 8);
    assert("failure"@.len() == 7);
    assert("error"@.len() == 5);
    assert("skipped"@.len() == 7);
    assert("system-out"@.len() == 10);
    assert("system-err"@.len() == 10);
    assert("failure"@[0] == 'f');
    assert("property"@[0] == 'p');
    assert("skipped"@[0] == 's');
    assert("system-err"@[0] == 's');
    assert("system-err"@[7] == 'e');
    assert("system-out"@[0] == 's');
    assert("system-out"@[7] == 'o');
    assert("testcase"@[0] == 't');
    assert("testsuites"@[0] == 't');
}

// ---------------------------------------------------------------------------
// Cases
// ---------------------------------------------------------------------------

/// Whether a case is the one that a tag opens: under its name, with its class, its
/// file and line and its time, and passed as far as is known.
pub open spec fn opened(case: TestCaseView, tag: TagView) -> bool {
    &&& case.name == match tag.attr("name"@) {
        Some(name) => name,
        None => "(unnamed)"@,
    }
    &&& case.classname == tag.attr("classname"@)
    &&& case.file == tag.attr("file"@)
    &&& case.line == tag.attr_u32("line"@)
    &&& match tag.attr_number("time"@) {
        Some(time) => case.time == Some(ElapsedView::Seconds(time)),
        None => case.time is None,
    }
    &&& case.outcome is Passed
    &&& case.system_out is None
    &&& case.system_err is None
}

/// A `<testcase>` opens a case, and its end hands that, with whatever was found
/// out about it, to the innermost suite. One without content is handed over at
/// once.
pub proof fn cases_belong_to_the_innermost_suite(s: StateView, tag: TagView)
    requires
        tag.name == "testcase"@,
        s.suites.len() > 0,
    ensures
        ({
            let open = started(s, tag, false);
            let whole = started(s, tag, true);
            &&& open.case is Some && opened(open.case->0, tag)
            &&& open.suites == s.suites
            &&& whole.suites.len() == s.suites.len()
            &&& whole.suites.drop_last() == s.suites.drop_last()
            &&& whole.suites.last().cases.len() == s.suites.last().cases.len() + 1
            &&& whole.suites.last().cases.drop_last() == s.suites.last().cases
            &&& opened(whole.suites.last().cases.last(), tag)
            &&& whole.suites.last().name == s.suites.last().name
        }),
        s.case matches Some(case) ==> {
            let after = ended(s, "testcase"@);
            &&& after.case is None
            &&& after.suites.len() == s.suites.len()
            &&& after.suites.drop_last() == s.suites.drop_last()
            &&& after.suites.last().cases == s.suites.last().cases.push(case)
            &&& after.suites.last().name == s.suites.last().name
        },
{
    names_differ();
    let whole = started(s, tag, true);
    assert(whole.suites.drop_last() =~= s.suites.drop_last());
    assert(whole.suites.last().cases.drop_last() =~= s.suites.last().cases);
    if s.case is Some {
        let after = ended(s, "testcase"@);
        assert(after.suites.drop_last() =~= s.suites.drop_last());
    }
}

/// The problem that a tag and the text in it state.
pub open spec fn problem(tag: TagView, text: Option<Seq<char>>) -> ProblemView {
    ProblemView { message: tag.attr("message"@), kind: tag.attr("type"@), detail: text }
}

/// A `<failure>` in a case makes it failed, an `<error>` ended in an error, each
/// with its message, its type and the text in it; a `<skipped>` makes it skipped.
/// Nothing else about the case changes.
pub proof fn problems_decide_the_outcome(s: StateView, tag: TagView, text: Seq<char>)
    requires
        s.case is Some,
    ensures
        tag.name == "failure"@ || tag.name == "error"@ ==> {
            let is_failure = tag.name == "failure"@;
            let bare = started(s, tag, true);
            let open = started(s, tag, false);
            let read = stepped(open, EventView::CData(text));
            &&& bare.case is Some
            &&& bare.case->0 == (TestCaseView { outcome: bare.case->0.outcome, ..s.case->0 })
            &&& bare.case->0.outcome == if is_failure {
                OutcomeView::Failed(problem(tag, None))
            } else {
                OutcomeView::Errored(problem(tag, None))
            }
            &&& match read {
                Ok(inside) => {
                    let after = ended(inside, tag.name);
                    let detail = if trim(text).len() > 0 {
                        Some(trim(text))
                    } else {
                        None
                    };
                    &&& after.case is Some
                    &&& after.case->0 == (TestCaseView {
                        outcome: after.case->0.outcome,
                        ..s.case->0
                    })
                    &&& after.case->0.outcome == if is_failure {
                        OutcomeView::Failed(problem(tag, detail))
                    } else {
                        OutcomeView::Errored(problem(tag, detail))
                    }
                    &&& after.suites == s.suites
                    &&& after.sink is Discard
                },
                Err(_) => false,
            }
        },
        tag.name == "skipped"@ ==> forall|empty: bool|
            {
                let after = #[trigger] started(s, tag, empty);
                &&& after.case is Some
                &&& after.case->0 == (TestCaseView { outcome: after.case->0.outcome, ..s.case->0 })
                &&& after.case->0.outcome == (OutcomeView::Skipped {
                    message: tag.attr("message"@),
                })
            },
{
    names_differ();
    if tag.name == "failure"@ || tag.name == "error"@ {
        let open = started(s, tag, false);
        assert(open.text =~= Seq::empty());
        assert(Seq::<char>::empty() + text =~= text);
    }
}

/// What a `<system-out>` or `<system-err>` holds is the output of the case it is
/// in, or outside any of the innermost suite.
pub proof fn output_belongs_where_it_stands(s: StateView, tag: TagView, text: Seq<char>)
    requires
        tag.name == "system-out"@ || tag.name == "system-err"@,
        s.suites.len() > 0,
    ensures
        match stepped(started(s, tag, false), EventView::CData(text)) {
            Ok(inside) => {
                let after = ended(inside, tag.name);
                let kept = if trim(text).len() > 0 {
                    Some(trim(text))
                } else {
                    None
                };
                let is_out = tag.name == "system-out"@;
                &&& match s.case {
                    Some(case) => {
                        &&& after.suites == s.suites
                        &&& after.case is Some
                        &&& after.case->0.outcome == case.outcome
                        &&& is_out ==> after.case->0.system_out == kept
                            && after.case->0.system_err == case.system_err
                        &&& !is_out ==> after.case->0.system_err == kept
                            && after.case->0.system_out == case.system_out
                    },
                    None => {
                        let suite = s.suites.last();
                        &&& after.case is None
                        &&& after.suites.drop_last() == s.suites.drop_last()
                        &&& after.suites.last().cases == suite.cases
                        &&& is_out ==> after.suites.last().system_out == kept
                            && after.suites.last().system_err == suite.system_err
                        &&& !is_out ==> after.suites.last().system_err == kept
                            && after.suites.last().system_out == suite.system_out
                    },
                }
                &&& after.sink is Discard
            },
            Err(_) => false,
        },
{
    names_differ();
    let open = started(s, tag, false);
    assert(open.text =~= Seq::empty());
    assert(Seq::<char>::empty() + text =~= text);
    let inside = stepped(open, EventView::CData(text))->Ok_0;
    let after = ended(inside, tag.name);
    assert(after.suites.drop_last() =~= s.suites.drop_last());
}

// ---------------------------------------------------------------------------
// Suites
// ---------------------------------------------------------------------------

/// A `<testsuite>` opens a suite without cases, under its name and with its time,
/// host and file, inside those that are open.
pub proof fn suites_open_inside_one_another(s: StateView, tag: TagView)
    requires
        tag.name == "testsuite"@,
    ensures
        ({
            let after = started(s, tag, false);
            let suite = after.suites.last();
            &&& after.saw_root
            &&& after.suites.len() == s.suites.len() + 1
            &&& after.suites.drop_last() == s.suites
            &&& after.report == s.report
            &&& suite.name == match tag.attr("name"@) {
                Some(name) => name,
                None => "(unnamed)"@,
            }
            &&& suite.timestamp == tag.attr("timestamp"@)
            &&& suite.hostname == tag.attr("hostname"@)
            &&& suite.file == tag.attr("file"@)
            &&& match tag.attr_number("time"@) {
                Some(time) => suite.time == Some(ElapsedView::Seconds(time)),
                None => suite.time is None,
            }
            &&& suite.cases.len() == 0
            &&& suite.properties.len() == 0
        }),
{
    names_differ();
    assert(started(s, tag, false).suites.drop_last() =~= s.suites);
}

/// A suite goes to the report at its end, as it is but for its name: one inside
/// another has that one's name in front of its own.
pub proof fn nested_suites_are_named_by_their_path(s: StateView)
    requires
        s.suites.len() > 0,
    ensures
        ({
            let after = ended(s, "testsuite"@);
            let suite = s.suites.last();
            let kept = after.report.suites.last();
            &&& after.suites == s.suites.drop_last()
            &&& after.report.suites.len() == s.report.suites.len() + 1
            &&& after.report.suites.drop_last() == s.report.suites
            &&& after.report.name == s.report.name
            &&& kept == (TestSuiteView { name: kept.name, ..suite })
            &&& s.suites.len() == 1 ==> kept.name == suite.name
            &&& s.suites.len() > 1 ==> kept.name == s.suites[s.suites.len() - 2].name + "."@
                + suite.name
        }),
{
    names_differ();
    let after = ended(s, "testsuite"@);
    assert(after.report.suites.drop_last() =~= s.report.suites);
}

/// A `<property>` is one of the innermost suite, behind those it has.
pub proof fn properties_belong_to_the_innermost_suite(s: StateView, tag: TagView)
    requires
        tag.name == "property"@,
        s.suites.len() > 0,
        tag.attr("name"@) is Some,
    ensures
        forall|empty: bool|
            {
                let after = #[trigger] started(s, tag, empty);
                let suite = after.suites.last();
                &&& after.suites.drop_last() == s.suites.drop_last()
                &&& suite.properties == s.suites.last().properties.push(
                    (
                        tag.attr("name"@)->0,
                        match tag.attr("value"@) {
                            Some(value) => value,
                            None => ""@,
                        },
                    ),
                )
                &&& suite.cases == s.suites.last().cases
            },
{
    names_differ();
    assert forall|empty: bool| (#[trigger] started(s, tag, empty)).suites.drop_last()
        == s.suites.drop_last() by {
        assert(started(s, tag, empty).suites.drop_last() =~= s.suites.drop_last());
    }
}

/// A report with its root has the suites that were read, under the name of the
/// root; without one it is refused.
pub proof fn read_suites_are_reported(events: Seq<EventView>)
    requires
        folded(events) is Ok,
    ensures
        match read_spec(events) {
            Ok(DocView::Tests(report)) => folded(events)->Ok_0.saw_root && report == folded(
                events,
            )->Ok_0.report,
            Ok(_) => false,
            Err(_) => !folded(events)->Ok_0.saw_root,
        },
        forall|s: StateView, tag: TagView, empty: bool|
            tag.name == "testsuites"@ ==> {
                let after = #[trigger] started(s, tag, empty);
                &&& after.saw_root
                &&& after.report.name == non_empty(tag.attr("name"@))
                &&& after.report.suites == s.report.suites
            },
{
    names_differ();
}

// ---------------------------------------------------------------------------
// Numbers
// ---------------------------------------------------------------------------

/// A suite is written with the number of its cases and of those that failed, ended
/// in an error or were skipped, and so is the report with those of all its suites.
pub proof fn numbers_are_written_by_name(
    suite: TestSuiteView,
    report: TestReportView,
    total: Seq<char>,
)
    ensures
        ({
            let a = suite_attrs(suite, total);
            &&& a.contains(("name"@, suite.name))
            &&& a.contains(("tests"@, decimal(suite.cases.len())))
            &&& a.contains(("failures"@, decimal(count_cases(suite.cases, Tally::Failed))))
            &&& a.contains(("errors"@, decimal(count_cases(suite.cases, Tally::Errored))))
            &&& a.contains(("skipped"@, decimal(count_cases(suite.cases, Tally::Skipped))))
            &&& a.contains(("time"@, total))
        }),
        ({
            let a = report_attrs(report, total);
            let n = report.suites;
            &&& a.contains(("tests"@, decimal(total_cases(n) as nat)))
            &&& a.contains(("failures"@, decimal(count_suites(n, Tally::Failed) as nat)))
            &&& a.contains(("errors"@, decimal(count_suites(n, Tally::Errored) as nat)))
            &&& a.contains(("skipped"@, decimal(count_suites(n, Tally::Skipped) as nat)))
            &&& a.contains(("time"@, total))
            &&& (report.name matches Some(name) ==> a.contains(("name"@, name)))
        }),
{
    let a = suite_attrs(suite, total);
    assert(a[0].0 == "name"@ && a[1].0 == "tests"@ && a[2].0 == "failures"@);
    assert(a[3].0 == "errors"@ && a[4].0 == "skipped"@ && a[5].0 == "time"@);
    let r = report_attrs(report, total);
    let n: int = if report.name is Some {
        1
    } else {
        0
    };
    assert(report.name is Some ==> r[0].0 == "name"@);
    assert(r[n].0 == "tests"@ && r[n + 1].0 == "failures"@ && r[n + 2].0 == "errors"@);
    assert(r[n + 3].0 == "skipped"@ && r[n + 4].0 == "time"@);
}

} // verus!
