//! What reading a `go test -json` stream promises.

use vstd::prelude::*;

use crate::formats::tests::gotest::{
    carried, case_of, event_noted, event_of, first_meaningful, ignored, meaningful, new_package,
    noted, opt_suite, package_at, package_noted, packages_of, read_spec, suite_of, surplus, test_at,
    test_noted, test_outcome, AccumulatedView, PackageView, TestView,
};
use crate::json::JsonView;
use crate::model::tests::{ElapsedView, OutcomeView, TestSuiteView};
use crate::registry::DocView;
use crate::text::{starts_with, trim, trim_end};
use crate::value::{flat, opt_list, parts_are_in_the_whole};
use crate::warn::CtxView;

verus! {

// ---------------------------------------------------------------------------
// What is known of a test
// ---------------------------------------------------------------------------

proof fn package_at_props(packages: Seq<PackageView>, name: Seq<char>)
    ensures
        0 <= package_at(packages, name) <= packages.len(),
        package_at(packages, name) < packages.len() ==> packages[package_at(packages, name)].name
            == name,
        forall|i: int| 0 <= i < package_at(packages, name) ==> (#[trigger] packages[i]).name != name,
    decreases packages.len(),
{
    if packages.len() > 0 && packages[0].name != name {
        let tail = packages.skip(1);
        package_at_props(tail, name);
        assert forall|i: int| 0 <= i < package_at(packages, name) implies (
        #[trigger] packages[i]).name != name by {
            if i > 0 {
                assert(packages[i] == tail[i - 1]);
            }
        }
        let at = package_at(tail, name);
        if at < tail.len() {
            assert(packages[at + 1] == tail[at]);
        }
    }
}

proof fn package_is_at(packages: Seq<PackageView>, name: Seq<char>, i: int)
    requires
        0 <= i < packages.len(),
        packages[i].name == name,
        forall|j: int| 0 <= j < i ==> (#[trigger] packages[j]).name != name,
    ensures
        package_at(packages, name) == i,
{
    package_at_props(packages, name);
    if package_at(packages, name) > i {
        assert(packages[i].name != name);
    }
}

proof fn test_at_props(tests: Seq<TestView>, name: Seq<char>)
    ensures
        0 <= test_at(tests, name) <= tests.len(),
        test_at(tests, name) < tests.len() ==> tests[test_at(tests, name)].name == name,
        forall|i: int| 0 <= i < test_at(tests, name) ==> (#[trigger] tests[i]).name != name,
    decreases tests.len(),
{
    if tests.len() > 0 && tests[0].name != name {
        let tail = tests.skip(1);
        test_at_props(tail, name);
        assert forall|i: int| 0 <= i < test_at(tests, name) implies (#[trigger] tests[i]).name
            != name by {
            if i > 0 {
                assert(tests[i] == tail[i - 1]);
            }
        }
        let at = test_at(tail, name);
        if at < tail.len() {
            assert(tests[at + 1] == tail[at]);
        }
    }
}

proof fn test_is_at(tests: Seq<TestView>, name: Seq<char>, i: int)
    requires
        0 <= i < tests.len(),
        tests[i].name == name,
        forall|j: int| 0 <= j < i ==> (#[trigger] tests[j]).name != name,
    ensures
        test_at(tests, name) == i,
{
    test_at_props(tests, name);
    if test_at(tests, name) > i {
        assert(tests[i].name != name);
    }
}

/// What is known of a test of these tests.
spec fn state_of(tests: Seq<TestView>, test: Seq<char>) -> Option<AccumulatedView> {
    let at = test_at(tests, test);
    if at < tests.len() {
        Some(tests[at].state)
    } else {
        None
    }
}

/// What is known of a test of a package.
spec fn known(packages: Seq<PackageView>, package: Seq<char>, test: Seq<char>) -> Option<
    AccumulatedView,
> {
    let at = package_at(packages, package);
    if at < packages.len() {
        state_of(packages[at].tests, test)
    } else {
        None
    }
}

proof fn noting_changes_one_test(
    tests: Seq<TestView>,
    name: Seq<char>,
    event: JsonView,
    test: Seq<char>,
)
    ensures
        state_of(test_noted(tests, name, event), test) == if test == name {
            Some(
                noted(
                    match state_of(tests, name) {
                        Some(state) => state,
                        None => AccumulatedView::empty(),
                    },
                    event,
                ),
            )
        } else {
            state_of(tests, test)
        },
{
    let after = test_noted(tests, name, event);
    let at = test_at(tests, name);
    let there = test_at(tests, test);
    test_at_props(tests, name);
    test_at_props(tests, test);
    test_at_props(after, test);
    if test == name {
        assert forall|j: int| 0 <= j < at implies (#[trigger] after[j]).name != name by {
            assert(after[j] == tests[j]);
        }
        test_is_at(after, name, at);
    } else if there < tests.len() {
        assert forall|j: int| 0 <= j < there implies (#[trigger] after[j]).name != test by {
            assert(after[j].name == tests[j].name);
        }
        assert(after[there] == tests[there]);
        test_is_at(after, test, there);
    } else {
        let now = test_at(after, test);
        if now < after.len() {
            if now < tests.len() {
                assert(tests[now].name == after[now].name);
            }
        }
    }
}

proof fn noting_changes_one_package(
    packages: Seq<PackageView>,
    event: JsonView,
    package: Seq<char>,
)
    ensures
        ({
            let after = event_noted(packages, event);
            let at = package_at(packages, package);
            let now = package_at(after, package);
            if event.get("Package"@).text() == Some(package) {
                &&& now < after.len()
                &&& after[now] == package_noted(
                    if at < packages.len() {
                        packages[at]
                    } else {
                        new_package(package)
                    },
                    event,
                )
            } else {
                &&& now < after.len() <==> at < packages.len()
                &&& at < packages.len() ==> after[now] == packages[at]
            }
        }),
{
    let after = event_noted(packages, event);
    package_at_props(packages, package);
    package_at_props(after, package);
    let at = package_at(packages, package);
    if let Some(name) = event.get("Package"@).text() {
        package_at_props(packages, name);
        let other = package_at(packages, name);
        assert forall|j: int| 0 <= j < packages.len() implies (#[trigger] after[j]).name
            == packages[j].name by {}
        if at < packages.len() {
            assert forall|j: int| 0 <= j < at implies (#[trigger] after[j]).name != package by {
                assert(after[j].name == packages[j].name);
            }
            assert(after[at].name == packages[at].name);
            package_is_at(after, package, at);
        } else if name == package {
            assert forall|j: int| 0 <= j < at implies (#[trigger] after[j]).name != package by {
                assert(after[j].name == packages[j].name);
            }
            package_is_at(after, package, at);
        } else {
            let now = package_at(after, package);
            if now < after.len() && now < packages.len() {
                assert(packages[now].name == after[now].name);
            }
        }
    }
}

/// Whether the line is an event of this test.
pub open spec fn concerns(line: Option<JsonView>, package: Seq<char>, test: Seq<char>) -> bool {
    event_of(line) matches Some(event) && event.get("Package"@).text() == Some(package)
        && event.get("Test"@).text() == Some(test)
}

/// Whether the line is an event of this package as a whole.
pub open spec fn is_of_package(line: Option<JsonView>, package: Seq<char>) -> bool {
    event_of(line) matches Some(event) && event.get("Package"@).text() == Some(package)
        && event.get("Test"@).text() is None
}

/// What an event does.
pub open spec fn action_of(line: Option<JsonView>) -> Option<Seq<char>> {
    match event_of(line) {
        Some(event) => event.get("Action"@).text(),
        None => None,
    }
}

/// Whether the line ends what it is about.
pub open spec fn terminates(line: Option<JsonView>) -> bool {
    action_of(line) == Some("pass"@) || action_of(line) == Some("fail"@) || action_of(line) == Some(
        "skip"@,
    )
}

proof fn actions_differ()
    ensures
        "pass"@ != "fail"@ && "pass"@ != "skip"@ && "fail"@ != "skip"@,
        "output"@ != "pass"@ && "output"@ != "fail"@ && "output"@ != "skip"@,
        ""@ != "pass"@ && ""@ != "fail"@ && ""@ != "skip"@ && ""@ != "output"@,
{
    reveal_strlit("pass");
    reveal_strlit("fail");
    reveal_strlit("skip");
    reveal_strlit("output");
    reveal_strlit("");
    assert("pass"@[0] == 'p' && "fail"@[0] == 'f' && "skip"@[0] == 's');
    assert("output"@.len() == 6 && "pass"@.len() == 4 && "fail"@.len() == 4 && "skip"@.len() == 4
        && ""@.len() == 0);
}

proof fn one_more_line(all: Seq<Option<JsonView>>, package: Seq<char>, test: Seq<char>)
    requires
        all.len() > 0,
    ensures
        known(packages_of(all), package, test) == if concerns(all.last(), package, test) {
            Some(
                noted(
                    match known(packages_of(all.drop_last()), package, test) {
                        Some(state) => state,
                        None => AccumulatedView::empty(),
                    },
                    event_of(all.last())->0,
                ),
            )
        } else {
            known(packages_of(all.drop_last()), package, test)
        },
{
    let before = packages_of(all.drop_last());
    if let Some(event) = event_of(all.last()) {
        noting_changes_one_package(before, event, package);
        package_at_props(before, package);
        let at = package_at(before, package);
        if event.get("Package"@).text() == Some(package) {
            let tests = if at < before.len() {
                before[at].tests
            } else {
                Seq::empty()
            };
            if let Some(name) = event.get("Test"@).text() {
                noting_changes_one_test(tests, name, event, test);
            }
            if at >= before.len() {
                assert(state_of(Seq::empty(), test) is None);
            }
        }
    }
}

/// What a test printed, in the order of the events.
pub open spec fn printed(
    all: Seq<Option<JsonView>>,
    package: Seq<char>,
    test: Seq<char>,
) -> Seq<char>
    decreases all.len(),
{
    if all.len() == 0 {
        Seq::empty()
    } else {
        let before = printed(all.drop_last(), package, test);
        if concerns(all.last(), package, test) && action_of(all.last()) == Some("output"@) {
            match event_of(all.last())->0.get("Output"@).text() {
                Some(text) => before + text,
                None => before,
            }
        } else {
            before
        }
    }
}

proof fn tests_are_known_by_their_events(
    all: Seq<Option<JsonView>>,
    package: Seq<char>,
    test: Seq<char>,
)
    ensures
        match known(packages_of(all), package, test) {
            Some(state) => state.output == printed(all, package, test),
            None => printed(all, package, test).len() == 0,
        },
        known(packages_of(all), package, test) is Some <==> exists|i: int|
            0 <= i < all.len() && concerns(#[trigger] all[i], package, test),
    decreases all.len(),
{
    if all.len() == 0 {
        assert(package_at(packages_of(all), package) == 0);
    } else {
        actions_differ();
        reveal_strlit("");
        let head = all.drop_last();
        tests_are_known_by_their_events(head, package, test);
        one_more_line(all, package, test);
        if exists|i: int| 0 <= i < head.len() && concerns(#[trigger] head[i], package, test) {
            let i = choose|i: int| 0 <= i < head.len() && concerns(#[trigger] head[i], package, test);
            assert(all[i] == head[i]);
        }
        if exists|i: int| 0 <= i < all.len() && concerns(#[trigger] all[i], package, test) {
            let i = choose|i: int| 0 <= i < all.len() && concerns(#[trigger] all[i], package, test);
            if i < head.len() {
                assert(head[i] == all[i]);
            }
        }
        assert(all[all.len() - 1] == all.last());
        if concerns(all.last(), package, test) {
            let state = known(packages_of(all), package, test)->0;
            assert(state.output =~= printed(all, package, test));
        }
    }
}

proof fn the_last_end_is_known(
    all: Seq<Option<JsonView>>,
    package: Seq<char>,
    test: Seq<char>,
    i: int,
)
    requires
        0 <= i < all.len(),
        concerns(all[i], package, test),
        terminates(all[i]),
        forall|j: int|
            i < j < all.len() && concerns(#[trigger] all[j], package, test) ==> !terminates(
                all[j],
            ),
    ensures
        known(packages_of(all), package, test) matches Some(state) && state.outcome == action_of(
            all[i],
        ) && (event_of(all[i])->0.get("Elapsed"@).literal() matches Some(text) ==> state.elapsed
            == Some(ElapsedView::Seconds(text))),
    decreases all.len(),
{
    actions_differ();
    one_more_line(all, package, test);
    let head = all.drop_last();
    if i < all.len() - 1 {
        assert(head[i] == all[i]);
        assert forall|j: int|
            i < j < head.len() && concerns(#[trigger] head[j], package, test) implies !terminates(
            head[j],
        ) by {
            assert(all[j] == head[j]);
        }
        the_last_end_is_known(head, package, test, i);
        assert(all[all.len() - 1] == all.last());
    }
}

proof fn without_an_end_there_is_no_outcome(
    all: Seq<Option<JsonView>>,
    package: Seq<char>,
    test: Seq<char>,
)
    requires
        forall|j: int|
            0 <= j < all.len() && concerns(#[trigger] all[j], package, test) ==> !terminates(
                all[j],
            ),
    ensures
        known(packages_of(all), package, test) matches Some(state) ==> state.outcome is None,
    decreases all.len(),
{
    if all.len() == 0 {
        assert(package_at(packages_of(all), package) == 0);
    } else {
        actions_differ();
        one_more_line(all, package, test);
        let head = all.drop_last();
        assert forall|j: int|
            0 <= j < head.len() && concerns(#[trigger] head[j], package, test) implies !terminates(
            head[j],
        ) by {
            assert(all[j] == head[j]);
        }
        without_an_end_there_is_no_outcome(head, package, test);
        assert(all[all.len() - 1] == all.last());
    }
}

// ---------------------------------------------------------------------------
// The report
// ---------------------------------------------------------------------------

/// The case of a test in a report.
pub open spec fn is_case(
    suites: Seq<TestSuiteView>,
    s: int,
    c: int,
    package: Seq<char>,
    test: Seq<char>,
) -> bool {
    0 <= s < suites.len() && suites[s].name == package && 0 <= c < suites[s].cases.len()
        && suites[s].cases[c].name == test && suites[s].cases[c].classname == Some(package)
}

proof fn events_were_read(all: Seq<Option<JsonView>>, i: int)
    requires
        0 <= i < all.len(),
        event_of(all[i]) is Some,
    ensures
        ignored(all) < all.len(),
    decreases all.len(),
{
    ignored_lines_are_lines(all.drop_last());
    if i < all.len() - 1 {
        assert(all.drop_last()[i] == all[i]);
        events_were_read(all.drop_last(), i);
    }
}

proof fn ignored_lines_are_lines(all: Seq<Option<JsonView>>)
    ensures
        ignored(all) <= all.len(),
    decreases all.len(),
{
    if all.len() > 0 {
        ignored_lines_are_lines(all.drop_last());
    }
}

proof fn known_tests_are_reported(
    all: Seq<Option<JsonView>>,
    ctx: CtxView,
    package: Seq<char>,
    test: Seq<char>,
) -> (at: (int, int))
    requires
        known(packages_of(all), package, test) is Some,
    ensures
        read_spec(all, ctx).0 matches Ok(DocView::Tests(report)) && is_case(
            report.suites,
            at.0,
            at.1,
            package,
            test,
        ) && report.suites[at.0].cases[at.1] == case_of(
            package,
            TestView { name: test, state: known(packages_of(all), package, test)->0 },
        ),
{
    let packages = packages_of(all);
    package_at_props(packages, package);
    let p = package_at(packages, package);
    let tests = packages[p].tests;
    test_at_props(tests, test);
    let t = test_at(tests, test);
    let suite = suite_of(packages[p]);
    assert(suite.cases[t] == case_of(package, tests[t]));
    assert(tests[t] == (TestView { name: test, state: tests[t].state }));
    let give = |p: PackageView| opt_list(opt_suite(p));
    parts_are_in_the_whole(packages, give, p, 0);
    assert(give(packages[p])[0] == suite);
    let suites = flat(packages, give);
    let s = choose|s: int| 0 <= s < suites.len() && suites[s] == suite;
    tests_are_known_by_their_events(all, package, test);
    let i = choose|i: int| 0 <= i < all.len() && concerns(#[trigger] all[i], package, test);
    events_were_read(all, i);
    (s, t)
}

/// The last event that ends a test decides: the case is failed exactly where it
/// is `fail`, passed exactly where it is `pass` and skipped exactly where it is
/// `skip`, whatever the test printed. How long it took is what that event says.
pub proof fn the_last_end_decides(
    all: Seq<Option<JsonView>>,
    ctx: CtxView,
    package: Seq<char>,
    test: Seq<char>,
    i: int,
)
    requires
        0 <= i < all.len(),
        concerns(all[i], package, test),
        terminates(all[i]),
        forall|j: int|
            i < j < all.len() && concerns(#[trigger] all[j], package, test) ==> !terminates(
                all[j],
            ),
    ensures
        match read_spec(all, ctx).0 {
            Ok(DocView::Tests(report)) => exists|s: int, c: int|
                #[trigger] is_case(report.suites, s, c, package, test) && {
                    let case = report.suites[s].cases[c];
                    &&& case.outcome is Failed <==> action_of(all[i]) == Some("fail"@)
                    &&& case.outcome is Passed <==> action_of(all[i]) == Some("pass"@)
                    &&& case.outcome is Skipped <==> action_of(all[i]) == Some("skip"@)
                    &&& (event_of(all[i])->0.get("Elapsed"@).literal() matches Some(text)
                        ==> case.time == Some(ElapsedView::Seconds(text)))
                },
            _ => false,
        },
{
    actions_differ();
    the_last_end_is_known(all, package, test, i);
    let (s, c) = known_tests_are_reported(all, ctx, package, test);
    let report = read_spec(all, ctx).0->Ok_0->Tests_0;
    assert(is_case(report.suites, s, c, package, test));
}

/// A test that no event ends neither passed nor failed.
pub proof fn unfinished_tests_are_skipped(
    all: Seq<Option<JsonView>>,
    ctx: CtxView,
    package: Seq<char>,
    test: Seq<char>,
    i: int,
)
    requires
        0 <= i < all.len(),
        concerns(all[i], package, test),
        forall|j: int|
            0 <= j < all.len() && concerns(#[trigger] all[j], package, test) ==> !terminates(
                all[j],
            ),
    ensures
        match read_spec(all, ctx).0 {
            Ok(DocView::Tests(report)) => exists|s: int, c: int|
                #[trigger] is_case(report.suites, s, c, package, test)
                    && report.suites[s].cases[c].outcome is Skipped
                    && report.suites[s].cases[c].outcome->message is Some,
            _ => false,
        },
{
    actions_differ();
    tests_are_known_by_their_events(all, package, test);
    without_an_end_there_is_no_outcome(all, package, test);
    let (s, c) = known_tests_are_reported(all, ctx, package, test);
    let report = read_spec(all, ctx).0->Ok_0->Tests_0;
    assert(is_case(report.suites, s, c, package, test));
}

/// What a failed test printed is the detail of its failure; what another test
/// printed is its output.
pub proof fn what_a_test_printed_is_kept(
    all: Seq<Option<JsonView>>,
    ctx: CtxView,
    package: Seq<char>,
    test: Seq<char>,
    i: int,
)
    requires
        0 <= i < all.len(),
        concerns(all[i], package, test),
    ensures
        match read_spec(all, ctx).0 {
            Ok(DocView::Tests(report)) => exists|s: int, c: int|
                #[trigger] is_case(report.suites, s, c, package, test) && {
                    let case = report.suites[s].cases[c];
                    let text = trim_end(printed(all, package, test));
                    match case.outcome {
                        OutcomeView::Failed(problem) => problem.detail == if text.len() > 0 {
                            Some(text)
                        } else {
                            None
                        },
                        OutcomeView::Passed => case.system_out == if trim(text).len() > 0 {
                            Some(text)
                        } else {
                            None
                        },
                        _ => true,
                    }
                },
            _ => false,
        },
{
    tests_are_known_by_their_events(all, package, test);
    let (s, c) = known_tests_are_reported(all, ctx, package, test);
    let report = read_spec(all, ctx).0->Ok_0->Tests_0;
    assert(is_case(report.suites, s, c, package, test));
}

/// A message is the first line that is not scaffolding, without the white space
/// around it, and there is none only where every line is scaffolding.
pub proof fn messages_are_the_first_telling_line(all: Seq<Seq<char>>)
    ensures
        match first_meaningful(all) {
            Some(message) => exists|i: int|
                0 <= i < all.len() && trim(#[trigger] all[i]) == message && message.len() > 0
                    && !starts_with(message, "=== "@) && !starts_with(message, "--- "@) && message
                    != "FAIL"@ && message != "PASS"@ && forall|j: int|
                    0 <= j < i ==> is_scaffolding(#[trigger] all[j]),
            None => forall|i: int| 0 <= i < all.len() ==> is_scaffolding(#[trigger] all[i]),
        },
    decreases all.len(),
{
    if all.len() > 0 && !meaningful(trim(all[0])) {
        let tail = all.skip(1);
        messages_are_the_first_telling_line(tail);
        match first_meaningful(tail) {
            Some(message) => {
                let i = choose|i: int|
                    0 <= i < tail.len() && trim(#[trigger] tail[i]) == message && forall|j: int|
                        0 <= j < i ==> is_scaffolding(#[trigger] tail[j]);
                assert(all[i + 1] == tail[i]);
                assert forall|j: int| 0 <= j < i + 1 implies is_scaffolding(#[trigger] all[j]) by {
                    if j > 0 {
                        assert(all[j] == tail[j - 1]);
                    }
                }
            },
            None => {
                assert forall|i: int| 0 <= i < all.len() implies is_scaffolding(
                    #[trigger] all[i],
                ) by {
                    if i > 0 {
                        assert(all[i] == tail[i - 1]);
                    }
                }
            },
        }
    } else if all.len() > 0 {
        assert(trim(all[0]) == first_meaningful(all)->0);
    }
}

/// Whether a line is what `go test` prints of its own, or nothing.
pub open spec fn is_scaffolding(line: Seq<char>) -> bool {
    trim(line).len() == 0 || starts_with(trim(line), "=== "@) || starts_with(trim(line), "--- "@)
        || trim(line) == "FAIL"@ || trim(line) == "PASS"@
}

/// A failed case is either a test that an event ended with `fail`, or stands for
/// a package that one did.
pub proof fn failures_are_not_invented(package: PackageView, c: int)
    requires
        0 <= c < suite_of(package).cases.len(),
        suite_of(package).cases[c].outcome is Failed,
    ensures
        c < package.tests.len() ==> package.tests[c].state.outcome == Some("fail"@),
        c >= package.tests.len() ==> package.own.outcome == Some("fail"@) && forall|t: int|
            0 <= t < package.tests.len() ==> (#[trigger] package.tests[t]).state.outcome != Some(
                "fail"@,
            ),
{
    actions_differ();
    let cases = suite_of(package).cases;
    if c < package.tests.len() {
        assert(cases[c] == case_of(package.name, package.tests[c]));
    } else {
        assert forall|t: int| 0 <= t < package.tests.len() implies (
        #[trigger] package.tests[t]).state.outcome != Some("fail"@) by {
            assert(!(test_outcome(package.tests[t].state) is Failed));
        }
    }
}

/// The suite of a package has a case for each of its tests, in their order, under
/// the package's name and with its time. A package that failed without a test that
/// did has one case more, which says so.
pub proof fn packages_become_suites(package: PackageView, t: int)
    ensures
        ({
            let suite = suite_of(package);
            let n = package.tests.len();
            &&& suite.name == package.name
            &&& suite.timestamp == package.timestamp
            &&& suite.time == package.own.elapsed
            &&& 0 <= t < n ==> {
                &&& suite.cases[t].name == package.tests[t].name
                &&& suite.cases[t].classname == Some(package.name)
                &&& suite.cases[t].time == package.tests[t].state.elapsed
                &&& suite.cases[t].outcome == test_outcome(package.tests[t].state)
            }
            &&& suite.cases.len() == n || suite.cases.len() == n + 1
            &&& suite.cases.len() == n + 1 <==> package.own.outcome == Some("fail"@)
                && forall|i: int|
                0 <= i < n ==> !(test_outcome((#[trigger] package.tests[i]).state) is Failed)
            &&& suite.cases.len() == n + 1 ==> {
                &&& suite.cases[n as int].outcome is Failed
                &&& suite.cases[n as int].classname == Some(package.name)
            }
        }),
{
    let suite = suite_of(package);
    if 0 <= t < package.tests.len() {
        assert(suite.cases[t] == case_of(package.name, package.tests[t]));
    }
}

/// What a test printed is kept beside its outcome, unless it is blank or the
/// outcome already says it.
pub proof fn output_is_not_said_twice(output: Seq<char>, outcome: OutcomeView)
    ensures
        match surplus(output, outcome) {
            Some(text) => text == trim_end(output) && trim(text).len() > 0 && carried(outcome)
                != Some(text),
            None => trim(trim_end(output)).len() == 0 || carried(outcome) == Some(
                trim_end(output),
            ) || carried(outcome) == Some(trim(trim_end(output))),
        },
        carried(outcome) == match outcome {
            OutcomeView::Failed(p) => p.detail,
            OutcomeView::Errored(p) => p.detail,
            OutcomeView::Skipped { message } => message,
            OutcomeView::Passed => None,
        },
{
}

} // verus!
