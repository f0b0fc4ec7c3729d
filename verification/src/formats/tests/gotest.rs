//! `go test -json` — the NDJSON event stream Go's test runner emits.
//!
//! ```text
//! {"Action":"run","Package":"github.com/acme/proj/calc","Test":"TestAdds"}
//! {"Action":"pass","Package":"…","Test":"TestAdds","Elapsed":0.001}
//! ```
//!
//! One JSON document per line. Turning the events into a report means
//! reassembling state:
//!
//! - A test is a package plus a name, and its result arrives in a later event
//!   than its start. Suites are packages, in the order they first appear.
//! - Go gives no structured failure message, only the text the test wrote. The
//!   first line that is not scaffolding becomes the message, and the whole
//!   output is kept as the detail.
//! - A package can fail without any test failing: a build error, or a panic in
//!   `TestMain`. It becomes a synthetic case carrying the package's output.
//!
//! Subtests are emitted alongside their parent. Read-only: the stream is a
//! runner's log, and nothing replays one.

use vstd::prelude::*;

use crate::error::{parse_error, Error, ErrorView};
use crate::json::{decode, decoded, field, maybe, text_field, Fields, Json, JsonView, Shape};
use crate::model::tests::{
    Elapsed, ElapsedView, Outcome, OutcomeView, Problem, ProblemView, TestCase, TestCaseView,
    TestReport, TestReportView, TestSuite, TestSuiteView,
};
use crate::registry::{read_result, Doc, DocView};
use crate::text::{
    begins, concat3, decimal, from_utf8_lossy, line_list, lines, number, owned, same, starts_with,
    text_in, trim, trim_end, trimmed, trimmed_end,
};
use crate::value::{
    append_one, empty_list, flat, if_any, non_empty, opt_list, or_else, or_text, text_or, Value,
};
use crate::warn::{CtxView, FormatCtx};

verus! {

pub const FORMAT: &'static str = "go-test-json";

/// The name of the case that carries a package-level failure.
pub const PACKAGE_CASE: &'static str = "(package)";

#[verifier::allow_in_spec]
pub fn event_shape() -> Shape
    returns
        Shape::Record(
            text_field("Time", text_field("Action", text_field("Package", text_field(
                "Test",
                field("Elapsed", maybe(Shape::Real), text_field("Output", Fields::End)),
            )))),
        ),
{
    Shape::Record(
        text_field("Time", text_field("Action", text_field("Package", text_field(
            "Test",
            field("Elapsed", maybe(Shape::Real), text_field("Output", Fields::End)),
        )))),
    )
}

// ---------------------------------------------------------------------------
// Output
// ---------------------------------------------------------------------------

/// Whether a trimmed line says something, rather than being `go test`'s own
/// scaffolding.
pub open spec fn meaningful(line: Seq<char>) -> bool {
    line.len() > 0 && !starts_with(line, "=== "@) && !starts_with(line, "--- "@) && line
        != "FAIL"@ && line != "PASS"@
}

/// The first such line, trimmed.
pub open spec fn first_meaningful(all: Seq<Seq<char>>) -> Option<Seq<char>>
    decreases all.len(),
{
    if all.len() == 0 {
        None
    } else if meaningful(trim(all[0])) {
        Some(trim(all[0]))
    } else {
        first_meaningful(all.skip(1))
    }
}

/// For a failure that is the assertion line; for a skip, the reason.
pub fn first_meaningful_line(output: &str) -> (r: Option<String>)
    ensures
        r.deep_view() == first_meaningful(lines(output@)),
{
    let list = line_list(output);
    let ghost all = list.deep_view();
    let mut i: usize = 0;
    assert(all.skip(0) =~= all);
    while i < list.len()
        invariant
            i <= list@.len(),
            all == list.deep_view(),
            all == lines(output@),
            first_meaningful(all) == first_meaningful(all.skip(i as int)),
        decreases list@.len() - i,
    {
        assert(all.skip(i as int)[0] == all[i as int]);
        assert(all.skip(i as int).skip(1) =~= all.skip(i as int + 1));
        let line = trimmed(list[i].as_str());
        let text = line.as_str();
        if !text.is_empty() && !begins(text, "=== ") && !begins(text, "--- ") && !same(
            text,
            "FAIL",
        ) && !same(text, "PASS") {
            return Some(line);
        }
        i = i + 1;
    }
    None
}

/// The output without trailing white space, where anything is left.
pub open spec fn cleaned(output: Seq<char>) -> Option<Seq<char>> {
    non_empty(Some(trim_end(output)))
}

pub fn clean(output: &str) -> (r: Option<String>)
    ensures
        r.deep_view() == cleaned(output@),
{
    if_any(Some(trimmed_end(output)))
}

/// The output that an outcome carries already.
pub open spec fn carried(outcome: OutcomeView) -> Option<Seq<char>> {
    match outcome {
        OutcomeView::Failed(p) => p.detail,
        OutcomeView::Errored(p) => p.detail,
        OutcomeView::Skipped { message } => message,
        OutcomeView::Passed => None,
    }
}

/// The captured output, unless the outcome already carries it: the log of a
/// failing test is not printed twice.
pub open spec fn surplus(output: Seq<char>, outcome: OutcomeView) -> Option<Seq<char>> {
    let text = trim_end(output);
    if trim(text).len() == 0 || carried(outcome) == Some(text) || carried(outcome) == Some(
        trim(text),
    ) {
        None
    } else {
        Some(text)
    }
}

fn carries_text(outcome: &Outcome, text: &str) -> (r: bool)
    ensures
        r == (carried(outcome.deep_view()) == Some(text@)),
{
    match outcome {
        Outcome::Failed(p) => match &p.detail {
            Some(t) => same(t.as_str(), text),
            None => false,
        },
        Outcome::Errored(p) => match &p.detail {
            Some(t) => same(t.as_str(), text),
            None => false,
        },
        Outcome::Skipped { message } => match message {
            Some(t) => same(t.as_str(), text),
            None => false,
        },
        Outcome::Passed => false,
    }
}

pub fn surplus_output(output: &str, outcome: &Outcome) -> (r: Option<String>)
    ensures
        r.deep_view() == surplus(output@, outcome.deep_view()),
{
    let text = trimmed_end(output);
    let inner = trimmed(text.as_str());
    if inner.as_str().is_empty() || carries_text(outcome, text.as_str()) || carries_text(
        outcome,
        inner.as_str(),
    ) {
        None
    } else {
        Some(text)
    }
}

// ---------------------------------------------------------------------------
// Accumulated state
// ---------------------------------------------------------------------------

/// What the events said of one test, or of a package itself.
pub struct AccumulatedView {
    pub outcome: Option<Seq<char>>,
    pub elapsed: Option<ElapsedView>,
    pub output: Seq<char>,
}

pub struct Accumulated {
    pub outcome: Option<String>,
    pub elapsed: Option<Elapsed>,
    pub output: String,
}

impl DeepView for Accumulated {
    type V = AccumulatedView;

    open spec fn deep_view(&self) -> AccumulatedView {
        AccumulatedView {
            outcome: self.outcome.deep_view(),
            elapsed: self.elapsed.deep_view(),
            output: self.output@,
        }
    }
}

impl AccumulatedView {
    pub open spec fn empty() -> AccumulatedView {
        AccumulatedView { outcome: None, elapsed: None, output: Seq::empty() }
    }
}

/// A test and what is known of it.
pub struct TestView {
    pub name: Seq<char>,
    pub state: AccumulatedView,
}

pub struct Test {
    pub name: String,
    pub state: Accumulated,
}

impl DeepView for Test {
    type V = TestView;

    open spec fn deep_view(&self) -> TestView {
        TestView { name: self.name@, state: self.state.deep_view() }
    }
}

/// A package, its tests in the order they first appeared in.
pub struct PackageView {
    pub name: Seq<char>,
    pub timestamp: Option<Seq<char>>,
    pub tests: Seq<TestView>,
    pub own: AccumulatedView,
}

pub struct Package {
    pub name: String,
    pub timestamp: Option<String>,
    pub tests: Vec<Test>,
    pub own: Accumulated,
}

impl DeepView for Package {
    type V = PackageView;

    open spec fn deep_view(&self) -> PackageView {
        PackageView {
            name: self.name@,
            timestamp: self.timestamp.deep_view(),
            tests: self.tests.deep_view(),
            own: self.own.deep_view(),
        }
    }
}

pub open spec fn event_elapsed(event: JsonView) -> Option<ElapsedView> {
    match event.get("Elapsed"@).literal() {
        Some(text) => Some(ElapsedView::Seconds(text)),
        None => None,
    }
}

/// What is known behind one more event.
pub open spec fn noted(state: AccumulatedView, event: JsonView) -> AccumulatedView {
    let action = or_text(event.get("Action"@).text(), ""@);
    if action == "output"@ {
        AccumulatedView {
            output: state.output + or_text(event.get("Output"@).text(), ""@),
            ..state
        }
    } else if action == "pass"@ || action == "fail"@ || action == "skip"@ {
        AccumulatedView {
            outcome: Some(action),
            elapsed: or_else(event_elapsed(event), state.elapsed),
            ..state
        }
    } else {
        state
    }
}

/// The position of the test of this name, or the length.
pub open spec fn test_at(tests: Seq<TestView>, name: Seq<char>) -> int
    decreases tests.len(),
{
    if tests.len() == 0 || tests[0].name == name {
        0
    } else {
        1 + test_at(tests.skip(1), name)
    }
}

pub open spec fn test_noted(
    tests: Seq<TestView>,
    name: Seq<char>,
    event: JsonView,
) -> Seq<TestView> {
    let at = test_at(tests, name);
    if at < tests.len() {
        tests.update(at, TestView { state: noted(tests[at].state, event), ..tests[at] })
    } else {
        tests.push(TestView { name, state: noted(AccumulatedView::empty(), event) })
    }
}

pub open spec fn package_noted(package: PackageView, event: JsonView) -> PackageView {
    let stamped = PackageView {
        timestamp: or_else(package.timestamp, event.get("Time"@).text()),
        ..package
    };
    match event.get("Test"@).text() {
        Some(name) => PackageView { tests: test_noted(package.tests, name, event), ..stamped },
        None => PackageView { own: noted(package.own, event), ..stamped },
    }
}

/// The position of the package of this name, or the length.
pub open spec fn package_at(packages: Seq<PackageView>, name: Seq<char>) -> int
    decreases packages.len(),
{
    if packages.len() == 0 || packages[0].name == name {
        0
    } else {
        1 + package_at(packages.skip(1), name)
    }
}

pub open spec fn new_package(name: Seq<char>) -> PackageView {
    PackageView { name, timestamp: None, tests: Seq::empty(), own: AccumulatedView::empty() }
}

/// The packages behind one more event.
pub open spec fn event_noted(packages: Seq<PackageView>, event: JsonView) -> Seq<PackageView> {
    match event.get("Package"@).text() {
        None => packages,
        Some(name) => {
            let at = package_at(packages, name);
            if at < packages.len() {
                packages.update(at, package_noted(packages[at], event))
            } else {
                packages.push(package_noted(new_package(name), event))
            }
        },
    }
}

fn note(state: &mut Accumulated, event: &Json)
    ensures
        final(state).deep_view() == noted(old(state).deep_view(), event.deep_view()),
{
    let action = event.get("Action").text();
    let action = text_or(&action, "");
    if same(action, "output") {
        let output = event.get("Output").text();
        state.output.append(text_or(&output, ""));
    } else if same(action, "pass") || same(action, "fail") || same(action, "skip") {
        state.outcome = Some(owned(action));
        if let Some(text) = event.get("Elapsed").literal() {
            state.elapsed = Some(Elapsed::Seconds(text));
        }
    }
}

fn new_state() -> (r: Accumulated)
    ensures
        r.deep_view() == AccumulatedView::empty(),
{
    Accumulated { outcome: None, elapsed: None, output: String::new() }
}

fn find_test(tests: &Vec<Test>, name: &str) -> (r: usize)
    ensures
        r <= tests@.len(),
        r == test_at(tests.deep_view(), name@),
{
    let ghost all = tests.deep_view();
    let mut at: usize = 0;
    assert(all.skip(0) =~= all);
    while at < tests.len() && !same(tests[at].name.as_str(), name)
        invariant
            at <= tests@.len(),
            all == tests.deep_view(),
            test_at(all, name@) == at + test_at(all.skip(at as int), name@),
        decreases tests@.len() - at,
    {
        assert(all.skip(at as int)[0] == all[at as int]);
        assert(all.skip(at as int).skip(1) =~= all.skip(at as int + 1));
        at = at + 1;
    }
    proof {
        if at < tests@.len() {
            assert(all.skip(at as int)[0] == all[at as int]);
        }
    }
    at
}

fn note_test(tests: &mut Vec<Test>, name: &str, event: &Json)
    ensures
        final(tests).deep_view() == test_noted(
            old(tests).deep_view(),
            name@,
            event.deep_view(),
        ),
{
    let ghost before = tests.deep_view();
    let at = find_test(tests, name);
    if at < tests.len() {
        note(&mut tests[at].state, event);
        assert(tests.deep_view() =~= test_noted(before, name@, event.deep_view()));
    } else {
        let mut state = new_state();
        note(&mut state, event);
        append_one(tests, Test { name: owned(name), state });
    }
}

impl Package {
    fn note(&mut self, event: &Json)
        ensures
            final(self).deep_view() == package_noted(old(self).deep_view(), event.deep_view()),
    {
        if self.timestamp.is_none() {
            self.timestamp = event.get("Time").text();
        }
        match event.get("Test").text() {
            Some(name) => note_test(&mut self.tests, name.as_str(), event),
            None => note(&mut self.own, event),
        }
    }
}

fn find_package(packages: &Vec<Package>, name: &str) -> (r: usize)
    ensures
        r <= packages@.len(),
        r == package_at(packages.deep_view(), name@),
{
    let ghost all = packages.deep_view();
    let mut at: usize = 0;
    assert(all.skip(0) =~= all);
    while at < packages.len() && !same(packages[at].name.as_str(), name)
        invariant
            at <= packages@.len(),
            all == packages.deep_view(),
            package_at(all, name@) == at + package_at(all.skip(at as int), name@),
        decreases packages@.len() - at,
    {
        assert(all.skip(at as int)[0] == all[at as int]);
        assert(all.skip(at as int).skip(1) =~= all.skip(at as int + 1));
        at = at + 1;
    }
    proof {
        if at < packages@.len() {
            assert(all.skip(at as int)[0] == all[at as int]);
        }
    }
    at
}

fn note_event(packages: &mut Vec<Package>, event: &Json)
    ensures
        final(packages).deep_view() == event_noted(
            old(packages).deep_view(),
            event.deep_view(),
        ),
{
    let name = match event.get("Package").text() {
        Some(name) => name,
        None => {
            return;
        },
    };
    let ghost before = packages.deep_view();
    let at = find_package(packages, name.as_str());
    if at < packages.len() {
        packages[at].note(event);
        assert(packages.deep_view() =~= event_noted(before, event.deep_view()));
    } else {
        let mut package = Package {
            name,
            timestamp: None,
            tests: empty_list(),
            own: new_state(),
        };
        package.note(event);
        append_one(packages, package);
    }
}

// ---------------------------------------------------------------------------
// Suites
// ---------------------------------------------------------------------------

/// The outcome of a test. Without a terminating event the run was interrupted,
/// and the test neither passed nor failed.
pub open spec fn test_outcome(state: AccumulatedView) -> OutcomeView {
    if state.outcome == Some("pass"@) {
        OutcomeView::Passed
    } else if state.outcome == Some("skip"@) {
        OutcomeView::Skipped { message: first_meaningful(lines(state.output)) }
    } else if state.outcome == Some("fail"@) {
        OutcomeView::Failed(
            ProblemView {
                message: first_meaningful(lines(state.output)),
                kind: None,
                detail: cleaned(state.output),
            },
        )
    } else {
        OutcomeView::Skipped { message: Some("no result reported (the run did not finish)"@) }
    }
}

pub open spec fn case_of(package: Seq<char>, test: TestView) -> TestCaseView {
    let outcome = test_outcome(test.state);
    TestCaseView {
        classname: Some(package),
        time: test.state.elapsed,
        system_out: surplus(test.state.output, outcome),
        ..TestCaseView::of(test.name, outcome)
    }
}

/// Whether a test of the package failed.
pub open spec fn any_failure(tests: Seq<TestView>) -> bool {
    exists|i: int| 0 <= i < tests.len() && test_outcome((#[trigger] tests[i]).state) is Failed
}

/// The case of a package that failed with no failing test: it failed to build,
/// or panicked outside a test.
pub open spec fn package_case(package: PackageView) -> TestCaseView {
    TestCaseView {
        classname: Some(package.name),
        ..TestCaseView::of(
            PACKAGE_CASE@,
            OutcomeView::Failed(
                ProblemView {
                    message: Some(
                        or_text(
                            first_meaningful(lines(package.own.output)),
                            "the package failed with no failing test"@,
                        ),
                    ),
                    kind: Some("package"@),
                    detail: cleaned(package.own.output),
                },
            ),
        )
    }
}

pub open spec fn suite_of(package: PackageView) -> TestSuiteView {
    TestSuiteView {
        timestamp: package.timestamp,
        time: package.own.elapsed,
        cases: package.tests.map_values(|t: TestView| case_of(package.name, t)) + (if
        package.own.outcome == Some("fail"@) && !any_failure(package.tests) {
            seq![package_case(package)]
        } else {
            Seq::empty()
        }),
        ..TestSuiteView::of(package.name)
    }
}

/// The suite of a package that reported anything.
pub open spec fn opt_suite(package: PackageView) -> Option<TestSuiteView> {
    if suite_of(package).cases.len() > 0 {
        Some(suite_of(package))
    } else {
        None
    }
}

fn is_text(value: &Option<String>, text: &str) -> (r: bool)
    ensures
        r == (value.deep_view() == Some(text@)),
{
    match value {
        Some(v) => same(v.as_str(), text),
        None => false,
    }
}

pub fn outcome_of(state: &Accumulated) -> (r: Outcome)
    ensures
        r.deep_view() == test_outcome(state.deep_view()),
{
    if is_text(&state.outcome, "pass") {
        Outcome::Passed
    } else if is_text(&state.outcome, "skip") {
        Outcome::Skipped { message: first_meaningful_line(state.output.as_str()) }
    } else if is_text(&state.outcome, "fail") {
        Outcome::Failed(
            Problem {
                message: first_meaningful_line(state.output.as_str()),
                kind: None,
                detail: clean(state.output.as_str()),
            },
        )
    } else {
        Outcome::Skipped { message: Some(owned("no result reported (the run did not finish)")) }
    }
}

fn build_case(package: &str, test: &Test) -> (r: TestCase)
    ensures
        r.deep_view() == case_of(package@, test.deep_view()),
{
    let mut case = TestCase::new(test.name.as_str(), outcome_of(&test.state));
    case.classname = Some(owned(package));
    case.time = test.state.elapsed.copy();
    case.system_out = surplus_output(test.state.output.as_str(), &case.outcome);
    case
}

fn build_package_case(package: &Package) -> (r: TestCase)
    ensures
        r.deep_view() == package_case(package.deep_view()),
{
    let message = first_meaningful_line(package.own.output.as_str());
    let mut case = TestCase::new(
        PACKAGE_CASE,
        Outcome::Failed(
            Problem {
                message: Some(
                    owned(text_or(&message, "the package failed with no failing test")),
                ),
                kind: Some(owned("package")),
                detail: clean(package.own.output.as_str()),
            },
        ),
    );
    case.classname = Some(package.name.clone());
    case
}

pub fn build_suite(package: &Package) -> (r: Option<TestSuite>)
    ensures
        r.deep_view() == opt_suite(package.deep_view()),
{
    let ghost view = package.deep_view();
    let ghost goal = view.tests.map_values(|t: TestView| case_of(view.name, t));
    let mut suite = TestSuite::new(package.name.as_str());
    suite.timestamp = package.timestamp.copy();
    suite.time = package.own.elapsed.copy();
    let mut cases: Vec<TestCase> = empty_list();
    let mut failed = false;
    let mut i: usize = 0;
    assert(cases.deep_view() =~= goal.take(0));
    while i < package.tests.len()
        invariant
            i <= package.tests@.len(),
            view == package.deep_view(),
            goal == view.tests.map_values(|t: TestView| case_of(view.name, t)),
            cases.deep_view() == goal.take(i as int),
            failed ==> any_failure(view.tests),
            !failed ==> forall|j: int|
                0 <= j < i ==> !(test_outcome((#[trigger] view.tests[j]).state) is Failed),
        decreases package.tests@.len() - i,
    {
        let case = build_case(package.name.as_str(), &package.tests[i]);
        assert(case.deep_view().outcome == test_outcome(view.tests[i as int].state));
        if let Outcome::Failed(_) = &case.outcome {
            failed = true;
        }
        append_one(&mut cases, case);
        i = i + 1;
        assert(cases.deep_view() =~= goal.take(i as int));
    }
    assert(goal.take(i as int) =~= goal);
    if is_text(&package.own.outcome, "fail") && !failed {
        append_one(&mut cases, build_package_case(package));
    }
    assert(cases.deep_view() =~= suite_of(view).cases);
    if cases.len() == 0 {
        return None;
    }
    suite.cases = cases;
    Some(suite)
}

// ---------------------------------------------------------------------------
// Reading
// ---------------------------------------------------------------------------

/// The event of a line, where it is one.
pub open spec fn event_of(line: Option<JsonView>) -> Option<JsonView> {
    match line {
        Some(json) => decoded(json, event_shape()),
        None => None,
    }
}

/// The packages of these lines.
pub open spec fn packages_of(all: Seq<Option<JsonView>>) -> Seq<PackageView>
    decreases all.len(),
{
    if all.len() == 0 {
        Seq::empty()
    } else {
        match event_of(all.last()) {
            Some(event) => event_noted(packages_of(all.drop_last()), event),
            None => packages_of(all.drop_last()),
        }
    }
}

/// How many lines are no events.
pub open spec fn ignored(all: Seq<Option<JsonView>>) -> nat
    decreases all.len(),
{
    if all.len() == 0 {
        0
    } else {
        ignored(all.drop_last()) + if event_of(all.last()) is Some {
            0nat
        } else {
            1nat
        }
    }
}

/// The document that reading these lines gives, or the refusal, and what is to
/// be said about it.
pub open spec fn read_spec(all: Seq<Option<JsonView>>, ctx: CtxView) -> (
    Result<DocView, ErrorView>,
    CtxView,
) {
    let suites = flat(packages_of(all), |p: PackageView| opt_list(opt_suite(p)));
    if ignored(all) == all.len() {
        (
            Err(
                parse_error(
                    FORMAT@,
                    "no JSON event on any line — this does not look like `go test -json` output"@,
                ),
            ),
            ctx,
        )
    } else {
        (
            if suites.len() == 0 {
                Err(parse_error(FORMAT@, "no package reported any result"@))
            } else {
                Ok(DocView::Tests(TestReportView { suites, ..TestReportView::empty() }))
            },
            ctx.lossy_if(
                ignored(all) > 0,
                "go-test-json: "@ + decimal(ignored(all))
                    + " line(s) were not JSON events and were ignored; a build failure printed before the stream starts looks like this"@,
            ),
        )
    }
}

fn build_suites(packages: &Vec<Package>) -> (r: Vec<TestSuite>)
    ensures
        r.deep_view() == flat(
            packages.deep_view(),
            |p: PackageView| opt_list(opt_suite(p)),
        ),
{
    let ghost all = packages.deep_view();
    let mut suites: Vec<TestSuite> = empty_list();
    let mut i: usize = 0;
    assert(all.take(0) =~= Seq::empty());
    while i < packages.len()
        invariant
            i <= packages@.len(),
            all == packages.deep_view(),
            suites.deep_view() == flat(
                all.take(i as int),
                |p: PackageView| opt_list(opt_suite(p)),
            ),
        decreases packages@.len() - i,
    {
        assert(all.take(i as int + 1).drop_last() =~= all.take(i as int));
        let ghost before = suites.deep_view();
        if let Some(suite) = build_suite(&packages[i]) {
            append_one(&mut suites, suite);
        }
        i = i + 1;
        assert(suites.deep_view() =~= before + opt_list(opt_suite(all[i as int - 1])));
    }
    assert(all.take(i as int) =~= all);
    suites
}

/// Reads the lines that [`event_lines`] gives, each as the JSON document it
/// holds, or nothing where it holds none.
pub fn read(events: &Vec<Option<Json>>, ctx: &mut FormatCtx) -> (r: Result<Doc, Error>)
    ensures
        (read_result(r), final(ctx)@) == read_spec(events.deep_view(), old(ctx)@),
{
    let ghost all = events.deep_view();
    let mut packages: Vec<Package> = empty_list();
    let mut skipped: usize = 0;
    let mut i: usize = 0;
    assert(all.take(0) =~= Seq::empty());
    while i < events.len()
        invariant
            i <= events@.len(),
            all == events.deep_view(),
            packages.deep_view() == packages_of(all.take(i as int)),
            skipped == ignored(all.take(i as int)),
            skipped <= i,
        decreases events@.len() - i,
    {
        assert(all.take(i as int + 1).drop_last() =~= all.take(i as int));
        assert(all.take(i as int + 1).last() == events[i as int].deep_view());
        let event = match &events[i] {
            Some(json) => decode(json, &event_shape()),
            None => None,
        };
        match event {
            Some(event) => note_event(&mut packages, &event),
            None => {
                skipped = skipped + 1;
            },
        }
        i = i + 1;
    }
    assert(all.take(i as int) =~= all);
    if skipped == events.len() {
        return Err(
            Error::parse(
                FORMAT,
                "no JSON event on any line — this does not look like `go test -json` output",
            ),
        );
    }
    if skipped > 0 {
        ctx.lossy(
            concat3(
                "go-test-json: ",
                number(skipped as u64).as_str(),
                " line(s) were not JSON events and were ignored; a build failure printed before the stream starts looks like this",
            ).as_str(),
        );
    }
    let suites = build_suites(&packages);
    if suites.len() == 0 {
        return Err(Error::parse(FORMAT, "no package reported any result"));
    }
    let mut report = TestReport::default();
    report.suites = suites;
    Ok(Doc::Tests(report))
}

/// The lines of a stream, trimmed, without the empty ones.
pub fn event_lines(input: &[u8]) -> (r: Vec<String>)
    ensures
        r.deep_view() == flat(
            lines(text_in(input@)),
            |l: Seq<char>| opt_list(non_empty(Some(trim(l)))),
        ),
{
    let list = line_list(from_utf8_lossy(input).as_str());
    let ghost all = list.deep_view();
    let mut out: Vec<String> = empty_list();
    let mut i: usize = 0;
    assert(all.take(0) =~= Seq::empty());
    while i < list.len()
        invariant
            i <= list@.len(),
            all == list.deep_view(),
            out.deep_view() == flat(
                all.take(i as int),
                |l: Seq<char>| opt_list(non_empty(Some(trim(l)))),
            ),
        decreases list@.len() - i,
    {
        assert(all.take(i as int + 1).drop_last() =~= all.take(i as int));
        let ghost before = out.deep_view();
        let line = trimmed(list[i].as_str());
        if !line.as_str().is_empty() {
            append_one(&mut out, line);
        }
        i = i + 1;
        assert(out.deep_view() =~= before + opt_list(non_empty(Some(trim(all[i as int - 1])))));
    }
    assert(all.take(i as int) =~= all);
    out
}

// ---------------------------------------------------------------------------
// Laws
// ---------------------------------------------------------------------------

/// A package that failed is never reported without a failure.
pub proof fn a_failed_package_has_a_failed_case(package: PackageView)
    requires
        package.own.outcome == Some("fail"@),
    ensures
        exists|i: int|
            0 <= i < suite_of(package).cases.len() && (#[trigger] suite_of(
                package,
            ).cases[i]).outcome is Failed,
{
    let cases = suite_of(package).cases;
    if any_failure(package.tests) {
        let i = choose|i: int|
            0 <= i < package.tests.len() && test_outcome((#[trigger] package.tests[i]).state)
                is Failed;
        assert(cases[i] == case_of(package.name, package.tests[i]));
        assert(cases[i].outcome is Failed);
    } else {
        let last = package.tests.len() as int;
        assert(cases[last] == package_case(package));
        assert(cases[last].outcome is Failed);
    }
}

/// A failing test's log is not printed twice: its output is the detail of the
/// failure and no output of its own.
pub proof fn failures_keep_their_output_once(package: Seq<char>, test: TestView)
    requires
        test_outcome(test.state) is Failed,
    ensures
        case_of(package, test).system_out is None,
{
}

} // verus!
