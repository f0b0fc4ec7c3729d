//! Pivot model for test reports, shaped after the JUnit XML family.

use vstd::prelude::*;

use crate::paths::{MapperView, PathMapper};
use crate::text::owned;
use crate::value::{append_all, append_one, empty_list, Value};

verus! {

/// What went wrong in a test.
#[derive(Debug, PartialEq, Eq)]
pub struct Problem {
    pub message: Option<String>,
    /// Exception class or assertion type, when the source reports one.
    pub kind: Option<String>,
    /// Stack trace / long-form detail.
    pub detail: Option<String>,
}

/// The content of a [`Problem`].
pub struct ProblemView {
    pub message: Option<Seq<char>>,
    pub kind: Option<Seq<char>>,
    pub detail: Option<Seq<char>>,
}

impl DeepView for Problem {
    type V = ProblemView;

    open spec fn deep_view(&self) -> ProblemView {
        ProblemView {
            message: self.message.deep_view(),
            kind: self.kind.deep_view(),
            detail: self.detail.deep_view(),
        }
    }
}

impl Value for Problem {
    fn copy(&self) -> (r: Self) {
        Problem {
            message: self.message.copy(),
            kind: self.kind.copy(),
            detail: self.detail.copy(),
        }
    }

    fn equals(&self, other: &Self) -> (r: bool) {
        self.message.equals(&other.message)
            && self.kind.equals(&other.kind)
            && self.detail.equals(&other.detail)
    }
}

impl Clone for Problem {
    fn clone(&self) -> (r: Self)
        ensures
            r.deep_view() == self.deep_view(),
    {
        self.copy()
    }
}

impl ProblemView {
    pub open spec fn empty() -> ProblemView {
        ProblemView {
            message: None,
            kind: None,
            detail: None,
        }
    }
}

impl Default for Problem {
    fn default() -> (r: Self)
        ensures
            r.deep_view() == ProblemView::empty(),
    {
        Problem {
            message: None,
            kind: None,
            detail: None,
        }
    }
}

/// A test case's result. `Failed` and `Errored` are kept distinct because JUnit
/// consumers treat them differently (assertion vs. crash).
#[derive(Debug, PartialEq, Eq)]
pub enum Outcome {
    Passed,
    Skipped { message: Option<String> },
    Failed(Problem),
    Errored(Problem),
}

/// The content of an [`Outcome`].
pub enum OutcomeView {
    Passed,
    Skipped { message: Option<Seq<char>> },
    Failed(ProblemView),
    Errored(ProblemView),
}

impl DeepView for Outcome {
    type V = OutcomeView;

    open spec fn deep_view(&self) -> OutcomeView {
        match *self {
            Outcome::Passed => OutcomeView::Passed,
            Outcome::Skipped { message } => OutcomeView::Skipped { message: message.deep_view() },
            Outcome::Failed(p) => OutcomeView::Failed(p.deep_view()),
            Outcome::Errored(p) => OutcomeView::Errored(p.deep_view()),
        }
    }
}

impl Value for Outcome {
    fn copy(&self) -> (r: Self) {
        match self {
            Outcome::Passed => Outcome::Passed,
            Outcome::Skipped { message } => Outcome::Skipped { message: message.copy() },
            Outcome::Failed(p) => Outcome::Failed(p.copy()),
            Outcome::Errored(p) => Outcome::Errored(p.copy()),
        }
    }

    fn equals(&self, other: &Self) -> (r: bool) {
        match (self, other) {
            (Outcome::Passed, Outcome::Passed) => true,
            (Outcome::Skipped { message: a }, Outcome::Skipped { message: b }) => a.equals(b),
            (Outcome::Failed(a), Outcome::Failed(b)) => a.equals(b),
            (Outcome::Errored(a), Outcome::Errored(b)) => a.equals(b),
            _ => false,
        }
    }
}

impl Clone for Outcome {
    fn clone(&self) -> (r: Self)
        ensures
            r.deep_view() == self.deep_view(),
    {
        self.copy()
    }
}

/// A duration as its source wrote it, every part a number literal.
#[derive(Debug, PartialEq, Eq)]
pub enum Elapsed {
    /// Seconds.
    Seconds(String),
    /// Days, hours, minutes and seconds to be added up.
    Span { days: Option<String>, hours: String, minutes: String, seconds: String },
}

/// The content of an [`Elapsed`].
pub enum ElapsedView {
    Seconds(Seq<char>),
    Span { days: Option<Seq<char>>, hours: Seq<char>, minutes: Seq<char>, seconds: Seq<char> },
}

impl DeepView for Elapsed {
    type V = ElapsedView;

    open spec fn deep_view(&self) -> ElapsedView {
        match *self {
            Elapsed::Seconds(s) => ElapsedView::Seconds(s@),
            Elapsed::Span { days, hours, minutes, seconds } => ElapsedView::Span {
                days: days.deep_view(),
                hours: hours@,
                minutes: minutes@,
                seconds: seconds@,
            },
        }
    }
}

impl Value for Elapsed {
    fn copy(&self) -> (r: Self) {
        match self {
            Elapsed::Seconds(s) => Elapsed::Seconds(s.copy()),
            Elapsed::Span { days, hours, minutes, seconds } => Elapsed::Span {
                days: days.copy(),
                hours: hours.copy(),
                minutes: minutes.copy(),
                seconds: seconds.copy(),
            },
        }
    }

    fn equals(&self, other: &Self) -> (r: bool) {
        match (self, other) {
            (Elapsed::Seconds(a), Elapsed::Seconds(b)) => a.equals(b),
            (
                Elapsed::Span { days: d, hours: h, minutes: m, seconds: s },
                Elapsed::Span { days: e, hours: i, minutes: n, seconds: t },
            ) => d.equals(e) && h.equals(i) && m.equals(n) && s.equals(t),
            _ => false,
        }
    }
}

impl Clone for Elapsed {
    fn clone(&self) -> (r: Self)
        ensures
            r.deep_view() == self.deep_view(),
    {
        self.copy()
    }
}

/// One test.
#[derive(Debug, PartialEq, Eq)]
pub struct TestCase {
    pub name: String,
    pub classname: Option<String>,
    pub file: Option<String>,
    pub line: Option<u32>,
    pub time: Option<Elapsed>,
    pub outcome: Outcome,
    pub system_out: Option<String>,
    pub system_err: Option<String>,
}

/// The content of a [`TestCase`].
pub struct TestCaseView {
    pub name: Seq<char>,
    pub classname: Option<Seq<char>>,
    pub file: Option<Seq<char>>,
    pub line: Option<u32>,
    pub time: Option<ElapsedView>,
    pub outcome: OutcomeView,
    pub system_out: Option<Seq<char>>,
    pub system_err: Option<Seq<char>>,
}

impl DeepView for TestCase {
    type V = TestCaseView;

    open spec fn deep_view(&self) -> TestCaseView {
        TestCaseView {
            name: self.name.deep_view(),
            classname: self.classname.deep_view(),
            file: self.file.deep_view(),
            line: self.line.deep_view(),
            time: self.time.deep_view(),
            outcome: self.outcome.deep_view(),
            system_out: self.system_out.deep_view(),
            system_err: self.system_err.deep_view(),
        }
    }
}

impl Value for TestCase {
    fn copy(&self) -> (r: Self) {
        TestCase {
            name: self.name.copy(),
            classname: self.classname.copy(),
            file: self.file.copy(),
            line: self.line.copy(),
            time: self.time.copy(),
            outcome: self.outcome.copy(),
            system_out: self.system_out.copy(),
            system_err: self.system_err.copy(),
        }
    }

    fn equals(&self, other: &Self) -> (r: bool) {
        self.name.equals(&other.name)
            && self.classname.equals(&other.classname)
            && self.file.equals(&other.file)
            && self.line.equals(&other.line)
            && self.time.equals(&other.time)
            && self.outcome.equals(&other.outcome)
            && self.system_out.equals(&other.system_out)
            && self.system_err.equals(&other.system_err)
    }
}

impl Clone for TestCase {
    fn clone(&self) -> (r: Self)
        ensures
            r.deep_view() == self.deep_view(),
    {
        self.copy()
    }
}

/// A group of tests.
#[derive(Debug, PartialEq, Eq)]
pub struct TestSuite {
    pub name: String,
    pub timestamp: Option<String>,
    pub hostname: Option<String>,
    pub file: Option<String>,
    /// Wall-clock duration. `None` means "sum the cases".
    pub time: Option<Elapsed>,
    pub properties: Vec<(String, String)>,
    pub cases: Vec<TestCase>,
    pub system_out: Option<String>,
    pub system_err: Option<String>,
}

/// The content of a [`TestSuite`].
pub struct TestSuiteView {
    pub name: Seq<char>,
    pub timestamp: Option<Seq<char>>,
    pub hostname: Option<Seq<char>>,
    pub file: Option<Seq<char>>,
    pub time: Option<ElapsedView>,
    pub properties: Seq<(Seq<char>, Seq<char>)>,
    pub cases: Seq<TestCaseView>,
    pub system_out: Option<Seq<char>>,
    pub system_err: Option<Seq<char>>,
}

impl DeepView for TestSuite {
    type V = TestSuiteView;

    open spec fn deep_view(&self) -> TestSuiteView {
        TestSuiteView {
            name: self.name.deep_view(),
            timestamp: self.timestamp.deep_view(),
            hostname: self.hostname.deep_view(),
            file: self.file.deep_view(),
            time: self.time.deep_view(),
            properties: self.properties.deep_view(),
            cases: self.cases.deep_view(),
            system_out: self.system_out.deep_view(),
            system_err: self.system_err.deep_view(),
        }
    }
}

impl Value for TestSuite {
    fn copy(&self) -> (r: Self) {
        TestSuite {
            name: self.name.copy(),
            timestamp: self.timestamp.copy(),
            hostname: self.hostname.copy(),
            file: self.file.copy(),
            time: self.time.copy(),
            properties: self.properties.copy(),
            cases: self.cases.copy(),
            system_out: self.system_out.copy(),
            system_err: self.system_err.copy(),
        }
    }

    fn equals(&self, other: &Self) -> (r: bool) {
        self.name.equals(&other.name)
            && self.timestamp.equals(&other.timestamp)
            && self.hostname.equals(&other.hostname)
            && self.file.equals(&other.file)
            && self.time.equals(&other.time)
            && self.properties.equals(&other.properties)
            && self.cases.equals(&other.cases)
            && self.system_out.equals(&other.system_out)
            && self.system_err.equals(&other.system_err)
    }
}

impl Clone for TestSuite {
    fn clone(&self) -> (r: Self)
        ensures
            r.deep_view() == self.deep_view(),
    {
        self.copy()
    }
}

impl TestSuiteView {
    pub open spec fn empty() -> TestSuiteView {
        TestSuiteView {
            name: Seq::empty(),
            timestamp: None,
            hostname: None,
            file: None,
            time: None,
            properties: Seq::empty(),
            cases: Seq::empty(),
            system_out: None,
            system_err: None,
        }
    }
}

impl Default for TestSuite {
    fn default() -> (r: Self)
        ensures
            r.deep_view() == TestSuiteView::empty(),
    {
        TestSuite {
            name: String::new(),
            timestamp: None,
            hostname: None,
            file: None,
            time: None,
            properties: empty_list(),
            cases: empty_list(),
            system_out: None,
            system_err: None,
        }
    }
}

/// A test report.
#[derive(Debug, PartialEq, Eq)]
pub struct TestReport {
    pub name: Option<String>,
    pub suites: Vec<TestSuite>,
}

/// The content of a [`TestReport`].
pub struct TestReportView {
    pub name: Option<Seq<char>>,
    pub suites: Seq<TestSuiteView>,
}

impl DeepView for TestReport {
    type V = TestReportView;

    open spec fn deep_view(&self) -> TestReportView {
        TestReportView {
            name: self.name.deep_view(),
            suites: self.suites.deep_view(),
        }
    }
}

impl Value for TestReport {
    fn copy(&self) -> (r: Self) {
        TestReport {
            name: self.name.copy(),
            suites: self.suites.copy(),
        }
    }

    fn equals(&self, other: &Self) -> (r: bool) {
        self.name.equals(&other.name)
            && self.suites.equals(&other.suites)
    }
}

impl Clone for TestReport {
    fn clone(&self) -> (r: Self)
        ensures
            r.deep_view() == self.deep_view(),
    {
        self.copy()
    }
}

impl TestReportView {
    pub open spec fn empty() -> TestReportView {
        TestReportView {
            name: None,
            suites: Seq::empty(),
        }
    }
}

impl Default for TestReport {
    fn default() -> (r: Self)
        ensures
            r.deep_view() == TestReportView::empty(),
    {
        TestReport {
            name: None,
            suites: empty_list(),
        }
    }
}

impl TestCaseView {
    pub open spec fn of(name: Seq<char>, outcome: OutcomeView) -> TestCaseView {
        TestCaseView {
            name,
            classname: None,
            file: None,
            line: None,
            time: None,
            outcome,
            system_out: None,
            system_err: None,
        }
    }
}

impl TestCase {
    pub fn new(name: &str, outcome: Outcome) -> (r: Self)
        ensures
            r.deep_view() == TestCaseView::of(name@, outcome.deep_view()),
    {
        TestCase {
            name: owned(name),
            classname: None,
            file: None,
            line: None,
            time: None,
            outcome,
            system_out: None,
            system_err: None,
        }
    }
}

/// The outcomes that the counters of a report tell apart.
#[derive(Debug, Clone, Copy, PartialEq, Eq, Structural)]
pub enum Tally {
    Failed,
    Errored,
    Skipped,
}

pub open spec fn counts_as(outcome: OutcomeView, tally: Tally) -> bool {
    match tally {
        Tally::Failed => outcome is Failed,
        Tally::Errored => outcome is Errored,
        Tally::Skipped => outcome is Skipped,
    }
}

pub open spec fn count_cases(cases: Seq<TestCaseView>, tally: Tally) -> nat
    decreases cases.len(),
{
    if cases.len() == 0 {
        0
    } else {
        count_cases(cases.drop_last(), tally) + if counts_as(cases.last().outcome, tally) {
            1nat
        } else {
            0nat
        }
    }
}

pub open spec fn count_suites(suites: Seq<TestSuiteView>, tally: Tally) -> usize
    decreases suites.len(),
{
    if suites.len() == 0 {
        0
    } else {
        count_suites(suites.drop_last(), tally).wrapping_add(
            count_cases(suites.last().cases, tally) as usize,
        )
    }
}

/// The number of cases; sums wrap around at the machine limit.
pub open spec fn total_cases(suites: Seq<TestSuiteView>) -> usize
    decreases suites.len(),
{
    if suites.len() == 0 {
        0
    } else {
        total_cases(suites.drop_last()).wrapping_add(suites.last().cases.len() as usize)
    }
}

impl TestSuiteView {
    pub open spec fn of(name: Seq<char>) -> TestSuiteView {
        TestSuiteView { name, ..TestSuiteView::empty() }
    }
}

impl TestSuite {
    pub fn new(name: &str) -> (r: Self)
        ensures
            r.deep_view() == TestSuiteView::of(name@),
    {
        TestSuite {
            name: owned(name),
            timestamp: None,
            hostname: None,
            file: None,
            time: None,
            properties: empty_list(),
            cases: empty_list(),
            system_out: None,
            system_err: None,
        }
    }

    fn count(&self, tally: Tally) -> (r: usize)
        ensures
            r == count_cases(self.deep_view().cases, tally),
    {
        let ghost all = self.deep_view().cases;
        let mut n: usize = 0;
        let mut i: usize = 0;
        assert(all.take(0) =~= Seq::empty());
        while i < self.cases.len()
            invariant
                i <= self.cases@.len(),
                all == self.deep_view().cases,
                n <= i,
                n == count_cases(all.take(i as int), tally),
            decreases self.cases@.len() - i,
        {
            assert(all.take(i as int + 1).drop_last() =~= all.take(i as int));
            let hit = match (&self.cases[i].outcome, tally) {
                (Outcome::Failed(_), Tally::Failed) => true,
                (Outcome::Errored(_), Tally::Errored) => true,
                (Outcome::Skipped { .. }, Tally::Skipped) => true,
                _ => false,
            };
            if hit {
                n = n + 1;
            }
            i = i + 1;
        }
        assert(all.take(i as int) =~= all);
        n
    }

    pub fn failures(&self) -> (r: usize)
        ensures
            r == count_cases(self.deep_view().cases, Tally::Failed),
    {
        self.count(Tally::Failed)
    }

    pub fn errors(&self) -> (r: usize)
        ensures
            r == count_cases(self.deep_view().cases, Tally::Errored),
    {
        self.count(Tally::Errored)
    }

    pub fn skipped(&self) -> (r: usize)
        ensures
            r == count_cases(self.deep_view().cases, Tally::Skipped),
    {
        self.count(Tally::Skipped)
    }

    /// The durations whose sum is the duration of the suite: its own when it
    /// declares one, those of its cases otherwise.
    pub fn elapsed(&self) -> (r: Vec<Elapsed>)
        ensures
            r.deep_view() == suite_elapsed(self.deep_view()),
    {
        let mut out: Vec<Elapsed> = empty_list();
        if let Some(time) = &self.time {
            append_one(&mut out, time.copy());
            assert(out.deep_view() =~= seq![time.deep_view()]);
            return out;
        }
        let ghost all = self.deep_view().cases;
        let mut i: usize = 0;
        assert(all.take(0) =~= Seq::empty());
        while i < self.cases.len()
            invariant
                i <= self.cases@.len(),
                all == self.deep_view().cases,
                out.deep_view() == case_times(all.take(i as int)),
            decreases self.cases@.len() - i,
        {
            assert(all.take(i as int + 1).drop_last() =~= all.take(i as int));
            if let Some(time) = &self.cases[i].time {
                append_one(&mut out, time.copy());
            }
            i = i + 1;
        }
        assert(all.take(i as int) =~= all);
        out
    }
}

/// The durations that cases declare.
pub open spec fn case_times(cases: Seq<TestCaseView>) -> Seq<ElapsedView>
    decreases cases.len(),
{
    if cases.len() == 0 {
        Seq::empty()
    } else {
        match cases.last().time {
            Some(t) => case_times(cases.drop_last()).push(t),
            None => case_times(cases.drop_last()),
        }
    }
}

pub open spec fn suite_elapsed(suite: TestSuiteView) -> Seq<ElapsedView> {
    match suite.time {
        Some(t) => seq![t],
        None => case_times(suite.cases),
    }
}

/// Suites one behind the other: two runs of the same suite are two executions.
pub open spec fn merge_reports(mine: TestReportView, theirs: TestReportView) -> TestReportView {
    TestReportView {
        name: match mine.name {
            Some(n) => Some(n),
            None => theirs.name,
        },
        suites: mine.suites + theirs.suites,
    }
}

pub open spec fn map_path(path: Option<Seq<char>>, mapper: MapperView) -> Option<Seq<char>> {
    match path {
        Some(p) => Some(mapper.map(p)),
        None => None,
    }
}

pub open spec fn map_suite(suite: TestSuiteView, mapper: MapperView) -> TestSuiteView {
    TestSuiteView {
        file: map_path(suite.file, mapper),
        cases: suite.cases.map_values(
            |c: TestCaseView| TestCaseView { file: map_path(c.file, mapper), ..c },
        ),
        ..suite
    }
}

pub open spec fn normalize_report(report: TestReportView, mapper: MapperView) -> TestReportView {
    if mapper.is_noop() {
        report
    } else {
        TestReportView {
            suites: report.suites.map_values(|s: TestSuiteView| map_suite(s, mapper)),
            ..report
        }
    }
}

fn mapped(path: &Option<String>, mapper: &PathMapper) -> (r: Option<String>)
    ensures
        r.deep_view() == map_path(path.deep_view(), mapper@),
{
    match path {
        Some(p) => Some(mapper.map(p.as_str())),
        None => None,
    }
}

fn mapped_suite(suite: &TestSuite, mapper: &PathMapper) -> (r: TestSuite)
    ensures
        r.deep_view() == map_suite(suite.deep_view(), mapper@),
{
    let ghost goal = map_suite(suite.deep_view(), mapper@).cases;
    let mut cases: Vec<TestCase> = empty_list();
    let mut i: usize = 0;
    while i < suite.cases.len()
        invariant
            i <= suite.cases@.len(),
            goal == map_suite(suite.deep_view(), mapper@).cases,
            cases.deep_view() == goal.take(i as int),
        decreases suite.cases@.len() - i,
    {
        let mut case = suite.cases[i].copy();
        case.file = mapped(&case.file, mapper);
        append_one(&mut cases, case);
        i = i + 1;
        assert(cases.deep_view() =~= goal.take(i as int));
    }
    assert(cases.deep_view() =~= goal);
    let mut out = suite.copy();
    out.file = mapped(&out.file, mapper);
    out.cases = cases;
    out
}

impl TestReport {
    pub fn total(&self) -> (r: usize)
        ensures
            r == total_cases(self.deep_view().suites),
    {
        let ghost all = self.deep_view().suites;
        let mut n: usize = 0;
        let mut i: usize = 0;
        assert(all.take(0) =~= Seq::empty());
        while i < self.suites.len()
            invariant
                i <= self.suites@.len(),
                all == self.deep_view().suites,
                n == total_cases(all.take(i as int)),
            decreases self.suites@.len() - i,
        {
            assert(all.take(i as int + 1).drop_last() =~= all.take(i as int));
            n = n.wrapping_add(self.suites[i].cases.len());
            i = i + 1;
        }
        assert(all.take(i as int) =~= all);
        n
    }

    fn count(&self, tally: Tally) -> (r: usize)
        ensures
            r == count_suites(self.deep_view().suites, tally),
    {
        let ghost all = self.deep_view().suites;
        let mut n: usize = 0;
        let mut i: usize = 0;
        assert(all.take(0) =~= Seq::empty());
        while i < self.suites.len()
            invariant
                i <= self.suites@.len(),
                all == self.deep_view().suites,
                n == count_suites(all.take(i as int), tally),
            decreases self.suites@.len() - i,
        {
            assert(all.take(i as int + 1).drop_last() =~= all.take(i as int));
            n = n.wrapping_add(self.suites[i].count(tally));
            i = i + 1;
        }
        assert(all.take(i as int) =~= all);
        n
    }

    pub fn failures(&self) -> (r: usize)
        ensures
            r == count_suites(self.deep_view().suites, Tally::Failed),
    {
        self.count(Tally::Failed)
    }

    pub fn errors(&self) -> (r: usize)
        ensures
            r == count_suites(self.deep_view().suites, Tally::Errored),
    {
        self.count(Tally::Errored)
    }

    pub fn skipped(&self) -> (r: usize)
        ensures
            r == count_suites(self.deep_view().suites, Tally::Skipped),
    {
        self.count(Tally::Skipped)
    }

    /// Concatenates suites.
    pub fn merge(&mut self, other: TestReport)
        ensures
            final(self).deep_view() == merge_reports(old(self).deep_view(), other.deep_view()),
    {
        if self.name.is_none() {
            self.name = other.name;
        }
        append_all(&mut self.suites, other.suites);
    }

    /// Rewrites every path.
    pub fn normalize_paths(&mut self, mapper: &PathMapper)
        ensures
            final(self).deep_view() == normalize_report(old(self).deep_view(), mapper@),
    {
        if mapper.is_noop() {
            return;
        }
        let ghost all = self.suites.deep_view();
        let ghost goal = all.map_values(|s: TestSuiteView| map_suite(s, mapper@));
        let mut out: Vec<TestSuite> = empty_list();
        let mut i: usize = 0;
        while i < self.suites.len()
            invariant
                i <= self.suites@.len(),
                all == self.suites.deep_view(),
                goal == all.map_values(|s: TestSuiteView| map_suite(s, mapper@)),
                out.deep_view() == goal.take(i as int),
            decreases self.suites@.len() - i,
        {
            append_one(&mut out, mapped_suite(&self.suites[i], mapper));
            i = i + 1;
            assert(out.deep_view() =~= goal.take(i as int));
        }
        assert(out.deep_view() =~= goal);
        self.suites = out;
    }
}

proof fn total_of_concat(a: Seq<TestSuiteView>, b: Seq<TestSuiteView>)
    ensures
        total_cases(a + b) == total_cases(a).wrapping_add(total_cases(b)),
    decreases b.len(),
{
    if b.len() == 0 {
        assert(a + b =~= a);
    } else {
        total_of_concat(a, b.drop_last());
        assert((a + b).drop_last() =~= a + b.drop_last());
    }
}

/// Merging folds nothing: every suite of both reports is there, in order, and
/// the numbers of cases add up.
pub proof fn merge_concatenates(mine: TestReportView, theirs: TestReportView)
    ensures
        merge_reports(mine, theirs).suites.take(mine.suites.len() as int) == mine.suites,
        merge_reports(mine, theirs).suites.skip(mine.suites.len() as int) == theirs.suites,
        total_cases(merge_reports(mine, theirs).suites) == total_cases(mine.suites).wrapping_add(
            total_cases(theirs.suites),
        ),
{
    let all = mine.suites + theirs.suites;
    assert(all.take(mine.suites.len() as int) =~= mine.suites);
    assert(all.skip(mine.suites.len() as int) =~= theirs.suites);
    total_of_concat(mine.suites, theirs.suites);
}

} // verus!
