//! TRX — the Visual Studio test result format, and what `dotnet test` writes by
//! default.
//!
//! Three things shape the reader:
//!
//! - Results and their class names live apart. A `UnitTestResult` carries a
//!   `testId`; the class it belongs to is in `TestDefinitions`, keyed by the
//!   same id, and may come after the results, so the join happens at the end.
//! - Data-driven tests nest. A `[DataRow]` test emits a parent result whose
//!   `InnerResults` hold one child per row. Emitting both would count every row
//!   twice, so a parent with inner results is dropped in favour of its children.
//! - TRX has a dozen outcomes. The ones that mean "did not run" become skipped
//!   rather than being invented as passes.
//!
//! Read-only: a TRX file is a web of cross-references that would all have to be
//! fabricated.

use vstd::prelude::*;

use crate::error::{parse_error, Error, ErrorView};
use crate::formats::tests::junit::{captured, take_text};
use crate::model::tests::{
    Elapsed, ElapsedView, Outcome, OutcomeView, Problem, ProblemView, TestCase, TestCaseView,
    TestReport, TestReportView, TestSuite, TestSuiteView,
};
use crate::registry::{read_result, Doc, DocView};
use crate::text::{
    contains_char, cut, has_char, owned, rcut, rsplit_once, same, split_once, trim, trimmed,
};
use crate::value::{
    append_one, empty_list, find_key, if_any, key_at, lookup, non_empty, or_text, replace_at,
    text_or, Value,
};
use crate::warn::{CtxView, FormatCtx};
use crate::xml::{
    float_literal, get_attr, is_float_literal, read_events, xml_events, EventView, Tag, TagView,
    XmlEvent,
};

verus! {

pub const FORMAT: &'static str = "trx";

// ---------------------------------------------------------------------------
// Results
// ---------------------------------------------------------------------------

/// The outcome that a name stands for. Everything that means "did not run" is
/// skipped, and everything that means "the harness broke" is an error rather
/// than a failure. The name is kept: it alone tells a timeout from an abort.
pub open spec fn outcome_named(raw: Seq<char>) -> OutcomeView {
    let problem = ProblemView { kind: non_empty(Some(raw)), ..ProblemView::empty() };
    if raw == "Passed"@ || raw == "PassedButRunAborted"@ || raw == "Completed"@ {
        OutcomeView::Passed
    } else if raw == "Failed"@ {
        OutcomeView::Failed(problem)
    } else if raw == "Timeout"@ || raw == "Aborted"@ || raw == "Error"@ || raw
        == "Disconnected"@ {
        OutcomeView::Errored(problem)
    } else {
        OutcomeView::Skipped {
            message: if raw.len() == 0 || raw == "NotExecuted"@ {
                None
            } else {
                Some(raw)
            },
        }
    }
}

pub fn outcome_of(raw: &Option<String>) -> (r: Outcome)
    ensures
        r.deep_view() == outcome_named(or_text(raw.deep_view(), ""@)),
{
    let raw = text_or(raw, "");
    let problem = Problem { message: None, kind: if_any(Some(owned(raw))), detail: None };
    if same(raw, "Passed") || same(raw, "PassedButRunAborted") || same(raw, "Completed") {
        Outcome::Passed
    } else if same(raw, "Failed") {
        Outcome::Failed(problem)
    } else if same(raw, "Timeout") || same(raw, "Aborted") || same(raw, "Error") || same(
        raw,
        "Disconnected",
    ) {
        Outcome::Errored(problem)
    } else {
        Outcome::Skipped {
            message: if raw.is_empty() || same(raw, "NotExecuted") {
                None
            } else {
                Some(owned(raw))
            },
        }
    }
}

/// The class of `Acme.Tests.CalcTests.Divides`. A parameter list is dropped
/// first: its dots do not count.
pub open spec fn class_part(name: Seq<char>) -> Option<Seq<char>> {
    let bare = match split_once(name, '(') {
        Some((bare, _)) => bare,
        None => name,
    };
    match rsplit_once(bare, '.') {
        Some((class, _)) => Some(class),
        None => None,
    }
}

pub fn class_from_name(name: &str) -> (r: Option<String>)
    ensures
        r.deep_view() == class_part(name@),
{
    let bare = match cut(name, '(') {
        Some((bare, _)) => bare,
        None => owned(name),
    };
    match rcut(bare.as_str(), '.') {
        Some((class, _)) => Some(class),
        None => None,
    }
}

/// The parts of `hh:mm:ss[.fffffff]`.
pub open spec fn clock(days: Option<Seq<char>>, rest: Seq<char>) -> Option<ElapsedView> {
    match split_once(rest, ':') {
        None => None,
        Some((hours, rest)) => match split_once(rest, ':') {
            None => None,
            Some((minutes, seconds)) => if float_literal(hours) && float_literal(minutes)
                && float_literal(seconds) && !contains_char(seconds, ':') {
                Some(ElapsedView::Span { days, hours, minutes, seconds })
            } else {
                None
            },
        },
    }
}

/// The duration of a .NET `TimeSpan`, `[d.]hh:mm:ss[.fffffff]`. A leading `d.`
/// only exists when what precedes the dot is a plain day count; `00:00:00.5`
/// has its dot in the seconds.
pub open spec fn duration_of(raw: Seq<char>) -> Option<ElapsedView> {
    let text = trim(raw);
    match split_once(text, '.') {
        Some((head, tail)) => if contains_char(head, ':') {
            clock(None, text)
        } else if float_literal(head) {
            clock(Some(head), tail)
        } else {
            None
        },
        None => clock(None, text),
    }
}

fn read_clock(days: Option<String>, rest: &str) -> (r: Option<Elapsed>)
    ensures
        r.deep_view() == clock(days.deep_view(), rest@),
{
    match cut(rest, ':') {
        None => None,
        Some((hours, rest)) => match cut(rest.as_str(), ':') {
            None => None,
            Some((minutes, seconds)) => if is_float_literal(hours.as_str()) && is_float_literal(
                minutes.as_str(),
            ) && is_float_literal(seconds.as_str()) && !has_char(seconds.as_str(), ':') {
                Some(Elapsed::Span { days, hours, minutes, seconds })
            } else {
                None
            },
        },
    }
}

pub fn parse_duration(raw: &str) -> (r: Option<Elapsed>)
    ensures
        r.deep_view() == duration_of(raw@),
{
    let text = trimmed(raw);
    match cut(text.as_str(), '.') {
        Some((head, tail)) => if has_char(head.as_str(), ':') {
            read_clock(None, text.as_str())
        } else if is_float_literal(head.as_str()) {
            read_clock(Some(head), tail.as_str())
        } else {
            None
        },
        None => read_clock(None, text.as_str()),
    }
}

/// A result before its class is known.
pub struct PendingView {
    pub test_id: Option<Seq<char>>,
    pub case: TestCaseView,
    /// Whether the result summarizes its rows rather than being a test of its
    /// own.
    pub has_inner: bool,
}

struct Pending {
    test_id: Option<String>,
    case: TestCase,
    has_inner: bool,
}

impl DeepView for Pending {
    type V = PendingView;

    closed spec fn deep_view(&self) -> PendingView {
        PendingView {
            test_id: self.test_id.deep_view(),
            case: self.case.deep_view(),
            has_inner: self.has_inner,
        }
    }
}

pub open spec fn result_of(tag: TagView) -> PendingView {
    PendingView {
        test_id: tag.attr("testId"@),
        case: TestCaseView {
            time: match tag.attr("duration"@) {
                Some(raw) => duration_of(raw),
                None => None,
            },
            ..TestCaseView::of(
                or_text(tag.attr("testName"@), "(unnamed)"@),
                outcome_named(or_text(tag.attr("outcome"@), ""@)),
            )
        },
        has_inner: false,
    }
}

fn start_case(tag: &Tag) -> (r: Pending)
    ensures
        r.deep_view() == result_of(tag.deep_view()),
{
    let name = get_attr(tag, "testName");
    let mut case = TestCase::new(
        text_or(&name, "(unnamed)"),
        outcome_of(&get_attr(tag, "outcome")),
    );
    case.time = match get_attr(tag, "duration") {
        Some(raw) => parse_duration(raw.as_str()),
        None => None,
    };
    Pending { test_id: get_attr(tag, "testId"), case, has_inner: false }
}

// ---------------------------------------------------------------------------
// Text
// ---------------------------------------------------------------------------

/// Where character data currently being read should go.
#[derive(Clone, Copy, PartialEq, Eq, Structural)]
pub enum Sink {
    Discard,
    Message,
    StackTrace,
    StdOut,
    StdErr,
}

/// The case with text attached. Error details of a result that is no failure —
/// a warning, say — do not change its outcome and go to its error output.
pub open spec fn text_applied(
    case: TestCaseView,
    sink: Sink,
    text: Option<Seq<char>>,
) -> TestCaseView {
    match (text, sink) {
        (Some(t), Sink::Message) => match case.outcome {
            OutcomeView::Failed(p) => TestCaseView {
                outcome: OutcomeView::Failed(ProblemView { message: text, ..p }),
                ..case
            },
            OutcomeView::Errored(p) => TestCaseView {
                outcome: OutcomeView::Errored(ProblemView { message: text, ..p }),
                ..case
            },
            _ => TestCaseView { system_err: text, ..case },
        },
        (Some(t), Sink::StackTrace) => match case.outcome {
            OutcomeView::Failed(p) => TestCaseView {
                outcome: OutcomeView::Failed(ProblemView { detail: text, ..p }),
                ..case
            },
            OutcomeView::Errored(p) => TestCaseView {
                outcome: OutcomeView::Errored(ProblemView { detail: text, ..p }),
                ..case
            },
            _ => TestCaseView { system_err: text, ..case },
        },
        (Some(t), Sink::StdOut) => TestCaseView { system_out: text, ..case },
        (Some(t), Sink::StdErr) => TestCaseView { system_err: text, ..case },
        _ => case,
    }
}

pub fn apply_text(case: &mut TestCase, sink: Sink, text: Option<String>)
    ensures
        final(case).deep_view() == text_applied(old(case).deep_view(), sink, text.deep_view()),
{
    if text.is_none() {
        return;
    }
    match sink {
        Sink::Message => {
            match &mut case.outcome {
                Outcome::Failed(problem) => {
                    problem.message = text;
                },
                Outcome::Errored(problem) => {
                    problem.message = text;
                },
                _ => {
                    case.system_err = text;
                },
            }
        },
        Sink::StackTrace => {
            match &mut case.outcome {
                Outcome::Failed(problem) => {
                    problem.detail = text;
                },
                Outcome::Errored(problem) => {
                    problem.detail = text;
                },
                _ => {
                    case.system_err = text;
                },
            }
        },
        Sink::StdOut => {
            case.system_out = text;
        },
        Sink::StdErr => {
            case.system_err = text;
        },
        Sink::Discard => {},
    }
}

// ---------------------------------------------------------------------------
// The state of the reader
// ---------------------------------------------------------------------------

/// What has been read so far. Results nest for data-driven tests.
pub struct StateView {
    pub saw_root: bool,
    pub started: Option<Seq<char>>,
    pub pending: Seq<PendingView>,
    /// The class of each test id.
    pub classes: Seq<(Seq<char>, Seq<char>)>,
    pub open: Seq<PendingView>,
    /// The id of the `<UnitTest>` that awaits its `<TestMethod>`.
    pub definition: Option<Seq<char>>,
    pub sink: Sink,
    pub text: Seq<char>,
}

pub struct State {
    saw_root: bool,
    started: Option<String>,
    pending: Vec<Pending>,
    classes: Vec<(String, String)>,
    open: Vec<Pending>,
    definition: Option<String>,
    sink: Sink,
    text: String,
}

impl View for State {
    type V = StateView;

    closed spec fn view(&self) -> StateView {
        StateView {
            saw_root: self.saw_root,
            started: self.started.deep_view(),
            pending: self.pending.deep_view(),
            classes: self.classes.deep_view(),
            open: self.open.deep_view(),
            definition: self.definition.deep_view(),
            sink: self.sink,
            text: self.text@,
        }
    }
}

pub open spec fn first_state() -> StateView {
    StateView {
        saw_root: false,
        started: None,
        pending: Seq::empty(),
        classes: Seq::empty(),
        open: Seq::empty(),
        definition: None,
        sink: Sink::Discard,
        text: Seq::empty(),
    }
}

/// The pairs with one more: it replaces the pair of that key.
pub open spec fn put_pair(
    pairs: Seq<(Seq<char>, Seq<char>)>,
    key: Seq<char>,
    value: Seq<char>,
) -> Seq<(Seq<char>, Seq<char>)> {
    if key_at(pairs, key) < pairs.len() {
        pairs.update(key_at(pairs, key), (key, value))
    } else {
        pairs.push((key, value))
    }
}

pub open spec fn collecting(s: StateView, sink: Sink, empty: bool) -> StateView {
    StateView {
        text: Seq::empty(),
        sink: if empty {
            Sink::Discard
        } else {
            sink
        },
        ..s
    }
}

/// The state behind a start tag, or an empty-element one.
pub open spec fn started(s: StateView, tag: TagView, empty: bool) -> StateView {
    if tag.name == "TestRun"@ {
        StateView { saw_root: true, ..s }
    } else if tag.name == "Times"@ {
        StateView { started: tag.attr("start"@), ..s }
    } else if tag.name == "UnitTestResult"@ || tag.name == "TestResult"@ {
        if empty {
            StateView { pending: s.pending.push(result_of(tag)), ..s }
        } else {
            StateView { open: s.open.push(result_of(tag)), ..s }
        }
    } else if tag.name == "InnerResults"@ {
        if s.open.len() > 0 {
            StateView {
                open: s.open.update(
                    s.open.len() - 1,
                    PendingView { has_inner: true, ..s.open.last() },
                ),
                ..s
            }
        } else {
            s
        }
    } else if tag.name == "UnitTest"@ {
        StateView { definition: tag.attr("id"@), ..s }
    } else if tag.name == "TestMethod"@ {
        match (s.definition, tag.attr("className"@)) {
            (Some(id), Some(class)) => StateView { classes: put_pair(s.classes, id, class), ..s },
            _ => s,
        }
    } else if tag.name == "Message"@ {
        collecting(s, Sink::Message, empty)
    } else if tag.name == "StackTrace"@ {
        collecting(s, Sink::StackTrace, empty)
    } else if tag.name == "StdOut"@ {
        collecting(s, Sink::StdOut, empty)
    } else if tag.name == "StdErr"@ {
        collecting(s, Sink::StdErr, empty)
    } else {
        s
    }
}

pub open spec fn text_ended(s: StateView) -> StateView {
    let next = StateView { text: Seq::empty(), sink: Sink::Discard, ..s };
    if s.open.len() > 0 {
        let top = s.open.last();
        StateView {
            open: s.open.update(
                s.open.len() - 1,
                PendingView { case: text_applied(top.case, s.sink, captured(s.text)), ..top },
            ),
            ..next
        }
    } else {
        next
    }
}

/// The state behind an end tag.
pub open spec fn ended(s: StateView, name: Seq<char>) -> StateView {
    if name == "UnitTestResult"@ || name == "TestResult"@ {
        if s.open.len() > 0 {
            StateView {
                pending: s.pending.push(s.open.last()),
                open: s.open.drop_last(),
                ..s
            }
        } else {
            s
        }
    } else if name == "UnitTest"@ {
        StateView { definition: None, ..s }
    } else if name == "Message"@ || name == "StackTrace"@ || name == "StdOut"@ || name
        == "StdErr"@ {
        text_ended(s)
    } else {
        s
    }
}

/// The state behind one more event, or why reading stops there.
pub open spec fn stepped(s: StateView, event: EventView) -> Result<StateView, ErrorView> {
    match event {
        EventView::Start(tag) => Ok(started(s, tag, false)),
        EventView::Empty(tag) => Ok(started(s, tag, true)),
        EventView::End(name) => Ok(ended(s, name)),
        EventView::Text(text) => if s.sink is Discard {
            Ok(s)
        } else {
            match text {
                Ok(t) => Ok(StateView { text: s.text + t, ..s }),
                Err(problem) => Err(parse_error(FORMAT@, problem)),
            }
        },
        EventView::CData(text) => if s.sink is Discard {
            Ok(s)
        } else {
            Ok(StateView { text: s.text + text, ..s })
        },
        EventView::Failed(problem) => Err(parse_error(FORMAT@, problem)),
        _ => Ok(s),
    }
}

impl State {
    fn new() -> (r: Self)
        ensures
            r@ == first_state(),
    {
        State {
            saw_root: false,
            started: None,
            pending: empty_list(),
            classes: empty_list(),
            open: empty_list(),
            definition: None,
            sink: Sink::Discard,
            text: String::new(),
        }
    }

    fn mark_inner(&mut self)
        ensures
            final(self)@ == (if old(self)@.open.len() > 0 {
                StateView {
                    open: old(self)@.open.update(
                        old(self)@.open.len() - 1,
                        PendingView { has_inner: true, ..old(self)@.open.last() },
                    ),
                    ..old(self)@
                }
            } else {
                old(self)@
            }),
    {
        let ghost before = self.open.deep_view();
        let n = self.open.len();
        if n > 0 {
            self.open[n - 1].has_inner = true;
            assert(self.open.deep_view() =~= before.update(
                n - 1,
                PendingView { has_inner: true, ..before.last() },
            ));
        }
    }

    fn define(&mut self, tag: &Tag)
        ensures
            final(self)@ == (match (
                old(self)@.definition,
                tag.deep_view().attr("className"@),
            ) {
                (Some(id), Some(class)) => StateView {
                    classes: put_pair(old(self)@.classes, id, class),
                    ..old(self)@
                },
                _ => old(self)@,
            }),
    {
        if let (Some(id), Some(class)) = (&self.definition, get_attr(tag, "className")) {
            let at = find_key(&self.classes, id.as_str());
            let pair = (id.clone(), class);
            if at < self.classes.len() {
                replace_at(&mut self.classes, at, pair);
            } else {
                append_one(&mut self.classes, pair);
            }
        }
    }

    fn collect(&mut self, sink: Sink, empty: bool)
        ensures
            final(self)@ == collecting(old(self)@, sink, empty),
    {
        self.text = String::new();
        self.sink = if empty {
            Sink::Discard
        } else {
            sink
        };
    }

    fn start(&mut self, tag: &Tag, empty: bool)
        ensures
            final(self)@ == started(old(self)@, tag.deep_view(), empty),
    {
        let name = tag.name.as_str();
        if same(name, "TestRun") {
            self.saw_root = true;
        } else if same(name, "Times") {
            self.started = get_attr(tag, "start");
        } else if same(name, "UnitTestResult") || same(name, "TestResult") {
            let case = start_case(tag);
            if empty {
                append_one(&mut self.pending, case);
            } else {
                append_one(&mut self.open, case);
            }
        } else if same(name, "InnerResults") {
            self.mark_inner();
        } else if same(name, "UnitTest") {
            self.definition = get_attr(tag, "id");
        } else if same(name, "TestMethod") {
            self.define(tag);
        } else if same(name, "Message") {
            self.collect(Sink::Message, empty);
        } else if same(name, "StackTrace") {
            self.collect(Sink::StackTrace, empty);
        } else if same(name, "StdOut") {
            self.collect(Sink::StdOut, empty);
        } else if same(name, "StdErr") {
            self.collect(Sink::StdErr, empty);
        }
    }

    fn end_text(&mut self)
        ensures
            final(self)@ == text_ended(old(self)@),
    {
        let ghost before = self.open.deep_view();
        let text = take_text(self.text.as_str());
        let n = self.open.len();
        if n > 0 {
            apply_text(&mut self.open[n - 1].case, self.sink, text);
            assert(self.open.deep_view() =~= text_ended(old(self)@).open);
        }
        self.text = String::new();
        self.sink = Sink::Discard;
    }

    fn end(&mut self, name: &str)
        ensures
            final(self)@ == ended(old(self)@, name@),
    {
        if same(name, "UnitTestResult") || same(name, "TestResult") {
            let ghost before = self.open.deep_view();
            if let Some(case) = self.open.pop() {
                assert(self.open.deep_view() =~= before.drop_last());
                append_one(&mut self.pending, case);
            }
        } else if same(name, "UnitTest") {
            self.definition = None;
        } else if same(name, "Message") || same(name, "StackTrace") || same(name, "StdOut")
            || same(name, "StdErr") {
            self.end_text();
        }
    }

    fn step(&mut self, event: &XmlEvent) -> (r: Result<(), Error>)
        ensures
            match stepped(old(self)@, event.deep_view()) {
                Ok(s) => r is Ok && final(self)@ == s,
                Err(e) => r is Err && r->Err_0.deep_view() == e,
            },
    {
        match event {
            XmlEvent::Start(tag) => self.start(tag, false),
            XmlEvent::Empty(tag) => self.start(tag, true),
            XmlEvent::End(name) => self.end(name.as_str()),
            XmlEvent::Text(text) => {
                if self.sink != Sink::Discard {
                    match text {
                        Ok(t) => {
                            self.text.append(t.as_str());
                        },
                        Err(problem) => {
                            return Err(Error::parse(FORMAT, problem.as_str()));
                        },
                    }
                }
            },
            XmlEvent::CData(text) => {
                if self.sink != Sink::Discard {
                    self.text.append(text.as_str());
                }
            },
            XmlEvent::Failed(problem) => {
                return Err(Error::parse(FORMAT, problem.as_str()));
            },
            _ => {},
        }
        Ok(())
    }
}

// ---------------------------------------------------------------------------
// Suites
// ---------------------------------------------------------------------------

/// The class of a result: of its definition, else of its name.
pub open spec fn class_of(
    entry: PendingView,
    classes: Seq<(Seq<char>, Seq<char>)>,
) -> Seq<char> {
    let defined = match entry.test_id {
        Some(id) => lookup(classes, id),
        None => None,
    };
    match defined {
        Some(class) => class,
        None => or_text(class_part(entry.case.name), "(unknown)"@),
    }
}

/// The position of the suite of this name, or the length.
pub open spec fn suite_at(suites: Seq<TestSuiteView>, name: Seq<char>) -> int
    decreases suites.len(),
{
    if suites.len() == 0 || suites[0].name == name {
        0
    } else {
        1 + suite_at(suites.skip(1), name)
    }
}

/// The suites with one more case, in the suite of this name.
pub open spec fn case_placed(
    suites: Seq<TestSuiteView>,
    name: Seq<char>,
    case: TestCaseView,
    timestamp: Option<Seq<char>>,
) -> Seq<TestSuiteView> {
    let at = suite_at(suites, name);
    if at < suites.len() {
        suites.update(at, TestSuiteView { cases: suites[at].cases.push(case), ..suites[at] })
    } else {
        suites.push(
            TestSuiteView { timestamp, cases: seq![case], ..TestSuiteView::of(name) },
        )
    }
}

/// The suites of these results. A parent that only summarizes its rows is left
/// out.
pub open spec fn suites_of(
    pending: Seq<PendingView>,
    classes: Seq<(Seq<char>, Seq<char>)>,
    timestamp: Option<Seq<char>>,
) -> Seq<TestSuiteView>
    decreases pending.len(),
{
    if pending.len() == 0 {
        Seq::empty()
    } else {
        let before = suites_of(pending.drop_last(), classes, timestamp);
        let entry = pending.last();
        if entry.has_inner {
            before
        } else {
            let class = class_of(entry, classes);
            case_placed(
                before,
                class,
                TestCaseView { classname: Some(class), ..entry.case },
                timestamp,
            )
        }
    }
}

fn find_class(entry: &Pending, classes: &Vec<(String, String)>) -> (r: String)
    ensures
        r@ == class_of(entry.deep_view(), classes.deep_view()),
{
    if let Some(id) = &entry.test_id {
        let at = find_key(classes, id.as_str());
        if at < classes.len() {
            assert(classes.deep_view()[at as int].1 == classes[at as int].1@);
            return classes[at].1.clone();
        }
    }
    let class = class_from_name(entry.case.name.as_str());
    owned(text_or(&class, "(unknown)"))
}

pub fn find_suite(suites: &Vec<TestSuite>, name: &str) -> (r: usize)
    ensures
        r <= suites@.len(),
        r == suite_at(suites.deep_view(), name@),
{
    let ghost all = suites.deep_view();
    let mut at: usize = 0;
    assert(all.skip(0) =~= all);
    while at < suites.len() && !same(suites[at].name.as_str(), name)
        invariant
            at <= suites@.len(),
            all == suites.deep_view(),
            suite_at(all, name@) == at + suite_at(all.skip(at as int), name@),
        decreases suites@.len() - at,
    {
        assert(all.skip(at as int)[0] == all[at as int]);
        assert(all.skip(at as int).skip(1) =~= all.skip(at as int + 1));
        at = at + 1;
    }
    proof {
        if at < suites@.len() {
            assert(all.skip(at as int)[0] == all[at as int]);
        }
    }
    at
}

fn place_case(
    suites: &mut Vec<TestSuite>,
    name: &str,
    case: TestCase,
    timestamp: &Option<String>,
)
    ensures
        final(suites).deep_view() == case_placed(
            old(suites).deep_view(),
            name@,
            case.deep_view(),
            timestamp.deep_view(),
        ),
{
    let ghost before = suites.deep_view();
    let at = find_suite(suites, name);
    if at < suites.len() {
        append_one(&mut suites[at].cases, case);
        assert(suites.deep_view() =~= case_placed(
            before,
            name@,
            case.deep_view(),
            timestamp.deep_view(),
        ));
    } else {
        let mut suite = TestSuite::new(name);
        suite.timestamp = timestamp.copy();
        append_one(&mut suite.cases, case);
        assert(suite.cases.deep_view() =~= seq![case.deep_view()]);
        append_one(suites, suite);
    }
}

fn build_suites(state: &State) -> (r: Vec<TestSuite>)
    ensures
        r.deep_view() == suites_of(state@.pending, state@.classes, state@.started),
{
    let ghost all = state.pending.deep_view();
    let mut suites: Vec<TestSuite> = empty_list();
    let mut i: usize = 0;
    assert(all.take(0) =~= Seq::empty());
    while i < state.pending.len()
        invariant
            i <= state.pending@.len(),
            all == state.pending.deep_view(),
            suites.deep_view() == suites_of(
                all.take(i as int),
                state.classes.deep_view(),
                state.started.deep_view(),
            ),
        decreases state.pending@.len() - i,
    {
        assert(all.take(i as int + 1).drop_last() =~= all.take(i as int));
        let entry = &state.pending[i];
        if !entry.has_inner {
            let class = find_class(entry, &state.classes);
            let mut case = entry.case.copy();
            case.classname = Some(class.clone());
            place_case(&mut suites, class.as_str(), case, &state.started);
        }
        i = i + 1;
    }
    assert(all.take(i as int) =~= all);
    suites
}

// ---------------------------------------------------------------------------
// Reading
// ---------------------------------------------------------------------------

/// The state behind these events, or why reading stops.
pub open spec fn folded(events: Seq<EventView>) -> Result<StateView, ErrorView>
    decreases events.len(),
{
    if events.len() == 0 {
        Ok(first_state())
    } else {
        match folded(events.drop_last()) {
            Ok(s) => stepped(s, events.last()),
            Err(e) => Err(e),
        }
    }
}

proof fn a_stop_is_final(events: Seq<EventView>, i: int)
    requires
        0 <= i <= events.len(),
        folded(events.take(i)) is Err,
    ensures
        folded(events) == folded(events.take(i)),
    decreases events.len(),
{
    if i < events.len() {
        assert(events.drop_last().take(i) =~= events.take(i));
        a_stop_is_final(events.drop_last(), i);
    } else {
        assert(events.take(i) =~= events);
    }
}

/// The document that reading these events gives, or the refusal, and what is to
/// be said about it.
pub open spec fn read_spec(events: Seq<EventView>, ctx: CtxView) -> (
    Result<DocView, ErrorView>,
    CtxView,
) {
    match folded(events) {
        Err(e) => (Err(e), ctx),
        Ok(s) => {
            let suites = suites_of(s.pending, s.classes, s.started);
            if !s.saw_root {
                (
                    Err(
                        parse_error(
                            FORMAT@,
                            "no <TestRun> root element — this does not look like a TRX file"@,
                        ),
                    ),
                    ctx,
                )
            } else if suites.len() == 0 {
                (Err(parse_error(FORMAT@, "no test result in <Results>"@)), ctx)
            } else {
                (
                    Ok(DocView::Tests(TestReportView { suites, ..TestReportView::empty() })),
                    ctx.lossy_if(
                        suite_at(suites, "(unknown)"@) < suites.len(),
                        "trx: some results had no matching <UnitTest> definition, so their class could not be resolved and they were grouped under '(unknown)'"@,
                    ),
                )
            }
        },
    }
}

/// Reads the events of a document.
pub fn read_document(events: &Vec<XmlEvent>, ctx: &mut FormatCtx) -> (r: Result<Doc, Error>)
    ensures
        (read_result(r), final(ctx)@) == read_spec(events.deep_view(), old(ctx)@),
{
    let ghost all = events.deep_view();
    let mut state = State::new();
    let mut i: usize = 0;
    assert(all.take(0) =~= Seq::empty());
    while i < events.len()
        invariant
            i <= events@.len(),
            all == events.deep_view(),
            ctx@ == old(ctx)@,
            folded(all.take(i as int)) == Ok::<StateView, ErrorView>(state@),
        decreases events@.len() - i,
    {
        assert(all.take(i as int + 1).drop_last() =~= all.take(i as int));
        assert(all.take(i as int + 1).last() == events[i as int].deep_view());
        match state.step(&events[i]) {
            Ok(_) => {},
            Err(e) => {
                proof {
                    a_stop_is_final(all, i as int + 1);
                }
                return Err(e);
            },
        }
        i = i + 1;
    }
    assert(all.take(i as int) =~= all);
    if !state.saw_root {
        return Err(
            Error::parse(
                FORMAT,
                "no <TestRun> root element — this does not look like a TRX file",
            ),
        );
    }
    let suites = build_suites(&state);
    if suites.len() == 0 {
        return Err(Error::parse(FORMAT, "no test result in <Results>"));
    }
    if find_suite(&suites, "(unknown)") < suites.len() {
        ctx.lossy(
            "trx: some results had no matching <UnitTest> definition, so their class could not be resolved and they were grouped under '(unknown)'",
        );
    }
    let mut report = TestReport::default();
    report.suites = suites;
    Ok(Doc::Tests(report))
}

pub fn read(input: &[u8], ctx: &mut FormatCtx) -> (r: Result<Doc, Error>)
    ensures
        (read_result(r), final(ctx)@) == read_spec(xml_events(input@, false), old(ctx)@),
{
    let events = read_events(input, false);
    read_document(&events, ctx)
}

// ---------------------------------------------------------------------------
// Laws
// ---------------------------------------------------------------------------

/// Only three names stand for a pass: a result that did not run is never one.
pub proof fn passes_are_not_invented(raw: Seq<char>)
    ensures
        outcome_named(raw) is Passed <==> raw == "Passed"@ || raw == "PassedButRunAborted"@ || raw
            == "Completed"@,
{
}

/// How many cases some suites hold.
pub open spec fn placed_count(suites: Seq<TestSuiteView>) -> nat
    decreases suites.len(),
{
    if suites.len() == 0 {
        0
    } else {
        placed_count(suites.drop_last()) + suites.last().cases.len()
    }
}

/// How many results are tests of their own.
pub open spec fn own_count(pending: Seq<PendingView>) -> nat
    decreases pending.len(),
{
    if pending.len() == 0 {
        0
    } else {
        own_count(pending.drop_last()) + if pending.last().has_inner {
            0nat
        } else {
            1nat
        }
    }
}

proof fn suite_at_props(suites: Seq<TestSuiteView>, name: Seq<char>)
    ensures
        0 <= suite_at(suites, name) <= suites.len(),
    decreases suites.len(),
{
    if suites.len() > 0 {
        suite_at_props(suites.skip(1), name);
    }
}

proof fn one_more_counts(suites: Seq<TestSuiteView>, at: int, case: TestCaseView)
    requires
        0 <= at < suites.len(),
    ensures
        placed_count(
            suites.update(
                at,
                TestSuiteView { cases: suites[at].cases.push(case), ..suites[at] },
            ),
        ) == placed_count(suites) + 1,
    decreases suites.len(),
{
    let next = suites.update(
        at,
        TestSuiteView { cases: suites[at].cases.push(case), ..suites[at] },
    );
    if at == suites.len() - 1 {
        assert(next.drop_last() =~= suites.drop_last());
    } else {
        one_more_counts(suites.drop_last(), at, case);
        assert(next.drop_last() =~= suites.drop_last().update(
            at,
            TestSuiteView { cases: suites[at].cases.push(case), ..suites[at] },
        ));
    }
}

/// Every result is counted once: the suites hold as many cases as there are
/// results that are tests of their own.
pub proof fn results_are_counted_once(
    pending: Seq<PendingView>,
    classes: Seq<(Seq<char>, Seq<char>)>,
    timestamp: Option<Seq<char>>,
)
    ensures
        placed_count(suites_of(pending, classes, timestamp)) == own_count(pending),
    decreases pending.len(),
{
    if pending.len() > 0 {
        results_are_counted_once(pending.drop_last(), classes, timestamp);
        let before = suites_of(pending.drop_last(), classes, timestamp);
        let entry = pending.last();
        if !entry.has_inner {
            let class = class_of(entry, classes);
            let case = TestCaseView { classname: Some(class), ..entry.case };
            let at = suite_at(before, class);
            suite_at_props(before, class);
            if at < before.len() {
                one_more_counts(before, at, case);
            } else {
                let suite = TestSuiteView {
                    timestamp,
                    cases: seq![case],
                    ..TestSuiteView::of(class)
                };
                assert(before.push(suite).drop_last() =~= before);
            }
        }
    }
}

} // verus!
