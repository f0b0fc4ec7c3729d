//! JUnit XML.
//!
//! "JUnit XML" is not a specification but a family of dialects: Ant, Maven
//! Surefire, pytest, Jest, GoogleTest and a dozen others each emit their own
//! variation. The writer therefore targets the conservative common shape, while
//! the reader is deliberately permissive:
//!
//! - the root may be `<testsuites>` or a bare `<testsuite>`;
//! - suites may nest, and are flattened with a dotted name;
//! - counts declared on the elements are ignored and recomputed from the cases,
//!   because producers disagree on whether `tests` includes skipped ones.

use vstd::prelude::*;

use crate::error::{parse_error, Error, ErrorView};
use crate::formats::tests::junit_trip::{holds_report, kept_report, written_bytes_read_back};
use crate::model::tests::{
    count_cases, count_suites, total_cases, Elapsed, ElapsedView, Outcome, OutcomeView, Problem,
    ProblemView, Tally, TestCase, TestCaseView, TestReport, TestReportView, TestSuite,
    TestSuiteView,
};
use crate::registry::{read_result, wrong_kind, Doc, DocView};
use crate::text::{concat3, decimal, owned, same, trim, trimmed, written_numbers_parse};
use crate::value::{append_one, empty_list, if_any, non_empty, or_text, text_or, Value};
use crate::warn::FormatCtx;
use crate::xml::{
    and_attr, and_number, carries, close_item, declaration_item, empty_item, get_attr, get_number,
    get_u32, no_attrs, open_item, opt_text_items, read_events, rendered, text_result, xml_events,
    AttrView, Attrs, EventView, Item, Tag, TagView, XmlEvent, XmlWriter,
};

verus! {

pub const FORMAT: &'static str = "junit";

// ---------------------------------------------------------------------------
// The state of the reader
// ---------------------------------------------------------------------------

/// Where character data currently being read should end up.
pub enum SinkView {
    Discard,
    Failure(ProblemView),
    Error(ProblemView),
    CaseOut,
    CaseErr,
    SuiteOut,
    SuiteErr,
}

enum Sink {
    Discard,
    Failure(Problem),
    Error(Problem),
    CaseOut,
    CaseErr,
    SuiteOut,
    SuiteErr,
}

impl Sink {
    closed spec fn view(&self) -> SinkView {
        match *self {
            Sink::Discard => SinkView::Discard,
            Sink::Failure(p) => SinkView::Failure(p.deep_view()),
            Sink::Error(p) => SinkView::Error(p.deep_view()),
            Sink::CaseOut => SinkView::CaseOut,
            Sink::CaseErr => SinkView::CaseErr,
            Sink::SuiteOut => SinkView::SuiteOut,
            Sink::SuiteErr => SinkView::SuiteErr,
        }
    }
}

/// What has been read so far. Suites may nest, and are flattened on the way
/// out.
pub struct StateView {
    pub report: TestReportView,
    pub suites: Seq<TestSuiteView>,
    pub case: Option<TestCaseView>,
    pub sink: SinkView,
    pub text: Seq<char>,
    pub saw_root: bool,
}

pub struct State {
    report: TestReport,
    suites: Vec<TestSuite>,
    case: Option<TestCase>,
    sink: Sink,
    text: String,
    saw_root: bool,
}

impl View for State {
    type V = StateView;

    closed spec fn view(&self) -> StateView {
        StateView {
            report: self.report.deep_view(),
            suites: self.suites.deep_view(),
            case: self.case.deep_view(),
            sink: self.sink@,
            text: self.text@,
            saw_root: self.saw_root,
        }
    }
}

pub open spec fn first_state() -> StateView {
    StateView {
        report: TestReportView::empty(),
        suites: Seq::empty(),
        case: None,
        sink: SinkView::Discard,
        text: Seq::empty(),
        saw_root: false,
    }
}

pub open spec fn seconds(text: Option<Seq<char>>) -> Option<ElapsedView> {
    match text {
        Some(t) => Some(ElapsedView::Seconds(t)),
        None => None,
    }
}

pub open spec fn suite_of(tag: TagView) -> TestSuiteView {
    TestSuiteView {
        timestamp: tag.attr("timestamp"@),
        hostname: tag.attr("hostname"@),
        file: tag.attr("file"@),
        time: seconds(tag.attr_number("time"@)),
        ..TestSuiteView::of(or_text(tag.attr("name"@), "(unnamed)"@))
    }
}

pub open spec fn case_of(tag: TagView) -> TestCaseView {
    TestCaseView {
        classname: tag.attr("classname"@),
        file: tag.attr("file"@),
        line: tag.attr_u32("line"@),
        time: seconds(tag.attr_number("time"@)),
        ..TestCaseView::of(or_text(tag.attr("name"@), "(unnamed)"@), OutcomeView::Passed)
    }
}

pub open spec fn problem_of(tag: TagView) -> ProblemView {
    ProblemView { message: tag.attr("message"@), kind: tag.attr("type"@), detail: None }
}

/// The suites with the innermost one in another form.
pub open spec fn with_innermost(
    suites: Seq<TestSuiteView>,
    suite: TestSuiteView,
) -> Seq<TestSuiteView> {
    suites.update(suites.len() - 1, suite)
}

pub open spec fn case_pushed(
    suites: Seq<TestSuiteView>,
    case: TestCaseView,
) -> Seq<TestSuiteView> {
    if suites.len() == 0 {
        suites
    } else {
        with_innermost(
            suites,
            TestSuiteView { cases: suites.last().cases.push(case), ..suites.last() },
        )
    }
}

/// The state with the innermost suite left. Nested suites are flattened into a
/// dotted name, since only one level is kept.
pub open spec fn flattened(s: StateView) -> StateView {
    if s.suites.len() == 0 {
        s
    } else {
        let outer = s.suites.drop_last();
        let suite = s.suites.last();
        let named = if outer.len() > 0 {
            TestSuiteView { name: outer.last().name + "."@ + suite.name, ..suite }
        } else {
            suite
        };
        StateView {
            report: TestReportView { suites: s.report.suites.push(named), ..s.report },
            suites: outer,
            ..s
        }
    }
}

pub open spec fn property_added(s: StateView, tag: TagView) -> StateView {
    match tag.attr("name"@) {
        Some(name) => if s.suites.len() == 0 {
            s
        } else {
            let suite = s.suites.last();
            StateView {
                suites: with_innermost(
                    s.suites,
                    TestSuiteView {
                        properties: suite.properties.push(
                            (name, or_text(tag.attr("value"@), ""@)),
                        ),
                        ..suite
                    },
                ),
                ..s
            }
        },
        None => s,
    }
}

/// The state with the outcome of the open case set.
pub open spec fn outcome_set(s: StateView, outcome: OutcomeView) -> StateView {
    match s.case {
        Some(case) => StateView { case: Some(TestCaseView { outcome, ..case }), ..s },
        None => s,
    }
}

pub open spec fn problem_started(
    s: StateView,
    tag: TagView,
    failed: bool,
    empty: bool,
) -> StateView {
    let problem = problem_of(tag);
    if empty {
        outcome_set(
            s,
            if failed {
                OutcomeView::Failed(problem)
            } else {
                OutcomeView::Errored(problem)
            },
        )
    } else {
        StateView {
            text: Seq::empty(),
            sink: if failed {
                SinkView::Failure(problem)
            } else {
                SinkView::Error(problem)
            },
            ..s
        }
    }
}

pub open spec fn output_started(s: StateView, is_out: bool, empty: bool) -> StateView {
    StateView {
        text: Seq::empty(),
        sink: if empty {
            SinkView::Discard
        } else {
            match (s.case is Some, is_out) {
                (true, true) => SinkView::CaseOut,
                (true, false) => SinkView::CaseErr,
                (false, true) => SinkView::SuiteOut,
                (false, false) => SinkView::SuiteErr,
            }
        },
        ..s
    }
}

/// The state behind a start tag, or an empty-element one.
pub open spec fn started(s: StateView, tag: TagView, empty: bool) -> StateView {
    if tag.name == "testsuites"@ {
        StateView {
            saw_root: true,
            report: TestReportView { name: non_empty(tag.attr("name"@)), ..s.report },
            ..s
        }
    } else if tag.name == "testsuite"@ {
        let next = StateView { saw_root: true, suites: s.suites.push(suite_of(tag)), ..s };
        if empty {
            flattened(next)
        } else {
            next
        }
    } else if tag.name == "property"@ {
        property_added(s, tag)
    } else if tag.name == "testcase"@ {
        if empty {
            StateView { suites: case_pushed(s.suites, case_of(tag)), ..s }
        } else {
            StateView { case: Some(case_of(tag)), ..s }
        }
    } else if tag.name == "failure"@ {
        problem_started(s, tag, true, empty)
    } else if tag.name == "error"@ {
        problem_started(s, tag, false, empty)
    } else if tag.name == "skipped"@ {
        outcome_set(s, OutcomeView::Skipped { message: tag.attr("message"@) })
    } else if tag.name == "system-out"@ {
        output_started(s, true, empty)
    } else if tag.name == "system-err"@ {
        output_started(s, false, empty)
    } else {
        s
    }
}

/// Collected text, trimmed, where anything is left.
pub open spec fn captured(text: Seq<char>) -> Option<Seq<char>> {
    non_empty(Some(trim(text)))
}

pub open spec fn problem_ended(s: StateView) -> StateView {
    let detail = captured(s.text);
    let next = StateView { text: Seq::empty(), sink: SinkView::Discard, ..s };
    match s.sink {
        SinkView::Failure(p) => outcome_set(
            next,
            OutcomeView::Failed(ProblemView { detail, ..p }),
        ),
        SinkView::Error(p) => outcome_set(
            next,
            OutcomeView::Errored(ProblemView { detail, ..p }),
        ),
        _ => next,
    }
}

pub open spec fn output_ended(s: StateView) -> StateView {
    let text = captured(s.text);
    let next = StateView { text: Seq::empty(), sink: SinkView::Discard, ..s };
    match (s.sink, s.case) {
        (SinkView::CaseOut, Some(case)) => StateView {
            case: Some(TestCaseView { system_out: text, ..case }),
            ..next
        },
        (SinkView::CaseErr, Some(case)) => StateView {
            case: Some(TestCaseView { system_err: text, ..case }),
            ..next
        },
        (SinkView::SuiteOut, _) => if s.suites.len() > 0 {
            StateView {
                suites: with_innermost(
                    s.suites,
                    TestSuiteView { system_out: text, ..s.suites.last() },
                ),
                ..next
            }
        } else {
            next
        },
        (SinkView::SuiteErr, _) => if s.suites.len() > 0 {
            StateView {
                suites: with_innermost(
                    s.suites,
                    TestSuiteView { system_err: text, ..s.suites.last() },
                ),
                ..next
            }
        } else {
            next
        },
        _ => next,
    }
}

/// The state behind an end tag.
pub open spec fn ended(s: StateView, name: Seq<char>) -> StateView {
    if name == "failure"@ || name == "error"@ {
        problem_ended(s)
    } else if name == "system-out"@ || name == "system-err"@ {
        output_ended(s)
    } else if name == "testcase"@ {
        match s.case {
            Some(case) => StateView {
                case: None,
                suites: case_pushed(s.suites, case),
                ..s
            },
            None => s,
        }
    } else if name == "testsuite"@ {
        flattened(s)
    } else {
        s
    }
}

/// The state behind one more event, or why reading stops there.
pub open spec fn stepped(s: StateView, event: EventView) -> Result<StateView, ErrorView> {
    match event {
        EventView::Start(tag) => Ok(started(s, tag, false)),
        EventView::Empty(tag) => Ok(started(s, tag, true)),
        EventView::End(name) => Ok(ended(s, name)),
        EventView::Text(text) => if s.sink is Discard {
            Ok(s)
        } else {
            match text {
                Ok(t) => Ok(StateView { text: s.text + t, ..s }),
                Err(problem) => Err(parse_error(FORMAT@, problem)),
            }
        },
        EventView::CData(text) => if s.sink is Discard {
            Ok(s)
        } else {
            Ok(StateView { text: s.text + text, ..s })
        },
        EventView::Failed(problem) => Err(parse_error(FORMAT@, problem)),
        _ => Ok(s),
    }
}

fn in_seconds(text: Option<String>) -> (r: Option<Elapsed>)
    ensures
        r.deep_view() == seconds(text.deep_view()),
{
    match text {
        Some(t) => Some(Elapsed::Seconds(t)),
        None => None,
    }
}

fn read_suite(tag: &Tag) -> (r: TestSuite)
    ensures
        r.deep_view() == suite_of(tag.deep_view()),
{
    let name = get_attr(tag, "name");
    let mut suite = TestSuite::new(text_or(&name, "(unnamed)"));
    suite.timestamp = get_attr(tag, "timestamp");
    suite.hostname = get_attr(tag, "hostname");
    suite.file = get_attr(tag, "file");
    suite.time = in_seconds(get_number(tag, "time"));
    suite
}

fn read_case(tag: &Tag) -> (r: TestCase)
    ensures
        r.deep_view() == case_of(tag.deep_view()),
{
    let name = get_attr(tag, "name");
    let mut case = TestCase::new(text_or(&name, "(unnamed)"), Outcome::Passed);
    case.classname = get_attr(tag, "classname");
    case.file = get_attr(tag, "file");
    case.line = get_u32(tag, "line");
    case.time = in_seconds(get_number(tag, "time"));
    case
}

/// Trims collected text.
pub fn take_text(text: &str) -> (r: Option<String>)
    ensures
        r.deep_view() == captured(text@),
{
    if_any(Some(trimmed(text)))
}

fn push_case(suites: &mut Vec<TestSuite>, case: TestCase)
    ensures
        final(suites).deep_view() == case_pushed(old(suites).deep_view(), case.deep_view()),
{
    let ghost before = suites.deep_view();
    let n = suites.len();
    if n > 0 {
        append_one(&mut suites[n - 1].cases, case);
        assert(suites.deep_view() =~= case_pushed(before, case.deep_view()));
    }
}

impl State {
    fn new() -> (r: Self)
        ensures
            r@ == first_state(),
    {
        State {
            report: TestReport::default(),
            suites: empty_list(),
            case: None,
            sink: Sink::Discard,
            text: String::new(),
            saw_root: false,
        }
    }

    fn flatten(&mut self)
        ensures
            final(self)@ == flattened(old(self)@),
    {
        let ghost before = self.suites.deep_view();
        if let Some(suite) = self.suites.pop() {
            assert(self.suites.deep_view() =~= before.drop_last());
            let n = self.suites.len();
            let mut suite = suite;
            if n > 0 {
                suite.name = concat3(
                    self.suites[n - 1].name.as_str(),
                    ".",
                    suite.name.as_str(),
                );
            }
            append_one(&mut self.report.suites, suite);
        }
    }

    fn add_property(&mut self, tag: &Tag)
        ensures
            final(self)@ == property_added(old(self)@, tag.deep_view()),
    {
        let ghost before = self.suites.deep_view();
        let n = self.suites.len();
        if let Some(name) = get_attr(tag, "name") {
            if n > 0 {
                let value = get_attr(tag, "value");
                let pair = (name, owned(text_or(&value, "")));
                append_one(&mut self.suites[n - 1].properties, pair);
                assert(self.suites.deep_view() =~= property_added(
                    old(self)@,
                    tag.deep_view(),
                ).suites);
            }
        }
    }

    fn set_outcome(&mut self, outcome: Outcome)
        ensures
            final(self)@ == outcome_set(old(self)@, outcome.deep_view()),
    {
        if let Some(case) = &mut self.case {
            case.outcome = outcome;
        }
    }

    fn start_problem(&mut self, tag: &Tag, failed: bool, empty: bool)
        ensures
            final(self)@ == problem_started(old(self)@, tag.deep_view(), failed, empty),
    {
        let problem = Problem {
            message: get_attr(tag, "message"),
            kind: get_attr(tag, "type"),
            detail: None,
        };
        if empty {
            let outcome = if failed {
                Outcome::Failed(problem)
            } else {
                Outcome::Errored(problem)
            };
            self.set_outcome(outcome);
        } else {
            self.text = String::new();
            self.sink = if failed {
                Sink::Failure(problem)
            } else {
                Sink::Error(problem)
            };
        }
    }

    fn start_output(&mut self, is_out: bool, empty: bool)
        ensures
            final(self)@ == output_started(old(self)@, is_out, empty),
    {
        self.text = String::new();
        self.sink = if empty {
            Sink::Discard
        } else {
            match (self.case.is_some(), is_out) {
                (true, true) => Sink::CaseOut,
                (true, false) => Sink::CaseErr,
                (false, true) => Sink::SuiteOut,
                (false, false) => Sink::SuiteErr,
            }
        };
    }

    fn start(&mut self, tag: &Tag, empty: bool)
        ensures
            final(self)@ == started(old(self)@, tag.deep_view(), empty),
    {
        let name = tag.name.as_str();
        if same(name, "testsuites") {
            self.saw_root = true;
            self.report.name = if_any(get_attr(tag, "name"));
        } else if same(name, "testsuite") {
            self.saw_root = true;
            append_one(&mut self.suites, read_suite(tag));
            if empty {
                self.flatten();
            }
        } else if same(name, "property") {
            self.add_property(tag);
        } else if same(name, "testcase") {
            let case = read_case(tag);
            if empty {
                push_case(&mut self.suites, case);
            } else {
                self.case = Some(case);
            }
        } else if same(name, "failure") {
            self.start_problem(tag, true, empty);
        } else if same(name, "error") {
            self.start_problem(tag, false, empty);
        } else if same(name, "skipped") {
            self.set_outcome(Outcome::Skipped { message: get_attr(tag, "message") });
        } else if same(name, "system-out") {
            self.start_output(true, empty);
        } else if same(name, "system-err") {
            self.start_output(false, empty);
        }
    }

    fn end_problem(&mut self)
        ensures
            final(self)@ == problem_ended(old(self)@),
    {
        let detail = take_text(self.text.as_str());
        self.text = String::new();
        let outcome = match &self.sink {
            Sink::Failure(p) => {
                let mut p = p.copy();
                p.detail = detail;
                Some(Outcome::Failed(p))
            },
            Sink::Error(p) => {
                let mut p = p.copy();
                p.detail = detail;
                Some(Outcome::Errored(p))
            },
            _ => None,
        };
        self.sink = Sink::Discard;
        if let Some(outcome) = outcome {
            self.set_outcome(outcome);
        }
    }

    fn end_output(&mut self)
        ensures
            final(self)@ == output_ended(old(self)@),
    {
        let text = take_text(self.text.as_str());
        self.text = String::new();
        let ghost before = self.suites.deep_view();
        let n = self.suites.len();
        match &self.sink {
            Sink::CaseOut => {
                if let Some(case) = &mut self.case {
                    case.system_out = text;
                }
            },
            Sink::CaseErr => {
                if let Some(case) = &mut self.case {
                    case.system_err = text;
                }
            },
            Sink::SuiteOut => {
                if n > 0 {
                    self.suites[n - 1].system_out = text;
                    assert(self.suites.deep_view() =~= output_ended(old(self)@).suites);
                }
            },
            Sink::SuiteErr => {
                if n > 0 {
                    self.suites[n - 1].system_err = text;
                    assert(self.suites.deep_view() =~= output_ended(old(self)@).suites);
                }
            },
            _ => {},
        }
        self.sink = Sink::Discard;
    }

    fn end(&mut self, name: &str)
        ensures
            final(self)@ == ended(old(self)@, name@),
    {
        if same(name, "failure") || same(name, "error") {
            self.end_problem();
        } else if same(name, "system-out") || same(name, "system-err") {
            self.end_output();
        } else if same(name, "testcase") {
            if let Some(case) = &self.case {
                push_case(&mut self.suites, case.copy());
            }
            self.case = None;
        } else if same(name, "testsuite") {
            self.flatten();
        }
    }

    fn collects(&self) -> (r: bool)
        ensures
            r == !(self@.sink is Discard),
    {
        match &self.sink {
            Sink::Discard => false,
            _ => true,
        }
    }

    fn step(&mut self, event: &XmlEvent) -> (r: Result<(), Error>)
        ensures
            match stepped(old(self)@, event.deep_view()) {
                Ok(s) => r is Ok && final(self)@ == s,
                Err(e) => r is Err && r->Err_0.deep_view() == e,
            },
    {
        match event {
            XmlEvent::Start(tag) => self.start(tag, false),
            XmlEvent::Empty(tag) => self.start(tag, true),
            XmlEvent::End(name) => self.end(name.as_str()),
            XmlEvent::Text(text) => {
                if self.collects() {
                    match text {
                        Ok(t) => {
                            self.text.append(t.as_str());
                        },
                        Err(problem) => {
                            return Err(Error::parse(FORMAT, problem.as_str()));
                        },
                    }
                }
            },
            XmlEvent::CData(text) => {
                if self.collects() {
                    self.text.append(text.as_str());
                }
            },
            XmlEvent::Failed(problem) => {
                return Err(Error::parse(FORMAT, problem.as_str()));
            },
            _ => {},
        }
        Ok(())
    }
}

// ---------------------------------------------------------------------------
// Reading
// ---------------------------------------------------------------------------

/// The state behind these events, or why reading stops.
pub open spec fn folded(events: Seq<EventView>) -> Result<StateView, ErrorView>
    decreases events.len(),
{
    if events.len() == 0 {
        Ok(first_state())
    } else {
        match folded(events.drop_last()) {
            Ok(s) => stepped(s, events.last()),
            Err(e) => Err(e),
        }
    }
}

proof fn a_stop_is_final(events: Seq<EventView>, i: int)
    requires
        0 <= i <= events.len(),
        folded(events.take(i)) is Err,
    ensures
        folded(events) == folded(events.take(i)),
    decreases events.len(),
{
    if i < events.len() {
        assert(events.drop_last().take(i) =~= events.take(i));
        a_stop_is_final(events.drop_last(), i);
    } else {
        assert(events.take(i) =~= events);
    }
}

/// The document that reading these events gives, or the refusal.
pub open spec fn read_spec(events: Seq<EventView>) -> Result<DocView, ErrorView> {
    match folded(events) {
        Err(e) => Err(e),
        Ok(s) => if !s.saw_root {
            Err(
                parse_error(
                    FORMAT@,
                    "no <testsuite>/<testsuites> element — this does not look like a JUnit report"@,
                ),
            )
        } else {
            Ok(DocView::Tests(s.report))
        },
    }
}

/// Reads the events of a document.
pub fn read_document(events: &Vec<XmlEvent>, ctx: &mut FormatCtx) -> (r: Result<Doc, Error>)
    ensures
        read_result(r) == read_spec(events.deep_view()),
        final(ctx)@ == old(ctx)@,
{
    let ghost all = events.deep_view();
    let mut state = State::new();
    let mut i: usize = 0;
    assert(all.take(0) =~= Seq::empty());
    while i < events.len()
        invariant
            i <= events@.len(),
            all == events.deep_view(),
            folded(all.take(i as int)) == Ok::<StateView, ErrorView>(state@),
        decreases events@.len() - i,
    {
        assert(all.take(i as int + 1).drop_last() =~= all.take(i as int));
        assert(all.take(i as int + 1).last() == events[i as int].deep_view());
        match state.step(&events[i]) {
            Ok(_) => {},
            Err(e) => {
                proof {
                    a_stop_is_final(all, i as int + 1);
                }
                return Err(e);
            },
        }
        i = i + 1;
    }
    assert(all.take(i as int) =~= all);
    if !state.saw_root {
        return Err(
            Error::parse(
                FORMAT,
                "no <testsuite>/<testsuites> element — this does not look like a JUnit report",
            ),
        );
    }
    Ok(Doc::Tests(state.report))
}

pub fn read(input: &[u8], ctx: &mut FormatCtx) -> (r: Result<Doc, Error>)
    ensures
        read_result(r) == read_spec(xml_events(input@, false)),
        final(ctx)@ == old(ctx)@,
        forall|report: TestReportView, times: TimesView| #[trigger]
            holds_report(input@, report, times) ==> read_result(r) == Ok::<DocView, ErrorView>(
                DocView::Tests(kept_report(report, times)),
            ),
{
    let events = read_events(input, false);
    proof {
        let events = events.deep_view();
        assert forall|report: TestReportView, times: TimesView| #[trigger]
            holds_report(input@, report, times) implies read_spec(events) == Ok::<
            DocView,
            ErrorView,
        >(DocView::Tests(kept_report(report, times))) by {
            written_bytes_read_back(input@, events, report, times);
        }
    }
    read_document(&events, ctx)
}

// ---------------------------------------------------------------------------
// Durations
// ---------------------------------------------------------------------------

/// The durations of a suite, written out: its own, and each case's.
#[derive(Debug, PartialEq, Eq)]
pub struct SuiteTimes {
    pub total: String,
    pub cases: Vec<String>,
}

/// The durations of a report, written out.
#[derive(Debug, PartialEq, Eq)]
pub struct Times {
    pub total: String,
    pub suites: Vec<SuiteTimes>,
}

/// The content of [`SuiteTimes`].
pub struct SuiteTimesView {
    pub total: Seq<char>,
    pub cases: Seq<Seq<char>>,
}

/// The content of [`Times`].
pub struct TimesView {
    pub total: Seq<char>,
    pub suites: Seq<SuiteTimesView>,
}

impl DeepView for SuiteTimes {
    type V = SuiteTimesView;

    open spec fn deep_view(&self) -> SuiteTimesView {
        SuiteTimesView { total: self.total@, cases: self.cases.deep_view() }
    }
}

impl DeepView for Times {
    type V = TimesView;

    open spec fn deep_view(&self) -> TimesView {
        TimesView { total: self.total@, suites: self.suites.deep_view() }
    }
}

impl SuiteTimesView {
    /// The duration of the case at this position; empty where it is not listed.
    pub open spec fn case(self, i: int) -> Seq<char> {
        if 0 <= i < self.cases.len() {
            self.cases[i]
        } else {
            Seq::empty()
        }
    }
}

impl TimesView {
    /// The durations of the suite at this position.
    pub open spec fn suite(self, i: int) -> SuiteTimesView {
        if 0 <= i < self.suites.len() {
            self.suites[i]
        } else {
            SuiteTimesView { total: Seq::empty(), cases: Seq::empty() }
        }
    }
}

// ---------------------------------------------------------------------------
// Cases
// ---------------------------------------------------------------------------

/// An attribute, where there is a value.
pub open spec fn opt_attr(name: Seq<char>, value: Option<Seq<char>>) -> Seq<AttrView> {
    match value {
        Some(v) => seq![(name, v)],
        None => Seq::empty(),
    }
}

fn and_opt<'a>(attrs: Attrs<'a>, name: &'a str, value: &Option<String>) -> (r: Attrs<'a>)
    ensures
        r.deep_view() == attrs.deep_view() + opt_attr(name@, value.deep_view()),
{
    match value {
        Some(v) => {
            let r = and_attr(attrs, name, v.as_str());
            assert(r.deep_view() =~= attrs.deep_view() + opt_attr(name@, value.deep_view()));
            r
        },
        None => {
            assert(attrs.deep_view() =~= attrs.deep_view() + opt_attr(
                name@,
                value.deep_view(),
            ));
            attrs
        },
    }
}

pub open spec fn problem_attrs(problem: ProblemView) -> Seq<AttrView> {
    opt_attr("message"@, problem.message) + opt_attr("type"@, problem.kind)
}

pub open spec fn problem_item(tag: Seq<char>, problem: ProblemView) -> Item {
    match problem.detail {
        Some(text) => Item::Text { name: tag, attrs: problem_attrs(problem), text },
        None => empty_item(tag, problem_attrs(problem)),
    }
}

pub open spec fn outcome_items(outcome: OutcomeView) -> Seq<Item> {
    match outcome {
        OutcomeView::Passed => Seq::empty(),
        OutcomeView::Skipped { message } => seq![
            empty_item("skipped"@, opt_attr("message"@, message)),
        ],
        OutcomeView::Failed(p) => seq![problem_item("failure"@, p)],
        OutcomeView::Errored(p) => seq![problem_item("error"@, p)],
    }
}

pub open spec fn case_attrs(case: TestCaseView, time: Seq<char>) -> Seq<AttrView> {
    seq![("name"@, case.name)] + opt_attr("classname"@, case.classname) + opt_attr(
        "file"@,
        case.file,
    ) + opt_attr(
        "line"@,
        match case.line {
            Some(n) => Some(decimal(n as nat)),
            None => None,
        },
    ) + opt_attr(
        "time"@,
        match case.time {
            Some(_) => Some(time),
            None => None,
        },
    )
}

pub open spec fn case_items(case: TestCaseView, time: Seq<char>) -> Seq<Item> {
    if case.outcome is Passed && case.system_out is None && case.system_err is None {
        seq![empty_item("testcase"@, case_attrs(case, time))]
    } else {
        seq![open_item("testcase"@, case_attrs(case, time))] + outcome_items(case.outcome)
            + opt_text_items("system-out"@, case.system_out) + opt_text_items(
            "system-err"@,
            case.system_err,
        ) + seq![close_item("testcase"@)]
    }
}

pub fn write_problem(w: &mut XmlWriter, tag: &str, problem: &Problem)
    requires
        old(w).wf(),
    ensures
        final(w).wf(),
        final(w)@ == old(w)@.push(problem_item(tag@, problem.deep_view())),
{
    let attrs = and_opt(no_attrs(), "message", &problem.message);
    let attrs = and_opt(attrs, "type", &problem.kind);
    assert(attrs.deep_view() =~= problem_attrs(problem.deep_view()));
    match &problem.detail {
        Some(detail) => w.text_element(tag, &attrs, detail.as_str()),
        None => w.empty(tag, &attrs),
    }
}

fn write_outcome(w: &mut XmlWriter, outcome: &Outcome)
    requires
        old(w).wf(),
    ensures
        final(w).wf(),
        final(w)@ == old(w)@ + outcome_items(outcome.deep_view()),
{
    match outcome {
        Outcome::Passed => {},
        Outcome::Skipped { message } => {
            let attrs = and_opt(no_attrs(), "message", message);
            assert(attrs.deep_view() =~= opt_attr("message"@, message.deep_view()));
            w.empty("skipped", &attrs);
        },
        Outcome::Failed(problem) => write_problem(w, "failure", problem),
        Outcome::Errored(problem) => write_problem(w, "error", problem),
    }
    assert(w@ =~= old(w)@ + outcome_items(outcome.deep_view()));
}

fn attrs_of_case<'a>(case: &TestCase, time: &str) -> (r: Attrs<'a>)
    ensures
        r.deep_view() == case_attrs(case.deep_view(), time@),
{
    let attrs = and_attr(no_attrs(), "name", case.name.as_str());
    let attrs = and_opt(attrs, "classname", &case.classname);
    let mut attrs = and_opt(attrs, "file", &case.file);
    if let Some(line) = case.line {
        attrs = and_number(attrs, "line", line as u64);
    }
    if case.time.is_some() {
        attrs = and_attr(attrs, "time", time);
    }
    assert(attrs.deep_view() =~= case_attrs(case.deep_view(), time@));
    attrs
}

/// Writes a case. `time` is its duration, written out.
pub fn write_case(w: &mut XmlWriter, case: &TestCase, time: &str)
    requires
        old(w).wf(),
    ensures
        final(w).wf(),
        final(w)@ == old(w)@ + case_items(case.deep_view(), time@),
{
    let attrs = attrs_of_case(case, time);
    let passed = match &case.outcome {
        Outcome::Passed => true,
        _ => false,
    };
    if passed && case.system_out.is_none() && case.system_err.is_none() {
        w.empty("testcase", &attrs);
        assert(w@ =~= old(w)@ + case_items(case.deep_view(), time@));
        return;
    }
    w.open("testcase", &attrs);
    write_outcome(w, &case.outcome);
    w.opt_text("system-out", &case.system_out);
    w.opt_text("system-err", &case.system_err);
    w.close("testcase");
    assert(w@ =~= old(w)@ + case_items(case.deep_view(), time@));
}

// ---------------------------------------------------------------------------
// Suites
// ---------------------------------------------------------------------------

pub open spec fn suite_attrs(suite: TestSuiteView, total: Seq<char>) -> Seq<AttrView> {
    seq![
        ("name"@, suite.name),
        ("tests"@, decimal(suite.cases.len())),
        ("failures"@, decimal(count_cases(suite.cases, Tally::Failed))),
        ("errors"@, decimal(count_cases(suite.cases, Tally::Errored))),
        ("skipped"@, decimal(count_cases(suite.cases, Tally::Skipped))),
        ("time"@, total),
    ] + opt_attr("timestamp"@, suite.timestamp) + opt_attr("hostname"@, suite.hostname) + opt_attr(
        "file"@,
        suite.file,
    )
}

pub open spec fn property_attrs(pair: (Seq<char>, Seq<char>)) -> Seq<AttrView> {
    seq![("name"@, pair.0), ("value"@, pair.1)]
}

pub open spec fn properties_items(properties: Seq<(Seq<char>, Seq<char>)>) -> Seq<Item> {
    if properties.len() == 0 {
        Seq::empty()
    } else {
        seq![open_item("properties"@, Seq::empty())] + properties.map_values(
            |p: (Seq<char>, Seq<char>)| empty_item("property"@, property_attrs(p)),
        ) + seq![close_item("properties"@)]
    }
}

/// The first `n` cases.
pub open spec fn cases_items(
    cases: Seq<TestCaseView>,
    times: SuiteTimesView,
    n: nat,
) -> Seq<Item>
    decreases n,
{
    if n == 0 {
        Seq::empty()
    } else {
        cases_items(cases, times, (n - 1) as nat) + case_items(cases[n - 1], times.case(n - 1))
    }
}

pub open spec fn suite_items(suite: TestSuiteView, times: SuiteTimesView) -> Seq<Item> {
    seq![open_item("testsuite"@, suite_attrs(suite, times.total))] + properties_items(
        suite.properties,
    ) + cases_items(suite.cases, times, suite.cases.len()) + opt_text_items(
        "system-out"@,
        suite.system_out,
    ) + opt_text_items("system-err"@, suite.system_err) + seq![close_item("testsuite"@)]
}

fn write_properties(w: &mut XmlWriter, properties: &Vec<(String, String)>)
    requires
        old(w).wf(),
    ensures
        final(w).wf(),
        final(w)@ == old(w)@ + properties_items(properties.deep_view()),
{
    if properties.len() == 0 {
        assert(w@ =~= old(w)@ + properties_items(properties.deep_view()));
        return;
    }
    w.start("properties");
    let ghost all = properties.deep_view();
    let ghost goal = all.map_values(
        |p: (Seq<char>, Seq<char>)| empty_item("property"@, property_attrs(p)),
    );
    let ghost start = w@;
    let mut i: usize = 0;
    assert(start + goal.take(0) =~= start);
    while i < properties.len()
        invariant
            i <= properties@.len(),
            all == properties.deep_view(),
            goal == all.map_values(
                |p: (Seq<char>, Seq<char>)| empty_item("property"@, property_attrs(p)),
            ),
            w.wf(),
            w@ == start + goal.take(i as int),
        decreases properties@.len() - i,
    {
        let attrs = and_attr(no_attrs(), "name", properties[i].0.as_str());
        let attrs = and_attr(attrs, "value", properties[i].1.as_str());
        assert(attrs.deep_view() =~= property_attrs(all[i as int]));
        w.empty("property", &attrs);
        i = i + 1;
        assert(w@ =~= start + goal.take(i as int));
    }
    assert(goal.take(i as int) =~= goal);
    w.close("properties");
    assert(w@ =~= old(w)@ + properties_items(all));
}

fn write_cases(w: &mut XmlWriter, cases: &Vec<TestCase>, times: &SuiteTimes)
    requires
        old(w).wf(),
    ensures
        final(w).wf(),
        final(w)@ == old(w)@ + cases_items(
            cases.deep_view(),
            times.deep_view(),
            cases.deep_view().len(),
        ),
{
    let ghost all = cases.deep_view();
    let ghost table = times.deep_view();
    let ghost start = w@;
    let mut i: usize = 0;
    assert(start + Seq::<Item>::empty() =~= start);
    while i < cases.len()
        invariant
            i <= cases@.len(),
            all == cases.deep_view(),
            table == times.deep_view(),
            w.wf(),
            w@ == start + cases_items(all, table, i as nat),
        decreases cases@.len() - i,
    {
        let time = if i < times.cases.len() {
            assert(table.cases[i as int] == times.cases[i as int]@);
            times.cases[i].as_str()
        } else {
            ""
        };
        proof {
            reveal_strlit("");
            assert(time@ =~= table.case(i as int));
        }
        write_case(w, &cases[i], time);
        i = i + 1;
        assert(w@ =~= start + cases_items(all, table, i as nat));
    }
}

fn attrs_of_suite<'a>(suite: &TestSuite, total: &str) -> (r: Attrs<'a>)
    ensures
        r.deep_view() == suite_attrs(suite.deep_view(), total@),
{
    let attrs = and_attr(no_attrs(), "name", suite.name.as_str());
    let attrs = and_number(attrs, "tests", suite.cases.len() as u64);
    let attrs = and_number(attrs, "failures", suite.failures() as u64);
    let attrs = and_number(attrs, "errors", suite.errors() as u64);
    let attrs = and_number(attrs, "skipped", suite.skipped() as u64);
    let attrs = and_attr(attrs, "time", total);
    let attrs = and_opt(attrs, "timestamp", &suite.timestamp);
    let attrs = and_opt(attrs, "hostname", &suite.hostname);
    let attrs = and_opt(attrs, "file", &suite.file);
    assert(attrs.deep_view() =~= suite_attrs(suite.deep_view(), total@));
    attrs
}

pub fn write_suite(w: &mut XmlWriter, suite: &TestSuite, times: &SuiteTimes)
    requires
        old(w).wf(),
    ensures
        final(w).wf(),
        final(w)@ == old(w)@ + suite_items(suite.deep_view(), times.deep_view()),
{
    w.open("testsuite", &attrs_of_suite(suite, times.total.as_str()));
    write_properties(w, &suite.properties);
    write_cases(w, &suite.cases, times);
    w.opt_text("system-out", &suite.system_out);
    w.opt_text("system-err", &suite.system_err);
    w.close("testsuite");
    assert(w@ =~= old(w)@ + suite_items(suite.deep_view(), times.deep_view()));
}

// ---------------------------------------------------------------------------
// The report
// ---------------------------------------------------------------------------

pub open spec fn report_attrs(report: TestReportView, total: Seq<char>) -> Seq<AttrView> {
    opt_attr("name"@, report.name) + seq![
        ("tests"@, decimal(total_cases(report.suites) as nat)),
        ("failures"@, decimal(count_suites(report.suites, Tally::Failed) as nat)),
        ("errors"@, decimal(count_suites(report.suites, Tally::Errored) as nat)),
        ("skipped"@, decimal(count_suites(report.suites, Tally::Skipped) as nat)),
        ("time"@, total),
    ]
}

/// The first `n` suites.
pub open spec fn suites_items(suites: Seq<TestSuiteView>, times: TimesView, n: nat) -> Seq<Item>
    decreases n,
{
    if n == 0 {
        Seq::empty()
    } else {
        suites_items(suites, times, (n - 1) as nat) + suite_items(
            suites[n - 1],
            times.suite(n - 1),
        )
    }
}

/// The lines of a report.
pub open spec fn report_items(report: TestReportView, times: TimesView) -> Seq<Item> {
    seq![
        declaration_item(),
        open_item("testsuites"@, report_attrs(report, times.total)),
    ] + suites_items(report.suites, times, report.suites.len()) + seq![
        close_item("testsuites"@),
    ]
}

pub open spec fn written(doc: DocView, times: TimesView) -> Result<Seq<char>, ErrorView> {
    match doc {
        DocView::Tests(report) => Ok(rendered(report_items(report, times))),
        _ => Err(wrong_kind("expected a test report"@)),
    }
}

fn write_suites(w: &mut XmlWriter, suites: &Vec<TestSuite>, times: &Times)
    requires
        old(w).wf(),
    ensures
        final(w).wf(),
        final(w)@ == old(w)@ + suites_items(
            suites.deep_view(),
            times.deep_view(),
            suites.deep_view().len(),
        ),
{
    let ghost all = suites.deep_view();
    let ghost table = times.deep_view();
    let ghost start = w@;
    let none = SuiteTimes { total: String::new(), cases: empty_list() };
    let mut i: usize = 0;
    assert(start + Seq::<Item>::empty() =~= start);
    while i < suites.len()
        invariant
            i <= suites@.len(),
            all == suites.deep_view(),
            table == times.deep_view(),
            none.deep_view() == (SuiteTimesView { total: Seq::empty(), cases: Seq::empty() }),
            w.wf(),
            w@ == start + suites_items(all, table, i as nat),
        decreases suites@.len() - i,
    {
        let own = if i < times.suites.len() {
            assert(table.suites[i as int] == times.suites[i as int].deep_view());
            &times.suites[i]
        } else {
            &none
        };
        assert(own.deep_view() == table.suite(i as int));
        write_suite(w, &suites[i], own);
        i = i + 1;
        assert(w@ =~= start + suites_items(all, table, i as nat));
    }
}

/// Writes a report. `times` holds its durations, written out.
pub fn write(doc: &Doc, times: &Times, ctx: &mut FormatCtx) -> (r: Result<String, Error>)
    ensures
        text_result(r) == written(doc.deep_view(), times.deep_view()),
        final(ctx)@ == old(ctx)@,
{
    let report = match doc.as_tests() {
        Ok(report) => report,
        Err(e) => {
            return Err(e);
        },
    };
    let mut w = XmlWriter::new();
    w.declaration();
    let attrs = and_opt(no_attrs(), "name", &report.name);
    let attrs = and_number(attrs, "tests", report.total() as u64);
    let attrs = and_number(attrs, "failures", report.failures() as u64);
    let attrs = and_number(attrs, "errors", report.errors() as u64);
    let attrs = and_number(attrs, "skipped", report.skipped() as u64);
    let attrs = and_attr(attrs, "time", times.total.as_str());
    assert(attrs.deep_view() =~= report_attrs(report.deep_view(), times.total@));
    w.open("testsuites", &attrs);
    write_suites(&mut w, &report.suites, times);
    w.close("testsuites");
    assert(w@ =~= report_items(report.deep_view(), times.deep_view()));
    Ok(w.finish())
}

// ---------------------------------------------------------------------------
// Laws
// ---------------------------------------------------------------------------

/// A tag with the attributes that a case is written with, and none of those
/// that it is written without, reads as that case, passed, but for the
/// duration, which is read as it was written out.
pub proof fn cases_read_back(case: TestCaseView, time: Seq<char>, tag: TagView)
    requires
        carries(tag, case_attrs(case, time)),
        case.classname is None ==> tag.attr("classname"@) is None,
        case.file is None ==> tag.attr("file"@) is None,
        case.line is None ==> tag.attr("line"@) is None,
        case.time is None ==> tag.attr("time"@) is None,
    ensures
        case_of(tag).name == case.name,
        case_of(tag).classname == case.classname,
        case_of(tag).file == case.file,
        case_of(tag).line == case.line,
        case.time is None ==> case_of(tag).time is None,
{
    let attrs = case_attrs(case, time);
    let one = seq![("name"@, case.name)];
    let two = one + opt_attr("classname"@, case.classname);
    let three = two + opt_attr("file"@, case.file);
    assert(attrs[0] == ("name"@, case.name));
    if case.classname is Some {
        assert(attrs[one.len() as int] == ("classname"@, case.classname->0));
    }
    if case.file is Some {
        assert(attrs[two.len() as int] == ("file"@, case.file->0));
    }
    if let Some(n) = case.line {
        written_numbers_parse(n as u64);
        assert(attrs[three.len() as int] == ("line"@, decimal(n as nat)));
    }
}

/// What a problem's tag says is what was written.
pub proof fn problems_read_back(problem: ProblemView, tag: TagView)
    requires
        carries(tag, problem_attrs(problem)),
        problem.message is None ==> tag.attr("message"@) is None,
        problem.kind is None ==> tag.attr("type"@) is None,
    ensures
        problem_of(tag) == (ProblemView { detail: None, ..problem }),
{
    let attrs = problem_attrs(problem);
    let one = opt_attr("message"@, problem.message);
    if problem.message is Some {
        assert(attrs[0] == ("message"@, problem.message->0));
    }
    if problem.kind is Some {
        assert(attrs[one.len() as int] == ("type"@, problem.kind->0));
    }
}

} // verus!
