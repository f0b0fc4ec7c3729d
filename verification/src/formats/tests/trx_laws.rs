//! What reading a TRX file promises.

use vstd::prelude::*;

use crate::formats::tests::trx::{
    class_of, class_part, clock, duration_of, folded, outcome_named, put_pair, read_spec, result_of,
    started, suite_at, suites_of, text_applied, PendingView, Sink, StateView,
};
use crate::model::tests::{ElapsedView, OutcomeView, TestCaseView, TestSuiteView};
use crate::registry::DocView;
use crate::text::{first, first_props, lacks_char, last_props, split_once_at, trim};
use crate::value::{key_at, key_at_props, lookup};
use crate::warn::CtxView;
use crate::xml::{float_literal, EventView, TagView};

verus! {

/// A pass, a failure, an error of the harness and what did not run each have
/// their names, and no name stands for two of them. A failure and an error keep
/// the name.
pub proof fn names_decide_the_outcome(raw: Seq<char>)
    ensures
        outcome_named(raw) is Passed <==> raw == "Passed"@ || raw == "PassedButRunAborted"@ || raw
            == "Completed"@,
        outcome_named(raw) is Failed <==> raw == "Failed"@,
        outcome_named(raw) is Errored <==> raw == "Timeout"@ || raw == "Aborted"@ || raw
            == "Error"@ || raw == "Disconnected"@,
        match outcome_named(raw) {
            OutcomeView::Failed(p) => p.kind == Some(raw) && p.message is None && p.detail is None,
            OutcomeView::Errored(p) => p.kind == Some(raw) && p.message is None
                && p.detail is None,
            OutcomeView::Skipped { message } => message == if raw.len() == 0 || raw
                == "NotExecuted"@ {
                None
            } else {
                Some(raw)
            },
            OutcomeView::Passed => true,
        },
{
    reveal_strlit("Passed");
    reveal_strlit("PassedButRunAborted");
    reveal_strlit("Completed");
    reveal_strlit("Failed");
    reveal_strlit("Timeout");
    reveal_strlit("Aborted");
    reveal_strlit("Error");
    reveal_strlit("Disconnected");
    assert("Passed"@.len() == 6 && "PassedButRunAborted"@.len() == 19 && "Completed"@.len() == 9);
    assert("Failed"@.len() == 6 && "Timeout"@.len() == 7 && "Aborted"@.len() == 7 && "Error"@.len()
        == 5 && "Disconnected"@.len() == 12);
    assert("Passed"@[0] == 'P' && "Failed"@[0] == 'F' && "Timeout"@[0] == 'T' && "Aborted"@[0]
        == 'A');
}

/// Whether two outcomes are of the same kind.
pub open spec fn alike(a: OutcomeView, b: OutcomeView) -> bool {
    &&& a is Passed <==> b is Passed
    &&& a is Failed <==> b is Failed
    &&& a is Errored <==> b is Errored
    &&& a is Skipped <==> b is Skipped
}

/// A text inside a result never changes what became of it, nor its name or time.
/// A message and a stack trace explain a failure or an error; what was printed is
/// kept as it was printed.
pub proof fn texts_do_not_change_the_outcome(case: TestCaseView, sink: Sink, text: Seq<char>)
    ensures
        ({
            let after = text_applied(case, sink, Some(text));
            &&& alike(after.outcome, case.outcome)
            &&& after.name == case.name
            &&& after.time == case.time
            &&& text_applied(case, sink, None) == case
            &&& sink is StdOut ==> after.system_out == Some(text) && after.outcome == case.outcome
            &&& sink is StdErr ==> after.system_err == Some(text) && after.outcome == case.outcome
            &&& sink is Message ==> match after.outcome {
                OutcomeView::Failed(p) => p.message == Some(text),
                OutcomeView::Errored(p) => p.message == Some(text),
                _ => after.system_err == Some(text),
            }
            &&& sink is StackTrace ==> match after.outcome {
                OutcomeView::Failed(p) => p.detail == Some(text),
                OutcomeView::Errored(p) => p.detail == Some(text),
                _ => after.system_err == Some(text),
            }
        }),
{
}

// ---------------------------------------------------------------------------
// Results
// ---------------------------------------------------------------------------

pub open spec fn is_result(name: Seq<char>) -> bool {
    name == "UnitTestResult"@ || name == "TestResult"@
}

/// Whether the event begins or ends a result, or says that one has inner ones.
pub open spec fn bounds_result(event: EventView) -> bool {
    match event {
        EventView::Start(tag) => is_result(tag.name) || tag.name == "InnerResults"@,
        EventView::Empty(tag) => is_result(tag.name) || tag.name == "InnerResults"@,
        EventView::End(name) => is_result(name),
        _ => false,
    }
}

proof fn names_differ()
    ensures
        forall|name: Seq<char>| #[trigger]
            is_result(name) ==> name != "TestRun"@ && name != "Times"@ && name != "InnerResults"@
                && name != "UnitTest"@ && name != "TestMethod"@ && name != "Message"@ && name
                != "StackTrace"@ && name != "StdOut"@ && name != "StdErr"@,
        "UnitTest"@ != "TestRun"@ && "UnitTest"@ != "Times"@ && "UnitTest"@ != "InnerResults"@
            && !is_result("UnitTest"@),
        "TestMethod"@ != "TestRun"@ && "TestMethod"@ != "Times"@ && "TestMethod"@
            != "InnerResults"@ && !is_result("TestMethod"@) && "TestMethod"@ != "UnitTest"@,
{
    reveal_strlit("UnitTestResult");
    reveal_strlit("TestResult");
    reveal_strlit("TestRun");
    reveal_strlit("Times");
    reveal_strlit("InnerResults");
    reveal_strlit("UnitTest");
    reveal_strlit("TestMethod");
    reveal_strlit("Message");
    reveal_strlit("StackTrace");
    reveal_strlit("StdOut");
    reveal_strlit("StdErr");
    assert("UnitTestResult"@.len() == 14 && "TestResult"@.len() == 10 && "TestRun"@.len() == 7
        && "Times"@.len() == 5 && "InnerResults"@.len() == 12 && "UnitTest"@.len() == 8
        && "TestMethod"@.len() == 10 && "Message"@.len() == 7 && "StackTrace"@.len() == 10
        && "StdOut"@.len() == 6 && "StdErr"@.len() == 6);
    assert("TestResult"@[4] == 'R' && "TestMethod"@[4] == 'M' && "StackTrace"@[0] == 'S'
        && "TestResult"@[0] == 'T');
}

proof fn what_is_read_stays(events: Seq<EventView>, n: int)
    requires
        0 <= n <= events.len(),
        folded(events) is Ok,
    ensures
        folded(events.take(n)) is Ok,
        ({
            let early = folded(events.take(n))->Ok_0.pending;
            let late = folded(events)->Ok_0.pending;
            early.len() <= late.len() && forall|k: int|
                0 <= k < early.len() ==> #[trigger] late[k] == early[k]
        }),
    decreases events.len(),
{
    if n < events.len() {
        what_is_read_stays(events.drop_last(), n);
        assert(events.drop_last().take(n) =~= events.take(n));
    } else {
        assert(events.take(n) =~= events);
    }
}

/// Whether a pending result is the one that a tag began: what was read inside it
/// has not changed whose it is, nor what became of it.
spec fn is_of(entry: PendingView, tag: TagView) -> bool {
    &&& entry.test_id == tag.attr("testId"@)
    &&& !entry.has_inner
    &&& entry.case.name == match tag.attr("testName"@) {
        Some(name) => name,
        None => "(unnamed)"@,
    }
    &&& entry.case.time == match tag.attr("duration"@) {
        Some(raw) => duration_of(raw),
        None => None,
    }
    &&& alike(
        entry.case.outcome,
        outcome_named(
            match tag.attr("outcome"@) {
                Some(raw) => raw,
                None => ""@,
            },
        ),
    )
}

#[verifier::spinoff_prover]
proof fn a_result_stays_open(events: Seq<EventView>, i: int, k: int)
    requires
        0 <= i < k <= events.len(),
        events[i] matches EventView::Start(tag) && is_result(tag.name),
        forall|m: int| i < m < k ==> !bounds_result(#[trigger] events[m]),
        folded(events.take(k)) is Ok,
        folded(events.take(i)) is Ok,
    ensures
        ({
            let s = folded(events.take(k))->Ok_0;
            &&& s.open.len() == folded(events.take(i))->Ok_0.open.len() + 1
            &&& is_of(s.open.last(), events[i]->Start_0)
            &&& s.pending == folded(events.take(i))->Ok_0.pending
        }),
    decreases k,
{
    names_differ();
    let now = events.take(k);
    assert(now.drop_last() =~= events.take(k - 1));
    assert(now.last() == events[k - 1]);
    if k - 1 > i {
        what_is_read_stays(now, k - 1);
        assert(now.take(k - 1) =~= events.take(k - 1));
        a_result_stays_open(events, i, k - 1);
        assert(!bounds_result(events[k - 1]));
    }
}

proof fn suite_at_finds(suites: Seq<TestSuiteView>, name: Seq<char>)
    ensures
        0 <= suite_at(suites, name) <= suites.len(),
        suite_at(suites, name) < suites.len() ==> suites[suite_at(suites, name)].name == name,
    decreases suites.len(),
{
    if suites.len() > 0 && suites[0].name != name {
        let tail = suites.skip(1);
        suite_at_finds(tail, name);
        let at = suite_at(tail, name);
        if at < tail.len() {
            assert(suites[at + 1] == tail[at]);
        }
    }
}

/// Whether a case of these suites is this one.
pub open spec fn is_case(
    suites: Seq<TestSuiteView>,
    s: int,
    c: int,
    class: Seq<char>,
    case: TestCaseView,
) -> bool {
    0 <= s < suites.len() && suites[s].name == class && 0 <= c < suites[s].cases.len()
        && suites[s].cases[c] == case
}

proof fn results_are_placed(
    pending: Seq<PendingView>,
    classes: Seq<(Seq<char>, Seq<char>)>,
    timestamp: Option<Seq<char>>,
    k: int,
) -> (at: (int, int))
    requires
        0 <= k < pending.len(),
        !pending[k].has_inner,
    ensures
        is_case(
            suites_of(pending, classes, timestamp),
            at.0,
            at.1,
            class_of(pending[k], classes),
            TestCaseView {
                classname: Some(class_of(pending[k], classes)),
                ..pending[k].case
            },
        ),
    decreases pending.len(),
{
    let head = pending.drop_last();
    let before = suites_of(head, classes, timestamp);
    let after = suites_of(pending, classes, timestamp);
    let entry = pending.last();
    let class = class_of(entry, classes);
    suite_at_finds(before, class);
    let there = suite_at(before, class);
    if k == pending.len() - 1 {
        if there < before.len() {
            (there, before[there].cases.len() as int)
        } else {
            (there, 0)
        }
    } else {
        assert(head[k] == pending[k]);
        let at = results_are_placed(head, classes, timestamp, k);
        if !entry.has_inner {
            assert(after[at.0].cases[at.1] == before[at.0].cases[at.1]);
        }
        at
    }
}

/// What a case says of the result that a tag began.
pub open spec fn says(case: TestCaseView, tag: TagView) -> bool {
    &&& case.name == match tag.attr("testName"@) {
        Some(name) => name,
        None => "(unnamed)"@,
    }
    &&& case.time == match tag.attr("duration"@) {
        Some(raw) => duration_of(raw),
        None => None,
    }
    &&& alike(
        case.outcome,
        outcome_named(
            match tag.attr("outcome"@) {
                Some(raw) => raw,
                None => ""@,
            },
        ),
    )
}

/// Whether a suite holds a case that says what the tag says, under its own name.
pub open spec fn reported(suites: Seq<TestSuiteView>, s: int, c: int, tag: TagView) -> bool {
    0 <= s < suites.len() && 0 <= c < suites[s].cases.len() && says(suites[s].cases[c], tag)
        && suites[s].cases[c].classname == Some(suites[s].name)
}

proof fn ended_results_are_pending(events: Seq<EventView>, i: int, j: int) -> (k: int)
    requires
        0 <= i < j < events.len(),
        events[i] matches EventView::Start(tag) && is_result(tag.name),
        events[j] matches EventView::End(name) && is_result(name),
        forall|m: int| i < m < j ==> !bounds_result(#[trigger] events[m]),
        folded(events) is Ok,
    ensures
        0 <= k < folded(events)->Ok_0.pending.len(),
        is_of(folded(events)->Ok_0.pending[k], events[i]->Start_0),
{
    names_differ();
    what_is_read_stays(events, j + 1);
    what_is_read_stays(events, j);
    what_is_read_stays(events, i);
    a_result_stays_open(events, i, j);
    let now = events.take(j + 1);
    assert(now.drop_last() =~= events.take(j));
    assert(now.last() == events[j]);
    let k = folded(events.take(j))->Ok_0.pending.len() as int;
    assert(folded(now)->Ok_0.pending[k] == folded(events.take(j))->Ok_0.open.last());
    k
}

/// Every result that holds no inner ones becomes a case of its class, with its
/// name and its duration, and is passed, failed, errored or skipped as its outcome
/// says.
pub proof fn results_become_cases(events: Seq<EventView>, ctx: CtxView, i: int, j: int)
    requires
        0 <= i < j < events.len(),
        events[i] matches EventView::Start(tag) && is_result(tag.name),
        events[j] matches EventView::End(name) && is_result(name),
        forall|m: int| i < m < j ==> !bounds_result(#[trigger] events[m]),
        read_spec(events, ctx).0 is Ok,
    ensures
        match read_spec(events, ctx).0 {
            Ok(DocView::Tests(report)) => exists|s: int, c: int| #[trigger]
                reported(report.suites, s, c, events[i]->Start_0),
            _ => false,
        },
{
    let k = ended_results_are_pending(events, i, j);
    let last = folded(events)->Ok_0;
    let (s, c) = results_are_placed(last.pending, last.classes, last.started, k);
    let report = read_spec(events, ctx).0->Ok_0->Tests_0;
    assert(reported(report.suites, s, c, events[i]->Start_0));
}

/// So does a result without content.
pub proof fn empty_results_become_cases(events: Seq<EventView>, ctx: CtxView, i: int)
    requires
        0 <= i < events.len(),
        events[i] matches EventView::Empty(tag) && is_result(tag.name),
        read_spec(events, ctx).0 is Ok,
    ensures
        match read_spec(events, ctx).0 {
            Ok(DocView::Tests(report)) => exists|s: int, c: int| #[trigger]
                reported(report.suites, s, c, events[i]->Empty_0),
            _ => false,
        },
{
    names_differ();
    what_is_read_stays(events, i + 1);
    what_is_read_stays(events, i);
    let now = events.take(i + 1);
    assert(now.drop_last() =~= events.take(i));
    assert(now.last() == events[i]);
    let last = folded(events)->Ok_0;
    let k = folded(events.take(i))->Ok_0.pending.len() as int;
    assert(folded(now)->Ok_0.pending[k] == result_of(events[i]->Empty_0));
    let (s, c) = results_are_placed(last.pending, last.classes, last.started, k);
    let report = read_spec(events, ctx).0->Ok_0->Tests_0;
    assert(reported(report.suites, s, c, events[i]->Empty_0));
}

// ---------------------------------------------------------------------------
// Classes
// ---------------------------------------------------------------------------

/// A result belongs to the class that its test was defined in; without a
/// definition to the class its name begins with; and without that to none that is
/// known.
pub proof fn results_belong_to_their_class(
    entry: PendingView,
    classes: Seq<(Seq<char>, Seq<char>)>,
)
    ensures
        match (entry.test_id, class_part(entry.case.name)) {
            (Some(id), named) => match lookup(classes, id) {
                Some(class) => class_of(entry, classes) == class,
                None => class_of(entry, classes) == match named {
                    Some(class) => class,
                    None => "(unknown)"@,
                },
            },
            (None, Some(class)) => class_of(entry, classes) == class,
            (None, None) => class_of(entry, classes) == "(unknown)"@,
        },
{
}

/// The class in a name is what stands before its last dot; dots in a parameter
/// list do not count.
pub proof fn classes_are_read_off_names(
    class: Seq<char>,
    method: Seq<char>,
    parameters: Seq<char>,
)
    requires
        !class.contains('('),
        !method.contains('(') && !method.contains('.'),
    ensures
        class_part(class + seq!['.'] + method) == Some(class),
        class_part(class + seq!['.'] + method + seq!['('] + parameters) == Some(class),
        class_part(method) is None,
{
    let bare = class + seq!['.'] + method;
    lacks_char(bare, '(');
    assert forall|i: int| 0 <= i < bare.len() implies #[trigger] bare[i] != '(' by {
        if i < class.len() {
            assert(class[i] == bare[i]);
        } else if i > class.len() {
            assert(method[i - class.len() - 1] == bare[i]);
        }
    }
    first_props(bare, '(');
    split_once_at(bare, '(', parameters);
    last_props(bare, '.');
    let at = crate::text::last(bare, '.');
    assert(bare[class.len() as int] == '.');
    if at > class.len() {
        assert(bare[at] == method[at - class.len() - 1]);
    }
    assert(at == class.len());
    assert(bare.take(at) =~= class);
    lacks_char(method, '(');
    first_props(method, '(');
    last_props(method, '.');
    assert(bare + seq!['('] + parameters =~= bare.push('(') + parameters);
}

/// Defining a test gives its id that class, and leaves other ids alone.
pub proof fn definitions_give_the_class(
    pairs: Seq<(Seq<char>, Seq<char>)>,
    id: Seq<char>,
    class: Seq<char>,
    other: Seq<char>,
)
    ensures
        lookup(put_pair(pairs, id, class), other) == if other == id {
            Some(class)
        } else {
            lookup(pairs, other)
        },
{
    let after = put_pair(pairs, id, class);
    key_at_props(pairs, id);
    key_at_props(pairs, other);
    key_at_props(after, other);
    let at = key_at(pairs, id);
    let there = key_at(pairs, other);
    let now = key_at(after, other);
    if now < there && now < pairs.len() {
        assert(after[now].0 == pairs[now].0);
    }
    if there < now && there < pairs.len() {
        assert(after[there].0 == pairs[there].0);
    }
    if other == id && at == pairs.len() {
        assert(after[at].0 == id);
    }
}

/// A test's method, read inside its definition, names the class of its id.
pub proof fn methods_name_the_class_of_their_test(s: StateView, tag: TagView, empty: bool)
    requires
        tag.name == "TestMethod"@,
        s.definition is Some,
        tag.attr("className"@) is Some,
    ensures
        lookup(started(s, tag, empty).classes, s.definition->0) == tag.attr("className"@),
{
    names_differ();
    definitions_give_the_class(
        s.classes,
        s.definition->0,
        tag.attr("className"@)->0,
        s.definition->0,
    );
}

/// A definition is open from the start of its element, under its id.
pub proof fn definitions_are_known_by_their_id(s: StateView, tag: TagView, empty: bool)
    requires
        tag.name == "UnitTest"@,
    ensures
        started(s, tag, empty).definition == tag.attr("id"@),
        started(s, tag, empty).classes == s.classes,
{
    names_differ();
}

// ---------------------------------------------------------------------------
// Durations
// ---------------------------------------------------------------------------

/// A duration is hours, minutes and seconds, with a colon between them, and days
/// before a dot where it has any; a fraction belongs to the seconds.
pub proof fn durations_are_read_part_by_part(
    days: Seq<char>,
    hours: Seq<char>,
    minutes: Seq<char>,
    seconds: Seq<char>,
)
    requires
        float_literal(days) && float_literal(hours) && float_literal(minutes) && float_literal(
            seconds,
        ),
        !days.contains('.') && !days.contains(':'),
        !hours.contains('.') && !hours.contains(':'),
        !minutes.contains('.') && !minutes.contains(':'),
        !seconds.contains(':'),
        trim(hours + seq![':'] + minutes + seq![':'] + seconds) == hours + seq![':'] + minutes
            + seq![':'] + seconds,
        trim(days + seq!['.'] + (hours + seq![':'] + minutes + seq![':'] + seconds)) == days
            + seq!['.'] + (hours + seq![':'] + minutes + seq![':'] + seconds),
    ensures
        duration_of(hours + seq![':'] + minutes + seq![':'] + seconds) == Some(
            ElapsedView::Span { days: None, hours, minutes, seconds },
        ),
        duration_of(days + seq!['.'] + (hours + seq![':'] + minutes + seq![':'] + seconds))
            == Some(ElapsedView::Span { days: Some(days), hours, minutes, seconds }),
{
    let rest = minutes + seq![':'] + seconds;
    let text = hours + seq![':'] + minutes + seq![':'] + seconds;
    assert(text =~= hours + seq![':'] + rest);
    lacks_char(hours, ':');
    lacks_char(minutes, ':');
    lacks_char(seconds, ':');
    lacks_char(days, ':');
    lacks_char(days, '.');
    split_once_at(hours, ':', rest);
    split_once_at(minutes, ':', seconds);
    split_once_at(days, '.', text);
    assert(hours + seq![':'] + rest =~= hours.push(':') + rest);
    assert(rest =~= minutes.push(':') + seconds);
    assert(days + seq!['.'] + text =~= days.push('.') + text);
    assert(clock(None, text) == Some(ElapsedView::Span { days: None, hours, minutes, seconds }));
    first_props(text, '.');
    let at = first(text, '.');
    if at < text.len() {
        let head = text.take(at);
        lacks_char(head, ':');
        assert(at > hours.len()) by {
            if at <= hours.len() {
                assert(text[at] == if at < hours.len() {
                    hours[at]
                } else {
                    ':'
                });
            }
        }
        assert(head[hours.len() as int] == ':');
    }
}

} // verus!
