//! What reading a TAP stream promises.

use vstd::prelude::*;

use crate::formats::tests::tap::{
    all_closed, asserted, assertion_of, block_attached, case_of, closed_frame, closed_to, diagnosed,
    directive_of, entered, first_message, first_white, folded, indent_of, outcome_of, plan,
    read_spec, stated_message, stepped, suites_of, AssertionView, DirectiveView, FrameView,
    StateView,
};
use crate::formats::tests::trx_laws::alike;
use crate::model::tests::{OutcomeView, TestCaseView, TestSuiteView};
use crate::registry::DocView;
use crate::text::{decimal, is_white, lines, lower, starts_with, strip_prefix, trim};
use crate::warn::CtxView;

verus! {

// ---------------------------------------------------------------------------
// Assertions
// ---------------------------------------------------------------------------

/// An assertion is skipped where it is marked so, or marked as to be done and not
/// ok; it fails where it is not ok and not marked; and it passes where it is ok
/// and not marked as skipped.
pub proof fn marks_and_verdicts_decide(assertion: AssertionView)
    ensures
        outcome_of(assertion) is Failed <==> !assertion.ok && assertion.directive is None,
        outcome_of(assertion) is Passed <==> assertion.ok && !(assertion.directive matches Some(
            DirectiveView::Skip(_),
        )),
        outcome_of(assertion) is Skipped <==> (assertion.directive matches Some(
            DirectiveView::Skip(_),
        )) || (!assertion.ok && assertion.directive is Some),
        !(outcome_of(assertion) is Errored),
        case_of(assertion).name == assertion.description,
        case_of(assertion).outcome == outcome_of(assertion),
        match (assertion.directive, outcome_of(assertion)) {
            (Some(DirectiveView::Skip(reason)), OutcomeView::Skipped { message }) => message
                == reason,
            (None, OutcomeView::Failed(problem)) => problem.message == Some(assertion.description),
            _ => true,
        },
{
}

proof fn prefixed(prefix: Seq<char>, rest: Seq<char>)
    ensures
        strip_prefix(prefix + rest, prefix) == Some(rest),
{
    assert((prefix + rest).take(prefix.len() as int) =~= prefix);
    assert((prefix + rest).skip(prefix.len() as int) =~= rest);
}

/// What follows an `ok` and a `not ok` is read the same way, and either is an
/// assertion exactly where it is a word of its own.
pub proof fn verdicts_are_told_apart(rest: Seq<char>)
    ensures
        match (assertion_of("ok"@ + rest), assertion_of("not ok"@ + rest)) {
            (Some(passed), Some(failed)) => passed.ok && !failed.ok && passed.description
                == failed.description && passed.directive == failed.directive,
            (None, None) => rest.len() > 0 && rest[0] != ' ' && rest[0] != '\t',
            _ => false,
        },
        rest.len() > 0 && rest[0] != ' ' && rest[0] != '\t' ==> assertion_of("ok"@ + rest) is None,
{
    reveal_strlit("ok");
    reveal_strlit("not ok");
    prefixed("ok"@, rest);
    prefixed("not ok"@, rest);
    let line = "ok"@ + rest;
    assert(line[0] == 'o');
    if starts_with(line, "not ok"@) {
        assert(line.take("not ok"@.len() as int)[0] == 'n');
    }
    assert(strip_prefix(line, "not ok"@) is None);
}

/// A line that begins with neither is no assertion.
pub proof fn other_lines_are_no_assertions(line: Seq<char>)
    requires
        !starts_with(line, "ok"@),
        !starts_with(line, "not ok"@),
    ensures
        assertion_of(line) is None,
{
}

// ---------------------------------------------------------------------------
// Cases
// ---------------------------------------------------------------------------

/// Whether a case of this name, of this kind of outcome, is among these.
pub open spec fn holds(cases: Seq<TestCaseView>, name: Seq<char>, outcome: OutcomeView) -> bool {
    exists|c: int|
        0 <= c < cases.len() && (#[trigger] cases[c]).name == name && alike(
            cases[c].outcome,
            outcome,
        )
}

/// Whether one of these suites holds such a case.
pub open spec fn any_holds(
    suites: Seq<TestSuiteView>,
    name: Seq<char>,
    outcome: OutcomeView,
) -> bool {
    exists|s: int| 0 <= s < suites.len() && holds((#[trigger] suites[s]).cases, name, outcome)
}

spec fn any_frame(stack: Seq<FrameView>, name: Seq<char>, outcome: OutcomeView) -> bool {
    exists|f: int| 0 <= f < stack.len() && holds((#[trigger] stack[f]).cases, name, outcome)
}

spec fn kept(s: StateView, name: Seq<char>, outcome: OutcomeView) -> bool {
    any_holds(s.suites, name, outcome) || any_frame(s.stack, name, outcome)
}

proof fn closing_keeps(
    suites: Seq<TestSuiteView>,
    frame: FrameView,
    name: Seq<char>,
    outcome: OutcomeView,
)
    ensures
        any_holds(suites, name, outcome) || holds(frame.cases, name, outcome) ==> any_holds(
            closed_frame(suites, frame),
            name,
            outcome,
        ),
{
    let after = closed_frame(suites, frame);
    if any_holds(suites, name, outcome) {
        let s = choose|s: int|
            0 <= s < suites.len() && holds((#[trigger] suites[s]).cases, name, outcome);
        assert(after[s] == suites[s]);
    }
    if holds(frame.cases, name, outcome) {
        assert(frame.cases.len() > 0);
        assert(holds(after[suites.len() as int].cases, name, outcome));
    }
}

proof fn dropping_a_frame(stack: Seq<FrameView>, name: Seq<char>, outcome: OutcomeView)
    requires
        stack.len() > 0,
        any_frame(stack, name, outcome),
    ensures
        any_frame(stack.drop_last(), name, outcome) || holds(stack.last().cases, name, outcome),
{
    let f = choose|f: int|
        0 <= f < stack.len() && holds((#[trigger] stack[f]).cases, name, outcome);
    if f < stack.len() - 1 {
        assert(stack.drop_last()[f] == stack[f]);
    }
}

proof fn closing_to_keeps(
    s: StateView,
    indent: nat,
    by: Seq<char>,
    name: Seq<char>,
    outcome: OutcomeView,
)
    requires
        kept(s, name, outcome),
    ensures
        kept(closed_to(s, indent, by).0, name, outcome),
    decreases s.stack.len(),
{
    if s.stack.len() > 0 && indent < s.stack.last().indent {
        let frame = s.stack.last();
        let next = StateView {
            suites: closed_frame(s.suites, frame),
            stack: s.stack.drop_last(),
            ..s
        };
        closing_keeps(s.suites, frame, name, outcome);
        if any_frame(s.stack, name, outcome) {
            dropping_a_frame(s.stack, name, outcome);
        }
        closing_to_keeps(next, indent, by, name, outcome);
    }
}

proof fn entering_keeps(s: StateView, indent: nat, name: Seq<char>, outcome: OutcomeView)
    requires
        kept(s, name, outcome),
    ensures
        kept(entered(s, indent), name, outcome),
{
    if any_frame(s.stack, name, outcome) {
        let f = choose|f: int|
            0 <= f < s.stack.len() && holds((#[trigger] s.stack[f]).cases, name, outcome);
        assert(entered(s, indent).stack[f] == s.stack[f]);
    }
}

proof fn changing_the_top_keeps(
    s: StateView,
    cases: Seq<TestCaseView>,
    name: Seq<char>,
    outcome: OutcomeView,
)
    requires
        s.stack.len() > 0,
        kept(s, name, outcome),
        holds(s.stack.last().cases, name, outcome) ==> holds(cases, name, outcome),
    ensures
        kept(
            StateView {
                stack: s.stack.update(s.stack.len() - 1, FrameView { cases, ..s.stack.last() }),
                ..s
            },
            name,
            outcome,
        ),
{
    let top = FrameView { cases, ..s.stack.last() };
    let after = s.stack.update(s.stack.len() - 1, top);
    if any_frame(s.stack, name, outcome) {
        let f = choose|f: int|
            0 <= f < s.stack.len() && holds((#[trigger] s.stack[f]).cases, name, outcome);
        if f < s.stack.len() - 1 {
            assert(after[f] == s.stack[f]);
        } else {
            assert(holds(after[s.stack.len() - 1].cases, name, outcome));
        }
    }
}

proof fn asserting_keeps(
    s: StateView,
    indent: nat,
    assertion: AssertionView,
    name: Seq<char>,
    outcome: OutcomeView,
)
    requires
        kept(s, name, outcome),
    ensures
        kept(asserted(s, indent, assertion), name, outcome),
{
    let first = StateView { saw_tap: true, ..s };
    assert(kept(first, name, outcome));
    entering_keeps(first, indent, name, outcome);
    closing_to_keeps(entered(first, indent), indent, assertion.description, name, outcome);
    let next = closed_to(entered(first, indent), indent, assertion.description).0;
    let marked = StateView { dropped: false, ..next };
    assert(kept(marked, name, outcome));
    assert(kept(StateView { dropped: true, ..next }, name, outcome));
    if marked.stack.len() > 0 {
        let cases = marked.stack.last().cases;
        let more = cases.push(case_of(assertion));
        if holds(cases, name, outcome) {
            let c = choose|c: int|
                0 <= c < cases.len() && (#[trigger] cases[c]).name == name && alike(
                    cases[c].outcome,
                    outcome,
                );
            assert(more[c] == cases[c]);
        }
        changing_the_top_keeps(marked, more, name, outcome);
    }
}

proof fn attaching_keeps(s: StateView, name: Seq<char>, outcome: OutcomeView)
    requires
        kept(s, name, outcome),
    ensures
        kept(block_attached(s), name, outcome),
{
    let next = StateView { in_yaml: false, diagnostics: None, ..s };
    assert(kept(next, name, outcome));
    if let Some(block) = s.diagnostics {
        if !s.dropped && s.stack.len() > 0 && s.stack.last().cases.len() > 0 {
            let cases = s.stack.last().cases;
            let more = cases.update(cases.len() - 1, diagnosed(cases.last(), block));
            if holds(cases, name, outcome) {
                let c = choose|c: int|
                    0 <= c < cases.len() && (#[trigger] cases[c]).name == name && alike(
                        cases[c].outcome,
                        outcome,
                    );
                assert(more[c].name == name && alike(more[c].outcome, outcome));
            }
            changing_the_top_keeps(next, more, name, outcome);
        }
    }
}

proof fn stepping_keeps(s: StateView, raw: Seq<char>, name: Seq<char>, outcome: OutcomeView)
    requires
        kept(s, name, outcome),
    ensures
        kept(stepped(s, raw), name, outcome),
{
    if s.bailed is Some || trim(raw).len() == 0 {
    } else if s.in_yaml {
        attaching_keeps(s, name, outcome);
    } else {
        if let Some(assertion) = assertion_of(trim(raw)) {
            asserting_keeps(
                s,
                indent_of(raw),
                assertion,
                name,
                outcome,
            );
        }
    }
}

proof fn reading_on_keeps(
    all: Seq<Seq<char>>,
    n: int,
    name: Seq<char>,
    outcome: OutcomeView,
)
    requires
        0 <= n <= all.len(),
        kept(folded(all.take(n)), name, outcome),
    ensures
        kept(folded(all), name, outcome),
    decreases all.len(),
{
    if n < all.len() {
        assert(all.drop_last().take(n) =~= all.take(n));
        reading_on_keeps(all.drop_last(), n, name, outcome);
        stepping_keeps(folded(all.drop_last()), all.last(), name, outcome);
    } else {
        assert(all.take(n) =~= all);
    }
}

proof fn closing_all_keeps(
    suites: Seq<TestSuiteView>,
    stack: Seq<FrameView>,
    name: Seq<char>,
    outcome: OutcomeView,
)
    requires
        any_holds(suites, name, outcome) || any_frame(stack, name, outcome),
    ensures
        any_holds(all_closed(suites, stack), name, outcome),
    decreases stack.len(),
{
    if stack.len() > 0 {
        closing_keeps(suites, stack.last(), name, outcome);
        if any_frame(stack, name, outcome) {
            dropping_a_frame(stack, name, outcome);
        }
        closing_all_keeps(closed_frame(suites, stack.last()), stack.drop_last(), name, outcome);
    }
}

proof fn the_root_stays_open(all: Seq<Seq<char>>)
    ensures
        folded(all).stack.len() > 0,
        folded(all).stack[0].indent == 0,
    decreases all.len(),
{
    if all.len() > 0 {
        the_root_stays_open(all.drop_last());
        let s = folded(all.drop_last());
        let raw = all.last();
        if s.bailed is None && trim(raw).len() > 0 && !s.in_yaml {
            if let Some(assertion) = assertion_of(trim(raw)) {
                let indent = indent_of(raw);
                let first = entered(StateView { saw_tap: true, ..s }, indent);
                closing_leaves_the_root(first, indent, assertion.description);
            }
        }
    }
}

proof fn closing_leaves_the_root(s: StateView, indent: nat, by: Seq<char>)
    requires
        s.stack.len() > 0,
        s.stack[0].indent == 0,
    ensures
        closed_to(s, indent, by).0.stack.len() > 0,
        closed_to(s, indent, by).0.stack[0].indent == 0,
    decreases s.stack.len(),
{
    if indent < s.stack.last().indent {
        closing_leaves_the_root(
            StateView {
                suites: closed_frame(s.suites, s.stack.last()),
                stack: s.stack.drop_last(),
                ..s
            },
            indent,
            by,
        );
    }
}

/// Whether the line is read as an assertion: not inside a diagnostic block, and
/// not behind the end of a run that bailed out.
pub open spec fn asserts(all: Seq<Seq<char>>, i: int) -> bool {
    let s = folded(all.take(i));
    let line = trim(all[i]);
    s.bailed is None && !s.in_yaml && assertion_of(line) is Some && line != "---"@
        && !starts_with(line, "Bail out!"@) && !starts_with(line, "TAP version"@) && !plan(line)
        && !starts_with(line, "# Subtest:"@) && !starts_with(line, "#"@)
}

/// Whether it only summarizes a block of its name that it closes.
pub open spec fn summarizes(all: Seq<Seq<char>>, i: int) -> bool {
    let indent = indent_of(all[i]);
    closed_to(
        entered(StateView { saw_tap: true, ..folded(all.take(i)) }, indent),
        indent,
        assertion_of(trim(all[i]))->0.description,
    ).1
}

/// Every assertion is a case of the report, unless it only summarizes a subtest:
/// under its description, and passed, failed or skipped as its verdict and its
/// mark say, whatever follows it.
pub proof fn assertions_become_cases(all: Seq<Seq<char>>, ctx: CtxView, i: int)
    requires
        0 <= i < all.len(),
        asserts(all, i),
        !summarizes(all, i),
    ensures
        match read_spec(all, ctx).0 {
            Ok(DocView::Tests(report)) => {
                let assertion = assertion_of(trim(all[i]))->0;
                any_holds(report.suites, assertion.description, outcome_of(assertion))
            },
            _ => false,
        },
{
    let assertion = assertion_of(trim(all[i]))->0;
    let name = assertion.description;
    let outcome = outcome_of(assertion);
    let now = all.take(i + 1);
    assert(now.drop_last() =~= all.take(i));
    assert(now.last() == all[i]);
    let s = folded(all.take(i));
    let indent = indent_of(all[i]);
    the_root_stays_open(all.take(i));
    let first = entered(StateView { saw_tap: true, ..s }, indent);
    closing_leaves_the_root(first, indent, name);
    let next = closed_to(first, indent, name).0;
    let after = folded(now);
    assertions_are_not_blank(trim(all[i]));
    assert(after == asserted(s, indent, assertion));
    let top = after.stack.len() - 1;
    let at = next.stack.last().cases.len() as int;
    assert(after.stack[top].cases[at] == case_of(assertion));
    assert(holds(after.stack[top].cases, name, outcome));
    assert(kept(after, name, outcome));
    reading_on_keeps(all, i + 1, name, outcome);
    let last = folded(all);
    closing_all_keeps(last.suites, last.stack, name, outcome);
    tap_was_seen(all, i + 1);
    closing_to_keeps_tap(first, indent, name);
    let suites = all_closed(last.suites, last.stack);
    let k = choose|k: int|
        0 <= k < suites.len() && holds((#[trigger] suites[k]).cases, name, outcome);
    assert(suites_of(last)[k] == suites[k]);
}

proof fn assertions_are_not_blank(line: Seq<char>)
    requires
        assertion_of(line) is Some,
    ensures
        line.len() > 0,
{
    reveal_strlit("ok");
    reveal_strlit("not ok");
}

proof fn closing_to_keeps_tap(s: StateView, indent: nat, by: Seq<char>)
    ensures
        closed_to(s, indent, by).0.saw_tap == s.saw_tap,
        closed_to(s, indent, by).0.bailed == s.bailed,
    decreases s.stack.len(),
{
    if s.stack.len() > 0 && indent < s.stack.last().indent {
        closing_to_keeps_tap(
            StateView {
                suites: closed_frame(s.suites, s.stack.last()),
                stack: s.stack.drop_last(),
                ..s
            },
            indent,
            by,
        );
    }
}

proof fn tap_was_seen(all: Seq<Seq<char>>, n: int)
    requires
        0 <= n <= all.len(),
    ensures
        folded(all.take(n)).saw_tap ==> folded(all).saw_tap,
    decreases all.len(),
{
    if n < all.len() {
        assert(all.drop_last().take(n) =~= all.take(n));
        tap_was_seen(all.drop_last(), n);
        let s = folded(all.drop_last());
        let raw = all.last();
        if let Some(assertion) = assertion_of(trim(raw)) {
            let indent = indent_of(raw);
            closing_to_keeps_tap(
                entered(StateView { saw_tap: true, ..s }, indent),
                indent,
                assertion.description,
            );
        }
    } else {
        assert(all.take(n) =~= all);
    }
}

// ---------------------------------------------------------------------------
// Diagnostics
// ---------------------------------------------------------------------------

/// A diagnostic block explains a failure and never changes what became of the
/// assertion: it is the detail, and the message it states is the message. Behind
/// anything but a failure it is output.
pub proof fn blocks_explain_failures(case: TestCaseView, block: Seq<char>)
    ensures
        ({
            let after = diagnosed(case, block);
            &&& alike(after.outcome, case.outcome)
            &&& after.name == case.name
            &&& match (case.outcome, after.outcome) {
                (OutcomeView::Failed(before), OutcomeView::Failed(problem)) => {
                    &&& problem.detail == Some(block)
                    &&& match first_message(lines(block)) {
                        Some(message) => problem.message == Some(message),
                        None => problem.message == before.message,
                    }
                },
                (OutcomeView::Passed, _) => after.system_out == Some(block),
                (OutcomeView::Skipped { .. }, _) => after.system_out == Some(block)
                    && after.outcome == case.outcome,
                _ => true,
            }
        }),
{
}

/// The message of a block is the first one that a line of it states.
pub proof fn messages_are_the_first_stated(all: Seq<Seq<char>>)
    ensures
        match first_message(all) {
            Some(message) => exists|i: int|
                0 <= i < all.len() && stated_message(#[trigger] all[i]) == Some(message)
                    && forall|j: int| 0 <= j < i ==> stated_message(#[trigger] all[j]) is None,
            None => forall|i: int| 0 <= i < all.len() ==> stated_message(#[trigger] all[i]) is None,
        },
    decreases all.len(),
{
    if all.len() > 0 {
        let tail = all.skip(1);
        messages_are_the_first_stated(tail);
        if stated_message(all[0]) is None {
            match first_message(tail) {
                Some(message) => {
                    let i = choose|i: int|
                        0 <= i < tail.len() && stated_message(#[trigger] tail[i]) == Some(message)
                            && forall|j: int|
                            0 <= j < i ==> stated_message(#[trigger] tail[j]) is None;
                    assert(all[i + 1] == tail[i]);
                    assert forall|j: int| 0 <= j < i + 1 implies stated_message(
                        #[trigger] all[j],
                    ) is None by {
                        if j > 0 {
                            assert(all[j] == tail[j - 1]);
                        }
                    }
                },
                None => {
                    assert forall|i: int| 0 <= i < all.len() implies stated_message(
                        #[trigger] all[i],
                    ) is None by {
                        if i > 0 {
                            assert(all[i] == tail[i - 1]);
                        }
                    }
                },
            }
        }
    }
}

/// A block belongs to the assertion just before it: no other case changes, and
/// none does where that assertion left no case.
pub proof fn blocks_belong_to_the_last_assertion(s: StateView, f: int, c: int)
    requires
        0 <= f < s.stack.len(),
        0 <= c < s.stack[f].cases.len(),
        s.dropped || f < s.stack.len() - 1 || c < s.stack[f].cases.len() - 1,
    ensures
        block_attached(s).stack.len() == s.stack.len(),
        block_attached(s).stack[f].cases[c] == s.stack[f].cases[c],
        block_attached(s).suites == s.suites,
{
}

/// A mark is told by its first word: one that begins like skip, in any case, marks
/// a skipped test, the word todo one that is still to be done; what follows is the
/// reason. Any other word marks nothing.
pub proof fn marks_are_told_by_their_word(word: Seq<char>, reason: Seq<char>)
    requires
        forall|i: int| 0 <= i < word.len() ==> !is_white(#[trigger] word[i]),
        reason.len() > 0,
        trim(reason) == reason,
    ensures
        ({
            let mark = directive_of(word + seq![' '] + reason);
            &&& starts_with(lower(word), "skip"@) ==> mark == Some(
                DirectiveView::Skip(Some(reason)),
            )
            &&& lower(word) == "todo"@ ==> mark == Some(DirectiveView::Todo(Some(reason)))
            &&& !starts_with(lower(word), "skip"@) && lower(word) != "todo"@ ==> mark is None
        }),
{
    words_end_at_white(word, reason);
    let all = word + seq![' '] + reason;
    assert(all.take(word.len() as int) =~= word);
    assert(all.skip(word.len() as int + 1) =~= reason);
    reveal_strlit("skip");
    reveal_strlit("todo");
    if lower(word) == "todo"@ && starts_with(lower(word), "skip"@) {
        assert("todo"@.take(4)[0] == 't');
        assert("skip"@[0] == 's');
    }
}

proof fn words_end_at_white(word: Seq<char>, rest: Seq<char>)
    requires
        forall|i: int| 0 <= i < word.len() ==> !is_white(#[trigger] word[i]),
    ensures
        first_white(word + seq![' '] + rest) == word.len(),
    decreases word.len(),
{
    let all = word + seq![' '] + rest;
    if word.len() > 0 {
        let tail = word.skip(1);
        assert forall|i: int| 0 <= i < tail.len() implies !is_white(#[trigger] tail[i]) by {
            assert(tail[i] == word[i + 1]);
        }
        words_end_at_white(tail, rest);
        assert(!is_white(word[0]) && all[0] == word[0]);
        assert(all.skip(1) =~= tail + seq![' '] + rest);
    } else {
        assert(all[0] == ' ');
    }
}

/// A run that bails out has a suite with one case, which ended in an error and
/// tells why; nothing that follows counts.
pub proof fn bailing_out_is_an_error(s: StateView, raw: Seq<char>, reason: Seq<char>)
    ensures
        s.bailed is Some ==> stepped(s, raw) == s,
        s.bailed == Some(reason) ==> {
            let suite = suites_of(s).last();
            &&& suites_of(s).len() > 0
            &&& suite.cases.len() == 1
            &&& match suite.cases[0].outcome {
                OutcomeView::Errored(p) => p.message == Some(
                    if reason.len() > 0 {
                        reason
                    } else {
                        "the run bailed out"@
                    },
                ),
                _ => false,
            }
        },
{
}

/// A group of assertions becomes a suite under its own name, with its cases, unless
/// it has none.
pub proof fn groups_become_suites(suites: Seq<TestSuiteView>, frame: FrameView)
    ensures
        ({
            let after = closed_frame(suites, frame);
            &&& frame.cases.len() == 0 ==> after == suites
            &&& frame.cases.len() > 0 ==> {
                &&& after.len() == suites.len() + 1
                &&& after.drop_last() == suites
                &&& after.last().name == frame.name
                &&& after.last().cases == frame.cases
            }
        }),
{
    if frame.cases.len() > 0 {
        assert(closed_frame(suites, frame).drop_last() =~= suites);
    }
}

/// An indented assertion opens a group, under the name that was announced for it
/// or else its column.
pub proof fn indented_assertions_open_a_group(s: StateView, indent: nat)
    requires
        s.stack.len() > 0,
    ensures
        ({
            let after = entered(s, indent);
            &&& indent <= s.stack.last().indent ==> after == s
            &&& indent > s.stack.last().indent ==> {
                &&& after.stack.len() == s.stack.len() + 1
                &&& after.stack.drop_last() == s.stack
                &&& after.stack.last().indent == indent
                &&& after.stack.last().cases.len() == 0
                &&& after.stack.last().name == match s.announced {
                    Some(name) => name,
                    None => "subtest at column "@ + decimal(indent),
                }
                &&& after.announced is None
            }
        }),
{
    if indent > s.stack.last().indent {
        assert(entered(s, indent).stack.drop_last() =~= s.stack);
    }
}

} // verus!
