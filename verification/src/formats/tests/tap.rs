//! TAP — the Test Anything Protocol, versions 12 through 14.
//!
//! ```text
//! TAP version 13
//! 1..2
//! ok 1 - adds numbers
//! not ok 2 - divides numbers
//!   ---
//!   message: 'expected 2, got 3'
//!   ...
//! ```
//!
//! The protocol is deliberately minimal, which pushes the work onto the reader:
//!
//! - A directive changes what a result means. `ok … # SKIP` did not run;
//!   `not ok … # TODO` is a known-pending test and not a failure.
//! - The YAML diagnostic block is the only failure detail there is. It is not
//!   parsed as YAML, but its `message:` key is lifted when present, and the
//!   whole block kept.
//! - Subtests are indentation. A `# Subtest: name` comment introduces an
//!   indented block, and the un-indented `ok` that follows summarizes it: it is
//!   dropped, so that no subtest group is reported twice.
//! - `Bail out!` means the run stopped. It becomes a failing case.
//!
//! Read-only: TAP consumers read JUnit too.

use vstd::prelude::*;

use crate::error::{parse_error, Error, ErrorView};
use crate::model::tests::{
    Outcome, OutcomeView, Problem, ProblemView, TestCase, TestCaseView, TestReport, TestReportView,
    TestSuite, TestSuiteView,
};
use crate::registry::{read_result, Doc, DocView};
use crate::text::{
    all_digits, begins, chars, concat, concat3, cut, decimal, digit, drop_leading, find_text,
    from_utf8_lossy, is_digit, is_white, line_list, lines, lower, number_wide, only_digits, owned,
    position_of, same, slice, split_once, starts_with, strip_prefix, text_in, to_lower, trim,
    trim_start, trimmed, trimmed_start, white, without_leading, without_prefix,
};
use crate::value::{append_one, empty_list, if_any, non_empty, or_text};
use crate::warn::{CtxView, FormatCtx};

verus! {

pub const FORMAT: &'static str = "tap";

/// The name of the suite holding assertions that sit outside any subtest.
pub const ROOT_SUITE: &'static str = "(root)";

// ---------------------------------------------------------------------------
// Cutting lines
// ---------------------------------------------------------------------------

/// How many bytes a character takes.
pub open spec fn width(c: char) -> nat {
    if (c as int) < 0x80 {
        1
    } else if (c as int) < 0x800 {
        2
    } else if (c as int) < 0x10000 {
        3
    } else {
        4
    }
}

/// How many bytes of white space a line begins with.
pub open spec fn indent_of(s: Seq<char>) -> nat
    decreases s.len(),
{
    if s.len() > 0 && is_white(s[0]) {
        width(s[0]) + indent_of(s.skip(1))
    } else {
        0
    }
}

/// The position of the first white space, or the length.
pub open spec fn first_white(s: Seq<char>) -> int
    decreases s.len(),
{
    if s.len() == 0 || is_white(s[0]) {
        0
    } else {
        1 + first_white(s.skip(1))
    }
}

/// What stands before and after the first white space.
pub open spec fn split_white(s: Seq<char>) -> Option<(Seq<char>, Seq<char>)> {
    let i = first_white(s);
    if i < s.len() {
        Some((s.take(i), s.skip(i + 1)))
    } else {
        None
    }
}

pub open spec fn drop_digits(s: Seq<char>) -> Seq<char>
    decreases s.len(),
{
    if s.len() > 0 && is_digit(s[0]) {
        drop_digits(s.skip(1))
    } else {
        s
    }
}

pub open spec fn is_quote(c: char) -> bool {
    c == '\'' || c == '"'
}

pub open spec fn drop_open_quotes(s: Seq<char>) -> Seq<char>
    decreases s.len(),
{
    if s.len() > 0 && is_quote(s[0]) {
        drop_open_quotes(s.skip(1))
    } else {
        s
    }
}

pub open spec fn drop_close_quotes(s: Seq<char>) -> Seq<char>
    decreases s.len(),
{
    if s.len() > 0 && is_quote(s.last()) {
        drop_close_quotes(s.drop_last())
    } else {
        s
    }
}

fn char_width(c: char) -> (r: u128)
    ensures
        r == width(c),
        r <= 4,
{
    let code = c as u32;
    if code < 0x80 {
        1
    } else if code < 0x800 {
        2
    } else if code < 0x10000 {
        3
    } else {
        4
    }
}

fn count_indent(s: &str) -> (r: u128)
    ensures
        r == indent_of(s@),
{
    let cs = chars(s);
    let mut n: u128 = 0;
    let mut i: usize = 0;
    assert(cs@.skip(0) =~= cs@);
    while i < cs.len() && white(cs[i])
        invariant
            cs@ == s@,
            i <= cs@.len(),
            n <= 4 * i,
            indent_of(s@) == n + indent_of(cs@.skip(i as int)),
        decreases cs@.len() - i,
    {
        assert(cs@.skip(i as int)[0] == cs@[i as int]);
        assert(cs@.skip(i as int).skip(1) =~= cs@.skip(i as int + 1));
        n = n + char_width(cs[i]);
        i = i + 1;
    }
    proof {
        if i < cs@.len() {
            assert(cs@.skip(i as int)[0] == cs@[i as int]);
        }
    }
    n
}

fn cut_white(s: &str) -> (r: Option<(String, String)>)
    ensures
        r.deep_view() == split_white(s@),
{
    let cs = chars(s);
    let mut i: usize = 0;
    assert(cs@.skip(0) =~= cs@);
    while i < cs.len() && !white(cs[i])
        invariant
            cs@ == s@,
            i <= cs@.len(),
            first_white(s@) == i + first_white(cs@.skip(i as int)),
        decreases cs@.len() - i,
    {
        assert(cs@.skip(i as int)[0] == cs@[i as int]);
        assert(cs@.skip(i as int).skip(1) =~= cs@.skip(i as int + 1));
        i = i + 1;
    }
    if i == cs.len() {
        assert(cs@.skip(i as int) =~= Seq::empty());
        return None;
    }
    assert(cs@.skip(i as int)[0] == cs@[i as int]);
    let before = slice(&cs, 0, i);
    let after = slice(&cs, i + 1, cs.len());
    assert(before@ =~= s@.take(i as int));
    assert(after@ =~= s@.skip(i as int + 1));
    Some((before, after))
}

fn without_digits(s: &str) -> (r: String)
    ensures
        r@ == drop_digits(s@),
{
    let cs = chars(s);
    let mut i: usize = 0;
    assert(cs@.skip(0) =~= cs@);
    while i < cs.len() && digit(cs[i])
        invariant
            cs@ == s@,
            i <= cs@.len(),
            drop_digits(s@) == drop_digits(cs@.skip(i as int)),
        decreases cs@.len() - i,
    {
        assert(cs@.skip(i as int)[0] == cs@[i as int]);
        assert(cs@.skip(i as int).skip(1) =~= cs@.skip(i as int + 1));
        i = i + 1;
    }
    proof {
        if i < cs@.len() {
            assert(cs@.skip(i as int)[0] == cs@[i as int]);
        }
        assert(cs@.skip(i as int) =~= cs@.subrange(i as int, cs@.len() as int));
    }
    slice(&cs, i, cs.len())
}

fn quote(c: char) -> (r: bool)
    ensures
        r == is_quote(c),
{
    c == '\'' || c == '"'
}

fn unquoted(s: &str) -> (r: String)
    ensures
        r@ == drop_close_quotes(drop_open_quotes(s@)),
{
    let cs = chars(s);
    let mut from: usize = 0;
    assert(cs@.skip(0) =~= cs@);
    while from < cs.len() && quote(cs[from])
        invariant
            cs@ == s@,
            from <= cs@.len(),
            drop_open_quotes(s@) == drop_open_quotes(cs@.skip(from as int)),
        decreases cs@.len() - from,
    {
        assert(cs@.skip(from as int)[0] == cs@[from as int]);
        assert(cs@.skip(from as int).skip(1) =~= cs@.skip(from as int + 1));
        from = from + 1;
    }
    proof {
        if from < cs@.len() {
            assert(cs@.skip(from as int)[0] == cs@[from as int]);
        }
    }
    let ghost rest = cs@.skip(from as int);
    let mut to: usize = cs.len();
    assert(cs@.subrange(from as int, to as int) =~= rest);
    while to > from && quote(cs[to - 1])
        invariant
            from <= to <= cs@.len(),
            drop_close_quotes(rest) == drop_close_quotes(cs@.subrange(from as int, to as int)),
        decreases to,
    {
        assert(cs@.subrange(from as int, to as int).last() == cs@[to - 1]);
        assert(cs@.subrange(from as int, to as int).drop_last() =~= cs@.subrange(
            from as int,
            to - 1,
        ));
        to = to - 1;
    }
    proof {
        if to > from {
            assert(cs@.subrange(from as int, to as int).last() == cs@[to - 1]);
        }
    }
    slice(&cs, from, to)
}

// ---------------------------------------------------------------------------
// Plans
// ---------------------------------------------------------------------------

pub open spec fn before_hash(line: Seq<char>) -> Seq<char> {
    match split_once(line, '#') {
        Some((head, _)) => head,
        None => line,
    }
}

/// Whether the line is `1..3`, or `1..0 # SKIP everything`.
pub open spec fn plan(line: Seq<char>) -> bool {
    let head = trim(before_hash(line));
    match find_text(head, ".."@) {
        Some(i) => {
            let start = head.take(i);
            let end = head.skip(i + 2);
            start.len() > 0 && end.len() > 0 && all_digits(start) && all_digits(end)
        },
        None => false,
    }
}

pub fn is_plan(line: &str) -> (r: bool)
    ensures
        r == plan(line@),
{
    let head = match cut(line, '#') {
        Some((head, _)) => trimmed(head.as_str()),
        None => trimmed(line),
    };
    let cs = chars(head.as_str());
    let dots = chars("..");
    proof {
        reveal_strlit("..");
        assert(cs@.skip(0) =~= cs@);
    }
    match position_of(&cs, 0, &dots) {
        Some(i) => {
            let count = cs.len();
            assert(i + 2 <= count);
            let start = slice(&cs, 0, i);
            let end = slice(&cs, i + 2, cs.len());
            assert(start@ =~= head@.take(i as int));
            assert(end@ =~= head@.skip(i + 2));
            i > 0 && i + 2 < cs.len() && only_digits(start.as_str()) && only_digits(end.as_str())
        },
        None => false,
    }
}

// ---------------------------------------------------------------------------
// Assertions
// ---------------------------------------------------------------------------

/// What a result is marked as, with the reason.
#[derive(Debug, PartialEq, Eq)]
pub enum Directive {
    Skip(Option<String>),
    Todo(Option<String>),
}

/// The content of a [`Directive`].
pub enum DirectiveView {
    Skip(Option<Seq<char>>),
    Todo(Option<Seq<char>>),
}

impl DeepView for Directive {
    type V = DirectiveView;

    open spec fn deep_view(&self) -> DirectiveView {
        match *self {
            Directive::Skip(reason) => DirectiveView::Skip(reason.deep_view()),
            Directive::Todo(reason) => DirectiveView::Todo(reason.deep_view()),
        }
    }
}

/// One `ok` / `not ok` line, before its diagnostics arrive.
#[derive(Debug, PartialEq, Eq)]
pub struct Assertion {
    pub ok: bool,
    pub description: String,
    pub directive: Option<Directive>,
}

/// The content of an [`Assertion`].
pub struct AssertionView {
    pub ok: bool,
    pub description: Seq<char>,
    pub directive: Option<DirectiveView>,
}

impl DeepView for Assertion {
    type V = AssertionView;

    open spec fn deep_view(&self) -> AssertionView {
        AssertionView {
            ok: self.ok,
            description: self.description@,
            directive: self.directive.deep_view(),
        }
    }
}

/// Whether a directive may start at this position: an escaped `\#` is part of
/// the description.
pub open spec fn hash_at(s: Seq<char>, i: int) -> bool {
    s[i] == '#' && !(i > 0 && s[i - 1] == '\\')
}

/// The position of the first such hash from `from` on, or the length.
pub open spec fn hash_from(s: Seq<char>, from: int) -> int
    decreases s.len() - from,
{
    if from >= s.len() {
        s.len() as int
    } else if hash_at(s, from) {
        from
    } else {
        hash_from(s, from + 1)
    }
}

/// The directive that a marker stands for; a word that starts with "skip" will
/// do.
pub open spec fn directive_of(marker: Seq<char>) -> Option<DirectiveView> {
    let (word, rest) = match split_white(marker) {
        Some((word, rest)) => (word, trim(rest)),
        None => (marker, Seq::empty()),
    };
    let reason = non_empty(Some(rest));
    if starts_with(lower(word), "skip"@) {
        Some(DirectiveView::Skip(reason))
    } else if lower(word) == "todo"@ {
        Some(DirectiveView::Todo(reason))
    } else {
        None
    }
}

/// The description and what is marked behind it.
pub open spec fn directive_split(s: Seq<char>) -> (Seq<char>, Option<DirectiveView>) {
    let at = hash_from(s, 0);
    if at < s.len() {
        (s.take(at), directive_of(trim(drop_leading(s.skip(at), '#'))))
    } else {
        (s, None)
    }
}

/// Without the test number.
pub open spec fn unnumbered(s: Seq<char>) -> Seq<char> {
    match split_white(s) {
        Some((head, tail)) => if head.len() > 0 && all_digits(head) {
            tail
        } else {
            drop_digits(s)
        },
        None => drop_digits(s),
    }
}

/// What stands behind `ok` or `not ok`, and which of them it is.
pub open spec fn verdict(line: Seq<char>) -> Option<(bool, Seq<char>)> {
    match strip_prefix(line, "not ok"@) {
        Some(rest) => Some((false, rest)),
        None => match strip_prefix(line, "ok"@) {
            Some(rest) => Some((true, rest)),
            None => None,
        },
    }
}

/// The assertion of `not ok 2 - divides numbers # TODO not implemented`. `ok`
/// must be a word of its own: `okay` is no assertion.
pub open spec fn assertion_of(line: Seq<char>) -> Option<AssertionView> {
    match verdict(line) {
        None => None,
        Some((ok, rest)) => if rest.len() > 0 && rest[0] != ' ' && rest[0] != '\t' {
            None
        } else {
            let (text, directive) = directive_split(trim(unnumbered(trim_start(rest))));
            Some(
                AssertionView {
                    ok,
                    description: trim(drop_leading(trim(text), '-')),
                    directive,
                },
            )
        },
    }
}

fn find_hash(cs: &Vec<char>) -> (r: usize)
    ensures
        r <= cs@.len(),
        r == hash_from(cs@, 0),
{
    let mut i: usize = 0;
    while i < cs.len()
        invariant
            i <= cs@.len(),
            hash_from(cs@, 0) == hash_from(cs@, i as int),
        decreases cs@.len() - i,
    {
        if cs[i] == '#' && !(i > 0 && cs[i - 1] == '\\') {
            return i;
        }
        i = i + 1;
    }
    i
}

fn read_directive(marker: &str) -> (r: Option<Directive>)
    ensures
        r.deep_view() == directive_of(marker@),
{
    let (word, rest) = match cut_white(marker) {
        Some((word, rest)) => (word, trimmed(rest.as_str())),
        None => (owned(marker), String::new()),
    };
    let reason = if_any(Some(rest));
    let word = to_lower(word.as_str());
    if begins(word.as_str(), "skip") {
        Some(Directive::Skip(reason))
    } else if same(word.as_str(), "todo") {
        Some(Directive::Todo(reason))
    } else {
        None
    }
}

/// Separates `# SKIP reason` / `# TODO reason` from the description.
pub fn split_directive(text: &str) -> (r: (String, Option<Directive>))
    ensures
        r.deep_view() == directive_split(text@),
{
    let cs = chars(text);
    let at = find_hash(&cs);
    if at < cs.len() {
        let before = slice(&cs, 0, at);
        let after = slice(&cs, at, cs.len());
        assert(before@ =~= text@.take(at as int));
        assert(after@ =~= text@.skip(at as int));
        let marker = trimmed(without_leading(after.as_str(), '#').as_str());
        (before, read_directive(marker.as_str()))
    } else {
        (owned(text), None)
    }
}

fn drop_number(s: &str) -> (r: String)
    ensures
        r@ == unnumbered(s@),
{
    if let Some((head, tail)) = cut_white(s) {
        if !head.as_str().is_empty() && only_digits(head.as_str()) {
            return tail;
        }
    }
    without_digits(s)
}

fn read_verdict(line: &str) -> (r: Option<(bool, String)>)
    ensures
        r.deep_view() == verdict(line@),
{
    match without_prefix(line, "not ok") {
        Some(rest) => Some((false, rest)),
        None => match without_prefix(line, "ok") {
            Some(rest) => Some((true, rest)),
            None => None,
        },
    }
}

pub fn parse_assertion(line: &str) -> (r: Option<Assertion>)
    ensures
        r.deep_view() == assertion_of(line@),
{
    let (ok, rest) = match read_verdict(line) {
        Some(pair) => pair,
        None => {
            return None;
        },
    };
    let cs = chars(rest.as_str());
    if cs.len() > 0 && cs[0] != ' ' && cs[0] != '\t' {
        return None;
    }
    let rest = trimmed_start(rest.as_str());
    let rest = drop_number(rest.as_str());
    let (text, directive) = split_directive(trimmed(rest.as_str()).as_str());
    let text = without_leading(trimmed(text.as_str()).as_str(), '-');
    Some(Assertion { ok, description: trimmed(text.as_str()), directive })
}

/// The outcome of an assertion. A failing TODO is the expected state of an
/// unfinished test, not a regression; one that passed did pass. The description
/// stands in for a message until the diagnostic block supplies a better one.
pub open spec fn outcome_of(assertion: AssertionView) -> OutcomeView {
    match assertion.directive {
        Some(DirectiveView::Skip(reason)) => OutcomeView::Skipped { message: reason },
        Some(DirectiveView::Todo(reason)) => if assertion.ok {
            OutcomeView::Passed
        } else {
            OutcomeView::Skipped {
                message: Some(
                    match reason {
                        Some(reason) => "TODO: "@ + reason,
                        None => "TODO"@,
                    },
                ),
            }
        },
        None => if assertion.ok {
            OutcomeView::Passed
        } else {
            OutcomeView::Failed(
                ProblemView {
                    message: Some(assertion.description),
                    ..ProblemView::empty()
                },
            )
        },
    }
}

pub open spec fn case_of(assertion: AssertionView) -> TestCaseView {
    TestCaseView::of(assertion.description, outcome_of(assertion))
}

pub fn build_case(assertion: Assertion) -> (r: TestCase)
    ensures
        r.deep_view() == case_of(assertion.deep_view()),
{
    let outcome = match assertion.directive {
        Some(Directive::Skip(reason)) => Outcome::Skipped { message: reason },
        Some(Directive::Todo(reason)) => if assertion.ok {
            Outcome::Passed
        } else {
            Outcome::Skipped {
                message: Some(
                    match reason {
                        Some(reason) => concat("TODO: ", reason.as_str()),
                        None => owned("TODO"),
                    },
                ),
            }
        },
        None => if assertion.ok {
            Outcome::Passed
        } else {
            Outcome::Failed(
                Problem {
                    message: Some(assertion.description.clone()),
                    kind: None,
                    detail: None,
                },
            )
        },
    };
    TestCase::new(assertion.description.as_str(), outcome)
}

// ---------------------------------------------------------------------------
// Diagnostics
// ---------------------------------------------------------------------------

/// The message that a line states, without quotes.
pub open spec fn stated_message(line: Seq<char>) -> Option<Seq<char>> {
    match strip_prefix(trim(line), "message:"@) {
        Some(value) => non_empty(Some(drop_close_quotes(drop_open_quotes(trim(value))))),
        None => None,
    }
}

/// The first message that these lines state.
pub open spec fn first_message(all: Seq<Seq<char>>) -> Option<Seq<char>>
    decreases all.len(),
{
    if all.len() == 0 {
        None
    } else {
        match stated_message(all[0]) {
            Some(message) => Some(message),
            None => first_message(all.skip(1)),
        }
    }
}

fn read_message(line: &str) -> (r: Option<String>)
    ensures
        r.deep_view() == stated_message(line@),
{
    match without_prefix(trimmed(line).as_str(), "message:") {
        Some(value) => if_any(Some(unquoted(trimmed(value.as_str()).as_str()))),
        None => None,
    }
}

/// Lifts `message:` out of a diagnostic block.
pub fn yaml_message(block: &str) -> (r: Option<String>)
    ensures
        r.deep_view() == first_message(lines(block@)),
{
    let list = line_list(block);
    let ghost all = list.deep_view();
    let mut i: usize = 0;
    assert(all.skip(0) =~= all);
    while i < list.len()
        invariant
            i <= list@.len(),
            all == list.deep_view(),
            all == lines(block@),
            first_message(all) == first_message(all.skip(i as int)),
        decreases list@.len() - i,
    {
        assert(all.skip(i as int)[0] == all[i as int]);
        assert(all.skip(i as int).skip(1) =~= all.skip(i as int + 1));
        if let Some(message) = read_message(list[i].as_str()) {
            return Some(message);
        }
        i = i + 1;
    }
    None
}

pub open spec fn problem_explained(problem: ProblemView, block: Seq<char>) -> ProblemView {
    ProblemView {
        message: match first_message(lines(block)) {
            Some(message) => Some(message),
            None => problem.message,
        },
        detail: Some(block),
        ..problem
    }
}

/// The case with the diagnostic block that followed it. A skip may explain
/// itself in the block; a pass may carry timings.
pub open spec fn diagnosed(case: TestCaseView, block: Seq<char>) -> TestCaseView {
    match case.outcome {
        OutcomeView::Failed(p) => TestCaseView {
            outcome: OutcomeView::Failed(problem_explained(p, block)),
            ..case
        },
        OutcomeView::Errored(p) => TestCaseView {
            outcome: OutcomeView::Errored(problem_explained(p, block)),
            ..case
        },
        _ => TestCaseView { system_out: Some(block), ..case },
    }
}

fn explain(problem: &mut Problem, block: String)
    ensures
        final(problem).deep_view() == problem_explained(old(problem).deep_view(), block@),
{
    if let Some(message) = yaml_message(block.as_str()) {
        problem.message = Some(message);
    }
    problem.detail = Some(block);
}

pub fn attach_diagnostics(case: &mut TestCase, block: String)
    ensures
        final(case).deep_view() == diagnosed(old(case).deep_view(), block@),
{
    match &mut case.outcome {
        Outcome::Failed(problem) => explain(problem, block),
        Outcome::Errored(problem) => explain(problem, block),
        _ => {
            case.system_out = Some(block);
        },
    }
}

// ---------------------------------------------------------------------------
// The state of the reader
// ---------------------------------------------------------------------------

/// A suite being filled, and the indentation its lines sit at.
pub struct FrameView {
    pub indent: nat,
    pub name: Seq<char>,
    pub cases: Seq<TestCaseView>,
}

struct Frame {
    indent: u128,
    name: String,
    cases: Vec<TestCase>,
}

impl DeepView for Frame {
    type V = FrameView;

    closed spec fn deep_view(&self) -> FrameView {
        FrameView {
            indent: self.indent as nat,
            name: self.name@,
            cases: self.cases.deep_view(),
        }
    }
}

/// What has been read so far.
pub struct StateView {
    pub suites: Seq<TestSuiteView>,
    pub stack: Seq<FrameView>,
    /// A subtest whose indented block has not started yet.
    pub announced: Option<Seq<char>>,
    /// The last assertion only summarized a block, and left no case.
    pub dropped: bool,
    pub diagnostics: Option<Seq<char>>,
    pub in_yaml: bool,
    pub saw_tap: bool,
    pub bailed: Option<Seq<char>>,
}

pub struct State {
    suites: Vec<TestSuite>,
    stack: Vec<Frame>,
    announced: Option<String>,
    dropped: bool,
    diagnostics: Option<String>,
    in_yaml: bool,
    saw_tap: bool,
    bailed: Option<String>,
}

impl View for State {
    type V = StateView;

    closed spec fn view(&self) -> StateView {
        StateView {
            suites: self.suites.deep_view(),
            stack: self.stack.deep_view(),
            announced: self.announced.deep_view(),
            dropped: self.dropped,
            diagnostics: self.diagnostics.deep_view(),
            in_yaml: self.in_yaml,
            saw_tap: self.saw_tap,
            bailed: self.bailed.deep_view(),
        }
    }
}

pub open spec fn first_state() -> StateView {
    StateView {
        suites: Seq::empty(),
        stack: seq![FrameView { indent: 0, name: ROOT_SUITE@, cases: Seq::empty() }],
        announced: None,
        dropped: false,
        diagnostics: None,
        in_yaml: false,
        saw_tap: false,
        bailed: None,
    }
}

/// The suites with a frame closed; one without cases leaves none.
pub open spec fn closed_frame(
    suites: Seq<TestSuiteView>,
    frame: FrameView,
) -> Seq<TestSuiteView> {
    if frame.cases.len() == 0 {
        suites
    } else {
        suites.push(TestSuiteView { cases: frame.cases, ..TestSuiteView::of(frame.name) })
    }
}

/// The state with every block deeper than `indent` closed, and whether one of
/// them has this name.
pub open spec fn closed_to(s: StateView, indent: nat, name: Seq<char>) -> (StateView, bool)
    decreases s.stack.len(),
{
    if s.stack.len() > 0 && indent < s.stack.last().indent {
        let frame = s.stack.last();
        let (rest, found) = closed_to(
            StateView {
                suites: closed_frame(s.suites, frame),
                stack: s.stack.drop_last(),
                ..s
            },
            indent,
            name,
        );
        (rest, found || frame.name == name)
    } else {
        (s, false)
    }
}

/// The state inside the block that a line this far in begins, if it does.
pub open spec fn entered(s: StateView, indent: nat) -> StateView {
    if s.stack.len() > 0 && indent > s.stack.last().indent {
        StateView {
            announced: None,
            stack: s.stack.push(
                FrameView {
                    indent,
                    name: or_text(s.announced, "subtest at column "@ + decimal(indent)),
                    cases: Seq::empty(),
                },
            ),
            ..s
        }
    } else {
        s
    }
}

pub open spec fn case_pushed(s: StateView, case: TestCaseView) -> StateView {
    if s.stack.len() > 0 {
        let top = s.stack.last();
        StateView {
            stack: s.stack.update(
                s.stack.len() - 1,
                FrameView { cases: top.cases.push(case), ..top },
            ),
            ..s
        }
    } else {
        s
    }
}

/// The state behind an assertion. The line that only summarizes the block just
/// closed is dropped.
pub open spec fn asserted(s: StateView, indent: nat, assertion: AssertionView) -> StateView {
    let (next, summarized) = closed_to(
        entered(StateView { saw_tap: true, ..s }, indent),
        indent,
        assertion.description,
    );
    if summarized {
        StateView { dropped: true, ..next }
    } else {
        case_pushed(StateView { dropped: false, ..next }, case_of(assertion))
    }
}

/// The state with the diagnostic block attached to the case just read. That of an
/// assertion that was dropped is dropped with it.
pub open spec fn block_attached(s: StateView) -> StateView {
    let next = StateView { in_yaml: false, diagnostics: None, ..s };
    match s.diagnostics {
        None => next,
        Some(block) => if !s.dropped && s.stack.len() > 0 && s.stack.last().cases.len() > 0 {
            let top = s.stack.last();
            StateView {
                stack: s.stack.update(
                    s.stack.len() - 1,
                    FrameView {
                        cases: top.cases.update(
                            top.cases.len() - 1,
                            diagnosed(top.cases.last(), block),
                        ),
                        ..top
                    },
                ),
                ..next
            }
        } else {
            next
        },
    }
}

/// The state behind a line of a diagnostic block.
pub open spec fn yaml_stepped(s: StateView, raw: Seq<char>) -> StateView {
    if trim(raw) == "..."@ {
        block_attached(s)
    } else {
        StateView {
            diagnostics: Some(
                or_text(s.diagnostics, Seq::empty()) + trim_start(raw) + "\n"@,
            ),
            ..s
        }
    }
}

/// The state behind any other line.
pub open spec fn line_stepped(s: StateView, raw: Seq<char>) -> StateView {
    let line = trim(raw);
    if line == "---"@ {
        StateView { in_yaml: true, diagnostics: None, ..s }
    } else {
        match (strip_prefix(line, "Bail out!"@), strip_prefix(line, "# Subtest:"@)) {
            (Some(reason), _) => StateView { saw_tap: true, bailed: Some(trim(reason)), ..s },
            (None, subtest) => if starts_with(line, "TAP version"@) || plan(line) {
                StateView { saw_tap: true, ..s }
            } else {
                match subtest {
                    Some(name) => StateView { announced: Some(trim(name)), ..s },
                    None => if starts_with(line, "#"@) {
                        s
                    } else {
                        match assertion_of(line) {
                            Some(assertion) => asserted(s, indent_of(raw), assertion),
                            None => s,
                        }
                    },
                }
            },
        }
    }
}

/// The state behind one more line. Nothing is read once the run bailed out.
pub open spec fn stepped(s: StateView, raw: Seq<char>) -> StateView {
    if s.bailed is Some || trim(raw).len() == 0 {
        s
    } else if s.in_yaml {
        yaml_stepped(s, raw)
    } else {
        line_stepped(s, raw)
    }
}

/// The state behind these lines.
pub open spec fn folded(all: Seq<Seq<char>>) -> StateView
    decreases all.len(),
{
    if all.len() == 0 {
        first_state()
    } else {
        stepped(folded(all.drop_last()), all.last())
    }
}

fn close(suites: &mut Vec<TestSuite>, frame: Frame)
    ensures
        final(suites).deep_view() == closed_frame(old(suites).deep_view(), frame.deep_view()),
{
    if frame.cases.len() > 0 {
        let mut suite = TestSuite::new(frame.name.as_str());
        suite.cases = frame.cases;
        append_one(suites, suite);
    }
}

impl State {
    fn new() -> (r: Self)
        ensures
            r@ == first_state(),
    {
        let mut stack: Vec<Frame> = empty_list();
        append_one(
            &mut stack,
            Frame { indent: 0, name: owned(ROOT_SUITE), cases: empty_list() },
        );
        let r = State {
            suites: empty_list(),
            stack,
            announced: None,
            dropped: false,
            diagnostics: None,
            in_yaml: false,
            saw_tap: false,
            bailed: None,
        };
        assert(r@.stack =~= first_state().stack);
        r
    }

    fn close_to(&mut self, indent: u128, name: &str) -> (r: bool)
        ensures
            (final(self)@, r) == closed_to(old(self)@, indent as nat, name@),
    {
        let ghost goal = closed_to(self@, indent as nat, name@);
        let mut found = false;
        while self.stack.len() > 0 && indent < self.stack[self.stack.len() - 1].indent
            invariant
                goal.0 == closed_to(self@, indent as nat, name@).0,
                goal.1 == (found || closed_to(self@, indent as nat, name@).1),
            decreases self.stack@.len(),
        {
            let ghost before = self@;
            if let Some(frame) = self.stack.pop() {
                if same(frame.name.as_str(), name) {
                    found = true;
                }
                close(&mut self.suites, frame);
                proof {
                    assert(self@.stack =~= before.stack.drop_last());
                    assert(self@ == (StateView {
                        suites: closed_frame(before.suites, before.stack.last()),
                        stack: before.stack.drop_last(),
                        ..before
                    }));
                }
            }
        }
        found
    }

    fn enter(&mut self, indent: u128)
        ensures
            final(self)@ == entered(old(self)@, indent as nat),
    {
        let n = self.stack.len();
        if n > 0 && indent > self.stack[n - 1].indent {
            let name = match &self.announced {
                Some(name) => name.clone(),
                None => concat("subtest at column ", number_wide(indent).as_str()),
            };
            self.announced = None;
            append_one(&mut self.stack, Frame { indent, name, cases: empty_list() });
        }
    }

    fn push_case(&mut self, case: TestCase)
        ensures
            final(self)@ == case_pushed(old(self)@, case.deep_view()),
    {
        let n = self.stack.len();
        if n > 0 {
            append_one(&mut self.stack[n - 1].cases, case);
            assert(self.stack.deep_view() =~= case_pushed(old(self)@, case.deep_view()).stack);
        }
    }

    fn assert_line(&mut self, indent: u128, assertion: Assertion)
        ensures
            final(self)@ == asserted(old(self)@, indent as nat, assertion.deep_view()),
    {
        self.saw_tap = true;
        self.enter(indent);
        let summarized = self.close_to(indent, assertion.description.as_str());
        self.dropped = summarized;
        if !summarized {
            self.push_case(build_case(assertion));
        }
    }

    fn attach_block(&mut self)
        ensures
            final(self)@ == block_attached(old(self)@),
    {
        self.in_yaml = false;
        if let Some(block) = &self.diagnostics {
            let block = block.clone();
            let n = self.stack.len();
            if !self.dropped && n > 0 {
                let k = self.stack[n - 1].cases.len();
                if k > 0 {
                    let ghost before = self.stack.deep_view();
                    attach_diagnostics(&mut self.stack[n - 1].cases[k - 1], block);
                    assert(self.stack[n - 1].cases.deep_view()
                        =~= before.last().cases.update(
                        k - 1,
                        diagnosed(before.last().cases.last(), block@),
                    ));
                    assert(self.stack.deep_view() =~= block_attached(old(self)@).stack);
                }
            }
        }
        self.diagnostics = None;
    }

    fn step_yaml(&mut self, raw: &str)
        ensures
            final(self)@ == yaml_stepped(old(self)@, raw@),
    {
        if same(trimmed(raw).as_str(), "...") {
            self.attach_block();
        } else {
            let mut buffer = match &self.diagnostics {
                Some(text) => text.clone(),
                None => String::new(),
            };
            buffer.append(trimmed_start(raw).as_str());
            buffer.append("\n");
            self.diagnostics = Some(buffer);
        }
    }

    fn step_line(&mut self, raw: &str)
        ensures
            final(self)@ == line_stepped(old(self)@, raw@),
    {
        let line = trimmed(raw);
        let line = line.as_str();
        if same(line, "---") {
            self.in_yaml = true;
            self.diagnostics = None;
        } else if let Some(reason) = without_prefix(line, "Bail out!") {
            self.saw_tap = true;
            self.bailed = Some(trimmed(reason.as_str()));
        } else if begins(line, "TAP version") || is_plan(line) {
            self.saw_tap = true;
        } else if let Some(name) = without_prefix(line, "# Subtest:") {
            self.announced = Some(trimmed(name.as_str()));
        } else if begins(line, "#") {
        } else if let Some(assertion) = parse_assertion(line) {
            self.assert_line(count_indent(raw), assertion);
        }
    }

    fn step(&mut self, raw: &str)
        ensures
            final(self)@ == stepped(old(self)@, raw@),
    {
        if self.bailed.is_some() || trimmed(raw).as_str().is_empty() {
            return;
        }
        if self.in_yaml {
            self.step_yaml(raw);
        } else {
            self.step_line(raw);
        }
    }
}

// ---------------------------------------------------------------------------
// Reading
// ---------------------------------------------------------------------------

/// The suites with all these frames closed, the innermost first.
pub open spec fn all_closed(
    suites: Seq<TestSuiteView>,
    stack: Seq<FrameView>,
) -> Seq<TestSuiteView>
    decreases stack.len(),
{
    if stack.len() == 0 {
        suites
    } else {
        all_closed(closed_frame(suites, stack.last()), stack.drop_last())
    }
}

pub open spec fn bail_message(reason: Seq<char>) -> Seq<char> {
    if reason.len() == 0 {
        "the run bailed out"@
    } else {
        reason
    }
}

/// The suite that says that the run stopped.
pub open spec fn bail_suite(reason: Seq<char>) -> TestSuiteView {
    TestSuiteView {
        cases: seq![
            TestCaseView::of(
                "(bail out)"@,
                OutcomeView::Errored(
                    ProblemView {
                        message: Some(bail_message(reason)),
                        kind: Some("bail out"@),
                        detail: None,
                    },
                ),
            ),
        ],
        ..TestSuiteView::of("(bail out)"@)
    }
}

pub open spec fn suites_of(s: StateView) -> Seq<TestSuiteView> {
    let suites = all_closed(s.suites, s.stack);
    match s.bailed {
        Some(reason) => suites.push(bail_suite(reason)),
        None => suites,
    }
}

/// The document that reading these lines gives, or the refusal, and what is to
/// be said about it.
pub open spec fn read_spec(all: Seq<Seq<char>>, ctx: CtxView) -> (
    Result<DocView, ErrorView>,
    CtxView,
) {
    let s = folded(all);
    let suites = suites_of(s);
    let next = match s.bailed {
        Some(reason) => ctx.lossy(
            "tap: the run bailed out ("@ + bail_message(reason)
                + "); everything after that point never ran"@,
        ),
        None => ctx,
    };
    if !s.saw_tap || suites.len() == 0 {
        (
            Err(
                parse_error(
                    FORMAT@,
                    "no plan, version line or `ok`/`not ok` assertion — this does not look like TAP"@,
                ),
            ),
            next,
        )
    } else {
        (Ok(DocView::Tests(TestReportView { suites, ..TestReportView::empty() })), next)
    }
}

fn close_all(suites: Vec<TestSuite>, stack: Vec<Frame>) -> (r: Vec<TestSuite>)
    ensures
        r.deep_view() == all_closed(suites.deep_view(), stack.deep_view()),
{
    let ghost goal = all_closed(suites.deep_view(), stack.deep_view());
    let mut suites = suites;
    let mut stack = stack;
    while stack.len() > 0
        invariant
            goal == all_closed(suites.deep_view(), stack.deep_view()),
        decreases stack@.len(),
    {
        let ghost before = stack.deep_view();
        if let Some(frame) = stack.pop() {
            assert(stack.deep_view() =~= before.drop_last());
            close(&mut suites, frame);
        }
    }
    suites
}

fn bailed_suite(message: &str) -> (r: TestSuite)
    ensures
        r.deep_view() == (TestSuiteView {
            cases: seq![
                TestCaseView::of(
                    "(bail out)"@,
                    OutcomeView::Errored(
                        ProblemView {
                            message: Some(message@),
                            kind: Some("bail out"@),
                            detail: None,
                        },
                    ),
                ),
            ],
            ..TestSuiteView::of("(bail out)"@)
        }),
{
    let mut suite = TestSuite::new("(bail out)");
    let case = TestCase::new(
        "(bail out)",
        Outcome::Errored(
            Problem {
                message: Some(owned(message)),
                kind: Some(owned("bail out")),
                detail: None,
            },
        ),
    );
    append_one(&mut suite.cases, case);
    assert(suite.cases.deep_view() =~= seq![case.deep_view()]);
    suite
}

/// Reads a TAP stream.
pub fn read_text(text: &str, ctx: &mut FormatCtx) -> (r: Result<Doc, Error>)
    ensures
        (read_result(r), final(ctx)@) == read_spec(lines(text@), old(ctx)@),
{
    let list = line_list(text);
    let ghost all = list.deep_view();
    let mut state = State::new();
    let mut i: usize = 0;
    assert(all.take(0) =~= Seq::empty());
    while i < list.len()
        invariant
            i <= list@.len(),
            all == list.deep_view(),
            state@ == folded(all.take(i as int)),
        decreases list@.len() - i,
    {
        assert(all.take(i as int + 1).drop_last() =~= all.take(i as int));
        assert(all.take(i as int + 1).last() == list[i as int]@);
        state.step(list[i].as_str());
        i = i + 1;
    }
    assert(all.take(i as int) =~= all);
    let ghost s = state@;
    let mut suites = close_all(state.suites, state.stack);
    if let Some(reason) = &state.bailed {
        let message = if reason.as_str().is_empty() {
            "the run bailed out"
        } else {
            reason.as_str()
        };
        ctx.lossy(
            concat3(
                "tap: the run bailed out (",
                message,
                "); everything after that point never ran",
            ).as_str(),
        );
        append_one(&mut suites, bailed_suite(message));
    }
    assert(suites.deep_view() == suites_of(s));
    if !state.saw_tap || suites.len() == 0 {
        return Err(
            Error::parse(
                FORMAT,
                "no plan, version line or `ok`/`not ok` assertion — this does not look like TAP",
            ),
        );
    }
    let mut report = TestReport::default();
    report.suites = suites;
    Ok(Doc::Tests(report))
}

pub fn read(input: &[u8], ctx: &mut FormatCtx) -> (r: Result<Doc, Error>)
    ensures
        (read_result(r), final(ctx)@) == read_spec(lines(text_in(input@)), old(ctx)@),
{
    let text = from_utf8_lossy(input);
    read_text(text.as_str(), ctx)
}

// ---------------------------------------------------------------------------
// Laws
// ---------------------------------------------------------------------------

/// A known-pending test never fails the build: an assertion that is marked is
/// passed or skipped, whatever its verdict.
pub proof fn marked_assertions_do_not_fail(assertion: AssertionView)
    requires
        assertion.directive is Some,
    ensures
        outcome_of(assertion) is Passed || outcome_of(assertion) is Skipped,
{
}

proof fn bailing_is_tap(all: Seq<Seq<char>>)
    ensures
        folded(all).bailed is Some ==> folded(all).saw_tap,
    decreases all.len(),
{
    if all.len() > 0 {
        bailing_is_tap(all.drop_last());
        let s = folded(all.drop_last());
        let raw = all.last();
        if s.bailed is None && trim(raw).len() > 0 && !s.in_yaml {
            if let Some(assertion) = assertion_of(trim(raw)) {
                closing_keeps_the_run(
                    entered(StateView { saw_tap: true, ..s }, indent_of(raw)),
                    indent_of(raw),
                    assertion.description,
                );
            }
        }
    }
}

proof fn closing_keeps_the_run(s: StateView, indent: nat, name: Seq<char>)
    ensures
        closed_to(s, indent, name).0.bailed == s.bailed,
        closed_to(s, indent, name).0.saw_tap == s.saw_tap,
    decreases s.stack.len(),
{
    if s.stack.len() > 0 && indent < s.stack.last().indent {
        closing_keeps_the_run(
            StateView {
                suites: closed_frame(s.suites, s.stack.last()),
                stack: s.stack.drop_last(),
                ..s
            },
            indent,
            name,
        );
    }
}

/// A run that bailed out is never reported green: the report ends with an
/// error, and the notice says so.
pub proof fn a_bailed_run_is_never_green(all: Seq<Seq<char>>, ctx: CtxView)
    requires
        folded(all).bailed is Some,
    ensures
        match read_spec(all, ctx).0 {
            Ok(DocView::Tests(report)) => report.suites.len() > 0
                && report.suites.last().cases.len() == 1
                && report.suites.last().cases[0].outcome is Errored,
            _ => false,
        },
{
    bailing_is_tap(all);
}

} // verus!
