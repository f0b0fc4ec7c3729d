//! Pivot model for code coverage reports.
//!
//! The union of what LCOV, Cobertura and JaCoCo can express: per-line hit
//! counts, per-line branch coverage as covered/total, functions with an
//! optional hit count, and JaCoCo's extra counters.

use vstd::prelude::*;
use vstd::string::*;

use crate::order::{
    lex_laws, opt_number_less, opt_number_lt, sort, sorted, sorted_fixpoint, sorted_props, Ranked,
};
use crate::paths::{MapperView, PathMapper};
use crate::text::{chars, last, less, lex_lt, owned, replace_char, replaced, same};
use crate::value::{add_all_new, append_one, empty_list, replace_at, with_all_new, Value};

verus! {

/// Branch coverage of a line.
#[derive(Debug, Clone, Copy, PartialEq, Eq, Structural)]
pub struct Branch {
    pub covered: u32,
    pub total: u32,
}

#[derive(Debug, Clone, Copy, PartialEq, Eq)]
pub struct Line {
    pub number: u32,
    pub hits: u64,
    /// `None` when the line holds no branch (as opposed to a fully covered one).
    pub branch: Option<Branch>,
}

/// A JaCoCo-style `missed`/`covered` pair.
#[derive(Debug, Clone, Copy, PartialEq, Eq, Structural)]
pub struct Counter {
    pub missed: u64,
    pub covered: u64,
}

/// Counters that only JaCoCo carries.
#[derive(Debug, Clone, Copy, PartialEq, Eq)]
pub struct Counters {
    pub instruction: Option<Counter>,
    pub complexity: Option<Counter>,
    pub method: Option<Counter>,
    pub class: Option<Counter>,
}

impl DeepView for Branch {
    type V = Branch;

    open spec fn deep_view(&self) -> Branch {
        *self
    }
}

impl DeepView for Line {
    type V = Line;

    open spec fn deep_view(&self) -> Line {
        *self
    }
}

impl DeepView for Counter {
    type V = Counter;

    open spec fn deep_view(&self) -> Counter {
        *self
    }
}

impl DeepView for Counters {
    type V = Counters;

    open spec fn deep_view(&self) -> Counters {
        *self
    }
}

impl Value for Branch {
    fn copy(&self) -> (r: Self) {
        *self
    }

    fn equals(&self, other: &Self) -> (r: bool) {
        *self == *other
    }
}

impl Value for Line {
    fn copy(&self) -> (r: Self) {
        *self
    }

    fn equals(&self, other: &Self) -> (r: bool) {
        self.number == other.number && self.hits == other.hits && self.branch.equals(&other.branch)
    }
}

impl Value for Counter {
    fn copy(&self) -> (r: Self) {
        *self
    }

    fn equals(&self, other: &Self) -> (r: bool) {
        *self == *other
    }
}

impl Value for Counters {
    fn copy(&self) -> (r: Self) {
        *self
    }

    fn equals(&self, other: &Self) -> (r: bool) {
        self.instruction.equals(&other.instruction) && self.complexity.equals(&other.complexity)
            && self.method.equals(&other.method) && self.class.equals(&other.class)
    }
}

impl Default for Branch {
    fn default() -> (r: Self)
        ensures
            r == no_branch(),
    {
        Branch { covered: 0, total: 0 }
    }
}

impl Default for Counter {
    fn default() -> (r: Self)
        ensures
            r == (Counter { missed: 0, covered: 0 }),
    {
        Counter { missed: 0, covered: 0 }
    }
}

impl Default for Counters {
    fn default() -> (r: Self)
        ensures
            r == no_counters(),
    {
        Counters { instruction: None, complexity: None, method: None, class: None }
    }
}

pub open spec fn no_branch() -> Branch {
    Branch { covered: 0, total: 0 }
}

pub open spec fn no_counters() -> Counters {
    Counters { instruction: None, complexity: None, method: None, class: None }
}

/// A function or method.
#[derive(Debug, PartialEq, Eq)]
pub struct Function {
    pub name: String,
    /// JVM descriptor / language signature, when the source format has one.
    pub signature: Option<String>,
    pub line: Option<u32>,
    pub hits: u64,
}

/// The content of a [`Function`].
pub struct FunctionView {
    pub name: Seq<char>,
    pub signature: Option<Seq<char>>,
    pub line: Option<u32>,
    pub hits: u64,
}

impl DeepView for Function {
    type V = FunctionView;

    open spec fn deep_view(&self) -> FunctionView {
        FunctionView {
            name: self.name.deep_view(),
            signature: self.signature.deep_view(),
            line: self.line.deep_view(),
            hits: self.hits.deep_view(),
        }
    }
}

impl Value for Function {
    fn copy(&self) -> (r: Self) {
        Function {
            name: self.name.copy(),
            signature: self.signature.copy(),
            line: self.line.copy(),
            hits: self.hits.copy(),
        }
    }

    fn equals(&self, other: &Self) -> (r: bool) {
        self.name.equals(&other.name)
            && self.signature.equals(&other.signature)
            && self.line.equals(&other.line)
            && self.hits.equals(&other.hits)
    }
}

impl Clone for Function {
    fn clone(&self) -> (r: Self)
        ensures
            r.deep_view() == self.deep_view(),
    {
        self.copy()
    }
}

/// Coverage of one source file.
#[derive(Debug, PartialEq, Eq)]
pub struct FileCoverage {
    /// Repository-relative path, `/`-separated.
    pub path: String,
    pub lines: Vec<Line>,
    pub functions: Vec<Function>,
    pub counters: Counters,
}

/// The content of a [`FileCoverage`].
pub struct FileCoverageView {
    pub path: Seq<char>,
    pub lines: Seq<Line>,
    pub functions: Seq<FunctionView>,
    pub counters: Counters,
}

impl DeepView for FileCoverage {
    type V = FileCoverageView;

    open spec fn deep_view(&self) -> FileCoverageView {
        FileCoverageView {
            path: self.path.deep_view(),
            lines: self.lines.deep_view(),
            functions: self.functions.deep_view(),
            counters: self.counters.deep_view(),
        }
    }
}

impl Value for FileCoverage {
    fn copy(&self) -> (r: Self) {
        FileCoverage {
            path: self.path.copy(),
            lines: self.lines.copy(),
            functions: self.functions.copy(),
            counters: self.counters.copy(),
        }
    }

    fn equals(&self, other: &Self) -> (r: bool) {
        self.path.equals(&other.path)
            && self.lines.equals(&other.lines)
            && self.functions.equals(&other.functions)
            && self.counters.equals(&other.counters)
    }
}

impl Clone for FileCoverage {
    fn clone(&self) -> (r: Self)
        ensures
            r.deep_view() == self.deep_view(),
    {
        self.copy()
    }
}

impl FileCoverageView {
    pub open spec fn empty() -> FileCoverageView {
        FileCoverageView {
            path: Seq::empty(),
            lines: Seq::empty(),
            functions: Seq::empty(),
            counters: no_counters(),
        }
    }
}

impl Default for FileCoverage {
    fn default() -> (r: Self)
        ensures
            r.deep_view() == FileCoverageView::empty(),
    {
        FileCoverage {
            path: String::new(),
            lines: empty_list(),
            functions: empty_list(),
            counters: Counters::default(),
        }
    }
}

/// A coverage report.
#[derive(Debug, PartialEq, Eq)]
pub struct CoverageDoc {
    /// Unix timestamp of the run, when the source format records one.
    pub timestamp: Option<i64>,
    /// Source roots the paths are relative to (Cobertura `<sources>`).
    pub source_roots: Vec<String>,
    pub files: Vec<FileCoverage>,
}

/// The content of a [`CoverageDoc`].
pub struct CoverageDocView {
    pub timestamp: Option<i64>,
    pub source_roots: Seq<Seq<char>>,
    pub files: Seq<FileCoverageView>,
}

impl DeepView for CoverageDoc {
    type V = CoverageDocView;

    open spec fn deep_view(&self) -> CoverageDocView {
        CoverageDocView {
            timestamp: self.timestamp.deep_view(),
            source_roots: self.source_roots.deep_view(),
            files: self.files.deep_view(),
        }
    }
}

impl Value for CoverageDoc {
    fn copy(&self) -> (r: Self) {
        CoverageDoc {
            timestamp: self.timestamp.copy(),
            source_roots: self.source_roots.copy(),
            files: self.files.copy(),
        }
    }

    fn equals(&self, other: &Self) -> (r: bool) {
        self.timestamp.equals(&other.timestamp)
            && self.source_roots.equals(&other.source_roots)
            && self.files.equals(&other.files)
    }
}

impl Clone for CoverageDoc {
    fn clone(&self) -> (r: Self)
        ensures
            r.deep_view() == self.deep_view(),
    {
        self.copy()
    }
}

impl CoverageDocView {
    pub open spec fn empty() -> CoverageDocView {
        CoverageDocView {
            timestamp: None,
            source_roots: Seq::empty(),
            files: Seq::empty(),
        }
    }
}

impl Default for CoverageDoc {
    fn default() -> (r: Self)
        ensures
            r.deep_view() == CoverageDocView::empty(),
    {
        CoverageDoc {
            timestamp: None,
            source_roots: empty_list(),
            files: empty_list(),
        }
    }
}

// ---------------------------------------------------------------------------
// Counters
// ---------------------------------------------------------------------------

impl Counter {
    /// Sums wrap around at the machine limit, here and in the whole module.
    pub fn total(&self) -> (r: u64)
        ensures
            r == self.missed.wrapping_add(self.covered),
    {
        self.missed.wrapping_add(self.covered)
    }
}

pub open spec fn add_counter(a: Option<Counter>, b: Option<Counter>) -> Option<Counter> {
    match (a, b) {
        (Some(x), Some(y)) => Some(
            Counter {
                missed: x.missed.wrapping_add(y.missed),
                covered: x.covered.wrapping_add(y.covered),
            },
        ),
        (None, Some(y)) => Some(y),
        _ => a,
    }
}

pub open spec fn add_counters(a: Counters, b: Counters) -> Counters {
    Counters {
        instruction: add_counter(a.instruction, b.instruction),
        complexity: add_counter(a.complexity, b.complexity),
        method: add_counter(a.method, b.method),
        class: add_counter(a.class, b.class),
    }
}

/// Adds a counter to another, where there is one.
pub fn plus(target: Option<Counter>, extra: Option<Counter>) -> (r: Option<Counter>)
    ensures
        r == add_counter(target, extra),
{
    match (target, extra) {
        (Some(x), Some(y)) => Some(
            Counter {
                missed: x.missed.wrapping_add(y.missed),
                covered: x.covered.wrapping_add(y.covered),
            },
        ),
        (None, Some(y)) => Some(y),
        _ => target,
    }
}

impl Counters {
    pub fn merge(&mut self, other: &Counters)
        ensures
            *final(self) == add_counters(*old(self), *other),
    {
        self.instruction = plus(self.instruction, other.instruction);
        self.complexity = plus(self.complexity, other.complexity);
        self.method = plus(self.method, other.method);
        self.class = plus(self.class, other.class);
    }
}

pub open spec fn add_branch(a: Branch, b: Branch) -> Branch {
    Branch {
        covered: a.covered.wrapping_add(b.covered),
        total: a.total.wrapping_add(b.total),
    }
}

pub fn branch_sum(a: Branch, b: Branch) -> (r: Branch)
    ensures
        r == add_branch(a, b),
{
    Branch { covered: a.covered.wrapping_add(b.covered), total: a.total.wrapping_add(b.total) }
}

// ---------------------------------------------------------------------------
// Files
// ---------------------------------------------------------------------------

/// What stands before the last `/`.
pub open spec fn directory_part(path: Seq<char>) -> Seq<char> {
    if last(path, '/') >= 0 {
        path.take(last(path, '/'))
    } else {
        Seq::empty()
    }
}

/// What stands behind the last `/`.
pub open spec fn name_part(path: Seq<char>) -> Seq<char> {
    path.skip(last(path, '/') + 1)
}

/// The directory with dots between its segments.
pub open spec fn package_name(path: Seq<char>) -> Seq<char> {
    replace_char(directory_part(path), '/', '.')
}

/// The file name without its extension; a leading dot starts no extension.
pub open spec fn stem_part(path: Seq<char>) -> Seq<char> {
    let name = name_part(path);
    if last(name, '.') > 0 {
        name.take(last(name, '.'))
    } else {
        name
    }
}

pub open spec fn covered_count(lines: Seq<Line>) -> nat
    decreases lines.len(),
{
    if lines.len() == 0 {
        0
    } else {
        covered_count(lines.drop_last()) + if lines.last().hits > 0 {
            1nat
        } else {
            0nat
        }
    }
}

pub open spec fn branch_total(lines: Seq<Line>) -> Branch
    decreases lines.len(),
{
    if lines.len() == 0 {
        no_branch()
    } else {
        match lines.last().branch {
            Some(b) => add_branch(branch_total(lines.drop_last()), b),
            None => branch_total(lines.drop_last()),
        }
    }
}

pub open spec fn any_branch(lines: Seq<Line>) -> bool {
    exists|i: int| 0 <= i < lines.len() && (#[trigger] lines[i]).branch is Some
}

impl FileCoverageView {
    pub open spec fn of(path: Seq<char>) -> FileCoverageView {
        FileCoverageView { path, ..FileCoverageView::empty() }
    }

    pub open spec fn has_extra(self) -> bool {
        self.counters.instruction is Some || self.counters.complexity is Some
            || self.counters.method is Some || self.counters.class is Some
    }
}

/// The position of the last `c` in the characters, plus one; 0 without one.
fn after_last(cs: &Vec<char>, c: char) -> (r: usize)
    ensures
        r <= cs@.len(),
        r == last(cs@, c) + 1,
{
    let mut i: usize = cs.len();
    assert(cs@.take(i as int) =~= cs@);
    while i > 0 && cs[i - 1] != c
        invariant
            i <= cs@.len(),
            last(cs@, c) == last(cs@.take(i as int), c),
        decreases i,
    {
        assert(cs@.take(i as int).drop_last() =~= cs@.take(i as int - 1));
        i = i - 1;
    }
    i
}

impl FileCoverage {
    pub fn new(path: &str) -> (r: Self)
        ensures
            r.deep_view() == FileCoverageView::of(path@),
    {
        FileCoverage {
            path: owned(path),
            lines: empty_list(),
            functions: empty_list(),
            counters: Counters::default(),
        }
    }

    /// Dotted package name derived from the file's directory.
    pub fn package(&self) -> (r: String)
        ensures
            r@ == package_name(self.path@),
    {
        replaced(self.directory(), '/', '.')
    }

    /// Directory part, `/`-separated.
    pub fn directory(&self) -> (r: &str)
        ensures
            r@ == directory_part(self.path@),
    {
        let cs = chars(self.path.as_str());
        let at = after_last(&cs, '/');
        let end: usize = if at > 0 {
            at - 1
        } else {
            0
        };
        let r = self.path.as_str().substring_char(0, end);
        assert(r@ =~= directory_part(self.path@));
        r
    }

    pub fn file_name(&self) -> (r: &str)
        ensures
            r@ == name_part(self.path@),
    {
        let cs = chars(self.path.as_str());
        let at = after_last(&cs, '/');
        let r = self.path.as_str().substring_char(at, cs.len());
        assert(r@ =~= name_part(self.path@));
        r
    }

    /// File name without its extension.
    pub fn stem(&self) -> (r: &str)
        ensures
            r@ == stem_part(self.path@),
    {
        let name = self.file_name();
        let cs = chars(name);
        let at = after_last(&cs, '.');
        if at > 1 {
            let r = name.substring_char(0, at - 1);
            assert(r@ =~= stem_part(self.path@));
            r
        } else {
            name
        }
    }

    pub fn lines_valid(&self) -> (r: u64)
        ensures
            r == self.deep_view().lines.len(),
    {
        self.lines.len() as u64
    }

    pub fn lines_covered(&self) -> (r: u64)
        ensures
            r == covered_count(self.deep_view().lines),
    {
        let ghost all = self.deep_view().lines;
        let mut count: usize = 0;
        let mut i: usize = 0;
        assert(all.take(0) =~= Seq::empty());
        while i < self.lines.len()
            invariant
                i <= self.lines@.len(),
                all == self.deep_view().lines,
                count <= i,
                count == covered_count(all.take(i as int)),
            decreases self.lines@.len() - i,
        {
            assert(all.take(i as int + 1).drop_last() =~= all.take(i as int));
            if self.lines[i].hits > 0 {
                count = count + 1;
            }
            i = i + 1;
        }
        assert(all.take(i as int) =~= all);
        count as u64
    }

    pub fn branches(&self) -> (r: Branch)
        ensures
            r == branch_total(self.deep_view().lines),
    {
        let ghost all = self.deep_view().lines;
        let mut acc = Branch::default();
        let mut i: usize = 0;
        assert(all.take(0) =~= Seq::empty());
        while i < self.lines.len()
            invariant
                i <= self.lines@.len(),
                all == self.deep_view().lines,
                acc == branch_total(all.take(i as int)),
            decreases self.lines@.len() - i,
        {
            assert(all.take(i as int + 1).drop_last() =~= all.take(i as int));
            if let Some(b) = self.lines[i].branch {
                acc = branch_sum(acc, b);
            }
            i = i + 1;
        }
        assert(all.take(i as int) =~= all);
        acc
    }

    pub fn has_branches(&self) -> (r: bool)
        ensures
            r == any_branch(self.deep_view().lines),
    {
        let ghost all = self.deep_view().lines;
        let mut i: usize = 0;
        while i < self.lines.len()
            invariant
                i <= self.lines@.len(),
                all == self.deep_view().lines,
                forall|j: int| 0 <= j < i ==> (#[trigger] all[j]).branch is None,
            decreases self.lines@.len() - i,
        {
            if self.lines[i].branch.is_some() {
                assert(all[i as int].branch is Some);
                return true;
            }
            i = i + 1;
        }
        false
    }
}

// ---------------------------------------------------------------------------
// Documents
// ---------------------------------------------------------------------------

pub open spec fn total_lines(files: Seq<FileCoverageView>) -> u64
    decreases files.len(),
{
    if files.len() == 0 {
        0
    } else {
        total_lines(files.drop_last()).wrapping_add(files.last().lines.len() as u64)
    }
}

pub open spec fn total_covered(files: Seq<FileCoverageView>) -> u64
    decreases files.len(),
{
    if files.len() == 0 {
        0
    } else {
        total_covered(files.drop_last()).wrapping_add(covered_count(files.last().lines) as u64)
    }
}

pub open spec fn total_branches(files: Seq<FileCoverageView>) -> Branch
    decreases files.len(),
{
    if files.len() == 0 {
        no_branch()
    } else {
        add_branch(total_branches(files.drop_last()), branch_total(files.last().lines))
    }
}

pub fn sum_lines(files: &Vec<FileCoverage>, from: usize, to: usize) -> (r: u64)
    requires
        from <= to <= files@.len(),
    ensures
        r == total_lines(files.deep_view().subrange(from as int, to as int)),
{
    let ghost all = files.deep_view();
    let mut sum: u64 = 0;
    let mut i: usize = from;
    while i < to
        invariant
            from <= i <= to <= files@.len(),
            all == files.deep_view(),
            sum == total_lines(all.subrange(from as int, i as int)),
        decreases to - i,
    {
        assert(all.subrange(from as int, i as int + 1).drop_last() =~= all.subrange(
            from as int,
            i as int,
        ));
        sum = sum.wrapping_add(files[i].lines_valid());
        i = i + 1;
    }
    sum
}

pub fn sum_covered(files: &Vec<FileCoverage>, from: usize, to: usize) -> (r: u64)
    requires
        from <= to <= files@.len(),
    ensures
        r == total_covered(files.deep_view().subrange(from as int, to as int)),
{
    let ghost all = files.deep_view();
    let mut sum: u64 = 0;
    let mut i: usize = from;
    while i < to
        invariant
            from <= i <= to <= files@.len(),
            all == files.deep_view(),
            sum == total_covered(all.subrange(from as int, i as int)),
        decreases to - i,
    {
        assert(all.subrange(from as int, i as int + 1).drop_last() =~= all.subrange(
            from as int,
            i as int,
        ));
        sum = sum.wrapping_add(files[i].lines_covered());
        i = i + 1;
    }
    sum
}

pub fn sum_branches(files: &Vec<FileCoverage>, from: usize, to: usize) -> (r: Branch)
    requires
        from <= to <= files@.len(),
    ensures
        r == total_branches(files.deep_view().subrange(from as int, to as int)),
{
    let ghost all = files.deep_view();
    let mut sum = Branch::default();
    let mut i: usize = from;
    while i < to
        invariant
            from <= i <= to <= files@.len(),
            all == files.deep_view(),
            sum == total_branches(all.subrange(from as int, i as int)),
        decreases to - i,
    {
        assert(all.subrange(from as int, i as int + 1).drop_last() =~= all.subrange(
            from as int,
            i as int,
        ));
        sum = branch_sum(sum, files[i].branches());
        i = i + 1;
    }
    sum
}

// --- merging ---------------------------------------------------------------

/// The number of leading lines below `number`.
pub open spec fn rank(lines: Seq<Line>, number: u32) -> int
    decreases lines.len(),
{
    if lines.len() == 0 || lines[0].number >= number {
        0
    } else {
        1 + rank(lines.skip(1), number)
    }
}

/// Two observations of one line: hits add up; of two branch records the widest
/// total and the best coverage are kept.
pub open spec fn combine_lines(a: Line, b: Line) -> Line {
    Line {
        number: a.number,
        hits: a.hits.wrapping_add(b.hits),
        branch: match (a.branch, b.branch) {
            (Some(x), Some(y)) => Some(
                Branch {
                    covered: if x.covered < y.covered {
                        y.covered
                    } else {
                        x.covered
                    },
                    total: if x.total < y.total {
                        y.total
                    } else {
                        x.total
                    },
                },
            ),
            (None, y) => y,
            (x, None) => x,
        },
    }
}

/// `lines`, in the order of their numbers, with one more line: it replaces or
/// joins the line of that number, or takes its place in the order.
pub open spec fn upsert(lines: Seq<Line>, line: Line, joins: bool) -> Seq<Line> {
    let at = rank(lines, line.number);
    if at < lines.len() && lines[at].number == line.number {
        lines.update(
            at,
            if joins {
                combine_lines(lines[at], line)
            } else {
                line
            },
        )
    } else {
        lines.insert(at, line)
    }
}

pub open spec fn upsert_all(lines: Seq<Line>, more: Seq<Line>, joins: bool) -> Seq<Line>
    decreases more.len(),
{
    if more.len() == 0 {
        lines
    } else {
        upsert(upsert_all(lines, more.drop_last(), joins), more.last(), joins)
    }
}

/// The lines of both, each number once, in the order of the numbers.
pub open spec fn merge_lines(mine: Seq<Line>, theirs: Seq<Line>) -> Seq<Line> {
    upsert_all(upsert_all(Seq::empty(), mine, false), theirs, true)
}

pub proof fn rank_props(lines: Seq<Line>, number: u32)
    ensures
        0 <= rank(lines, number) <= lines.len(),
        rank(lines, number) < lines.len() ==> lines[rank(lines, number)].number >= number,
        forall|i: int| 0 <= i < rank(lines, number) ==> (#[trigger] lines[i]).number < number,
    decreases lines.len(),
{
    if lines.len() > 0 && lines[0].number < number {
        let tail = lines.skip(1);
        rank_props(tail, number);
        assert forall|i: int| 0 <= i < rank(lines, number) implies (#[trigger] lines[i]).number
            < number by {
            if i > 0 {
                assert(lines[i] == tail[i - 1]);
            }
        }
        if rank(tail, number) < tail.len() {
            assert(lines[rank(tail, number) + 1] == tail[rank(tail, number)]);
        }
    }
}

fn joined_line(a: Line, b: Line) -> (r: Line)
    ensures
        r == combine_lines(a, b),
{
    Line {
        number: a.number,
        hits: a.hits.wrapping_add(b.hits),
        branch: match (a.branch, b.branch) {
            (Some(x), Some(y)) => Some(
                Branch {
                    covered: if x.covered < y.covered {
                        y.covered
                    } else {
                        x.covered
                    },
                    total: if x.total < y.total {
                        y.total
                    } else {
                        x.total
                    },
                },
            ),
            (None, y) => y,
            (x, None) => x,
        },
    }
}

fn place_line(lines: &mut Vec<Line>, line: Line, joins: bool)
    ensures
        final(lines).deep_view() == upsert(old(lines).deep_view(), line, joins),
{
    let ghost all = lines.deep_view();
    let mut at: usize = 0;
    assert(all.skip(0) =~= all);
    while at < lines.len() && lines[at].number < line.number
        invariant
            at <= lines@.len(),
            all == lines.deep_view(),
            rank(all, line.number) == at + rank(all.skip(at as int), line.number),
        decreases lines@.len() - at,
    {
        assert(all.skip(at as int).skip(1) =~= all.skip(at as int + 1));
        at = at + 1;
    }
    proof {
        if at < lines@.len() {
            assert(all.skip(at as int)[0] == all[at as int]);
        }
    }
    if at < lines.len() && lines[at].number == line.number {
        let next = if joins {
            joined_line(lines[at], line)
        } else {
            line
        };
        replace_at(lines, at, next);
    } else {
        lines.insert(at, line);
        assert(lines.deep_view() =~= all.insert(at as int, line));
    }
}

fn place_all(lines: &mut Vec<Line>, more: &Vec<Line>, joins: bool)
    ensures
        final(lines).deep_view() == upsert_all(old(lines).deep_view(), more.deep_view(), joins),
{
    let ghost start = lines.deep_view();
    let ghost all = more.deep_view();
    let mut i: usize = 0;
    assert(all.take(0) =~= Seq::empty());
    while i < more.len()
        invariant
            i <= more@.len(),
            all == more.deep_view(),
            lines.deep_view() == upsert_all(start, all.take(i as int), joins),
        decreases more@.len() - i,
    {
        assert(all.take(i as int + 1).drop_last() =~= all.take(i as int));
        place_line(lines, more[i], joins);
        i = i + 1;
    }
    assert(all.take(i as int) =~= all);
}

/// The position of the function of this name and line, or the length.
pub open spec fn function_at(
    functions: Seq<FunctionView>,
    name: Seq<char>,
    line: Option<u32>,
) -> int
    decreases functions.len(),
{
    if functions.len() == 0 || (functions[0].name == name && functions[0].line == line) {
        0
    } else {
        1 + function_at(functions.skip(1), name, line)
    }
}

pub open spec fn add_function(
    functions: Seq<FunctionView>,
    function: FunctionView,
) -> Seq<FunctionView> {
    let at = function_at(functions, function.name, function.line);
    if at < functions.len() {
        functions.update(
            at,
            FunctionView {
                hits: functions[at].hits.wrapping_add(function.hits),
                ..functions[at]
            },
        )
    } else {
        functions.push(function)
    }
}

/// Functions are matched on name and line; hits of a match add up.
pub open spec fn merge_functions(
    mine: Seq<FunctionView>,
    theirs: Seq<FunctionView>,
) -> Seq<FunctionView>
    decreases theirs.len(),
{
    if theirs.len() == 0 {
        mine
    } else {
        add_function(merge_functions(mine, theirs.drop_last()), theirs.last())
    }
}

fn place_function(functions: &mut Vec<Function>, function: &Function)
    ensures
        final(functions).deep_view() == add_function(
            old(functions).deep_view(),
            function.deep_view(),
        ),
{
    let ghost all = functions.deep_view();
    let ghost new = function.deep_view();
    let mut at: usize = 0;
    assert(all.skip(0) =~= all);
    while at < functions.len() && !(functions[at].name.equals(&function.name)
        && functions[at].line.equals(&function.line))
        invariant
            at <= functions@.len(),
            all == functions.deep_view(),
            new == function.deep_view(),
            function_at(all, new.name, new.line) == at + function_at(
                all.skip(at as int),
                new.name,
                new.line,
            ),
        decreases functions@.len() - at,
    {
        assert(all.skip(at as int)[0] == all[at as int]);
        assert(all.skip(at as int).skip(1) =~= all.skip(at as int + 1));
        at = at + 1;
    }
    if at < functions.len() {
        assert(all.skip(at as int)[0] == all[at as int]);
        let mut slot = functions[at].copy();
        slot.hits = slot.hits.wrapping_add(function.hits);
        replace_at(functions, at, slot);
    } else {
        append_one(functions, function.copy());
    }
}

pub open spec fn merge_files(mine: FileCoverageView, theirs: FileCoverageView) -> FileCoverageView {
    FileCoverageView {
        path: mine.path,
        lines: merge_lines(mine.lines, theirs.lines),
        functions: merge_functions(mine.functions, theirs.functions),
        counters: add_counters(mine.counters, theirs.counters),
    }
}

fn merge_file(existing: &FileCoverage, incoming: &FileCoverage) -> (r: FileCoverage)
    ensures
        r.deep_view() == merge_files(existing.deep_view(), incoming.deep_view()),
{
    let mut lines: Vec<Line> = empty_list();
    place_all(&mut lines, &existing.lines, false);
    place_all(&mut lines, &incoming.lines, true);
    let mut functions = existing.functions.copy();
    let ghost start = functions.deep_view();
    let ghost all = incoming.functions.deep_view();
    let mut i: usize = 0;
    assert(all.take(0) =~= Seq::empty());
    while i < incoming.functions.len()
        invariant
            i <= incoming.functions@.len(),
            all == incoming.functions.deep_view(),
            functions.deep_view() == merge_functions(start, all.take(i as int)),
        decreases incoming.functions@.len() - i,
    {
        assert(all.take(i as int + 1).drop_last() =~= all.take(i as int));
        place_function(&mut functions, &incoming.functions[i]);
        i = i + 1;
    }
    assert(all.take(i as int) =~= all);
    let mut counters = existing.counters;
    counters.merge(&incoming.counters);
    FileCoverage { path: existing.path.clone(), lines, functions, counters }
}

/// The position of the file at `path`, or the length.
pub open spec fn file_at(files: Seq<FileCoverageView>, path: Seq<char>) -> int
    decreases files.len(),
{
    if files.len() == 0 || files[0].path == path {
        0
    } else {
        1 + file_at(files.skip(1), path)
    }
}

/// `files` with one more: folded into the file of the same path, or at the end.
pub open spec fn fold_file(
    files: Seq<FileCoverageView>,
    file: FileCoverageView,
) -> Seq<FileCoverageView> {
    let at = file_at(files, file.path);
    if at < files.len() {
        files.update(at, merge_files(files[at], file))
    } else {
        files.push(file)
    }
}

pub open spec fn fold_files(
    files: Seq<FileCoverageView>,
    more: Seq<FileCoverageView>,
) -> Seq<FileCoverageView>
    decreases more.len(),
{
    if more.len() == 0 {
        files
    } else {
        fold_file(fold_files(files, more.drop_last()), more.last())
    }
}

pub fn find_file(files: &Vec<FileCoverage>, path: &str) -> (r: usize)
    ensures
        r <= files@.len(),
        r == file_at(files.deep_view(), path@),
{
    let ghost all = files.deep_view();
    let mut at: usize = 0;
    assert(all.skip(0) =~= all);
    while at < files.len() && !same(files[at].path.as_str(), path)
        invariant
            at <= files@.len(),
            all == files.deep_view(),
            file_at(all, path@) == at + file_at(all.skip(at as int), path@),
        decreases files@.len() - at,
    {
        assert(all.skip(at as int)[0] == all[at as int]);
        assert(all.skip(at as int).skip(1) =~= all.skip(at as int + 1));
        at = at + 1;
    }
    proof {
        if at < files@.len() {
            assert(all.skip(at as int)[0] == all[at as int]);
        }
    }
    at
}

fn place_file(files: &mut Vec<FileCoverage>, file: &FileCoverage)
    ensures
        final(files).deep_view() == fold_file(old(files).deep_view(), file.deep_view()),
{
    let at = find_file(files, file.path.as_str());
    if at < files.len() {
        let merged = merge_file(&files[at], file);
        replace_at(files, at, merged);
    } else {
        append_one(files, file.copy());
    }
}

/// Folds files of the same path together.
pub fn place_files(files: &mut Vec<FileCoverage>, more: &Vec<FileCoverage>)
    ensures
        final(files).deep_view() == fold_files(old(files).deep_view(), more.deep_view()),
{
    let ghost start = files.deep_view();
    let ghost all = more.deep_view();
    let mut i: usize = 0;
    assert(all.take(0) =~= Seq::empty());
    while i < more.len()
        invariant
            i <= more@.len(),
            all == more.deep_view(),
            files.deep_view() == fold_files(start, all.take(i as int)),
        decreases more@.len() - i,
    {
        assert(all.take(i as int + 1).drop_last() =~= all.take(i as int));
        place_file(files, &more[i]);
        i = i + 1;
    }
    assert(all.take(i as int) =~= all);
}

pub open spec fn merge_docs(mine: CoverageDocView, theirs: CoverageDocView) -> CoverageDocView {
    CoverageDocView {
        timestamp: match mine.timestamp {
            Some(t) => Some(t),
            None => theirs.timestamp,
        },
        source_roots: with_all_new(mine.source_roots, theirs.source_roots),
        files: fold_files(mine.files, theirs.files),
    }
}

/// Every path rewritten.
pub open spec fn map_files(
    files: Seq<FileCoverageView>,
    mapper: MapperView,
) -> Seq<FileCoverageView> {
    files.map_values(
        |f: FileCoverageView| FileCoverageView { path: mapper.map(f.path), ..f },
    )
}

pub open spec fn normalize_doc(doc: CoverageDocView, mapper: MapperView) -> CoverageDocView {
    if mapper.is_noop() {
        doc
    } else {
        CoverageDocView { files: fold_files(Seq::empty(), map_files(doc.files, mapper)), ..doc }
    }
}

// --- order -----------------------------------------------------------------

impl Ranked for Line {
    open spec fn precedes(a: Line, b: Line) -> bool {
        a.number < b.number
    }

    fn goes_before(&self, other: &Self) -> (r: bool) {
        self.number < other.number
    }

    proof fn order_laws(a: Line, b: Line, c: Line) {
    }
}

impl Ranked for Function {
    open spec fn precedes(a: FunctionView, b: FunctionView) -> bool {
        opt_number_lt(a.line, b.line) || (a.line == b.line && lex_lt(a.name, b.name))
    }

    fn goes_before(&self, other: &Self) -> (r: bool) {
        opt_number_less(self.line, other.line) || (self.line.equals(&other.line) && less(
            self.name.as_str(),
            other.name.as_str(),
        ))
    }

    proof fn order_laws(a: FunctionView, b: FunctionView, c: FunctionView) {
        lex_laws(a.name, b.name, c.name);
    }
}

impl Ranked for FileCoverage {
    open spec fn precedes(a: FileCoverageView, b: FileCoverageView) -> bool {
        lex_lt(a.path, b.path)
    }

    fn goes_before(&self, other: &Self) -> (r: bool) {
        less(self.path.as_str(), other.path.as_str())
    }

    proof fn order_laws(a: FileCoverageView, b: FileCoverageView, c: FileCoverageView) {
        lex_laws(a.path, b.path, c.path);
    }
}

pub open spec fn sort_file(file: FileCoverageView) -> FileCoverageView {
    FileCoverageView {
        lines: sorted::<Line>(file.lines),
        functions: sorted::<Function>(file.functions),
        ..file
    }
}

pub open spec fn sort_doc(doc: CoverageDocView) -> CoverageDocView {
    CoverageDocView {
        files: sorted::<FileCoverage>(doc.files).map_values(|f: FileCoverageView| sort_file(f)),
        ..doc
    }
}

impl CoverageDoc {
    pub fn lines_valid(&self) -> (r: u64)
        ensures
            r == total_lines(self.deep_view().files),
    {
        let ghost all = self.deep_view().files;
        assert(all.subrange(0, all.len() as int) =~= all);
        sum_lines(&self.files, 0, self.files.len())
    }

    pub fn lines_covered(&self) -> (r: u64)
        ensures
            r == total_covered(self.deep_view().files),
    {
        let ghost all = self.deep_view().files;
        assert(all.subrange(0, all.len() as int) =~= all);
        sum_covered(&self.files, 0, self.files.len())
    }

    pub fn branches(&self) -> (r: Branch)
        ensures
            r == total_branches(self.deep_view().files),
    {
        let ghost all = self.deep_view().files;
        assert(all.subrange(0, all.len() as int) =~= all);
        sum_branches(&self.files, 0, self.files.len())
    }

    pub fn has_branches(&self) -> (r: bool)
        ensures
            r == (exists|i: int|
                0 <= i < self.deep_view().files.len() && any_branch(
                    (#[trigger] self.deep_view().files[i]).lines,
                )),
    {
        let ghost all = self.deep_view().files;
        let mut i: usize = 0;
        while i < self.files.len()
            invariant
                i <= self.files@.len(),
                all == self.deep_view().files,
                forall|j: int| 0 <= j < i ==> !any_branch((#[trigger] all[j]).lines),
            decreases self.files@.len() - i,
        {
            if self.files[i].has_branches() {
                assert(any_branch(all[i as int].lines));
                return true;
            }
            i = i + 1;
        }
        false
    }

    /// Whether any file carries JaCoCo-only counters.
    pub fn has_extra_counters(&self) -> (r: bool)
        ensures
            r == self.deep_view().has_extra_counters(),
    {
        let ghost all = self.deep_view().files;
        let mut i: usize = 0;
        while i < self.files.len()
            invariant
                i <= self.files@.len(),
                all == self.deep_view().files,
                forall|j: int| 0 <= j < i ==> !(#[trigger] all[j]).has_extra(),
            decreases self.files@.len() - i,
        {
            let c = self.files[i].counters;
            if c.instruction.is_some() || c.complexity.is_some() || c.method.is_some()
                || c.class.is_some() {
                assert(all[i as int].has_extra());
                return true;
            }
            i = i + 1;
        }
        false
    }

    /// Folds another document in, summing hit counts for files and lines seen
    /// twice.
    pub fn merge(&mut self, other: CoverageDoc)
        ensures
            final(self).deep_view() == merge_docs(old(self).deep_view(), other.deep_view()),
    {
        if self.timestamp.is_none() {
            self.timestamp = other.timestamp;
        }
        add_all_new(&mut self.source_roots, other.source_roots);
        place_files(&mut self.files, &other.files);
    }

    /// Rewrites every path. Files whose paths become the same are folded
    /// together.
    pub fn normalize_paths(&mut self, mapper: &PathMapper)
        ensures
            final(self).deep_view() == normalize_doc(old(self).deep_view(), mapper@),
    {
        if mapper.is_noop() {
            return;
        }
        let ghost all = self.files.deep_view();
        let mut mapped: Vec<FileCoverage> = empty_list();
        let mut i: usize = 0;
        while i < self.files.len()
            invariant
                i <= self.files@.len(),
                all == self.files.deep_view(),
                mapped.deep_view() == map_files(all, mapper@).take(i as int),
            decreases self.files@.len() - i,
        {
            let mut file = self.files[i].copy();
            file.path = mapper.map(file.path.as_str());
            append_one(&mut mapped, file);
            i = i + 1;
            assert(mapped.deep_view() =~= map_files(all, mapper@).take(i as int));
        }
        assert(mapped.deep_view() =~= map_files(all, mapper@));
        let mut folded: Vec<FileCoverage> = empty_list();
        place_files(&mut folded, &mapped);
        self.files = folded;
    }

    /// Deterministic ordering, so a conversion is byte-stable across runs.
    pub fn sort(&mut self)
        ensures
            final(self).deep_view() == sort_doc(old(self).deep_view()),
    {
        let mut files = self.files.copy();
        sort(&mut files);
        let ghost all = files.deep_view();
        let ghost goal = all.map_values(|f: FileCoverageView| sort_file(f));
        let mut out: Vec<FileCoverage> = empty_list();
        let mut i: usize = 0;
        while i < files.len()
            invariant
                i <= files@.len(),
                all == files.deep_view(),
                goal == all.map_values(|f: FileCoverageView| sort_file(f)),
                out.deep_view() == goal.take(i as int),
            decreases files@.len() - i,
        {
            let mut file = files[i].copy();
            sort(&mut file.lines);
            sort(&mut file.functions);
            append_one(&mut out, file);
            i = i + 1;
            assert(out.deep_view() =~= goal.take(i as int));
        }
        assert(out.deep_view() =~= goal);
        self.files = out;
    }
}

impl CoverageDocView {
    pub open spec fn has_extra_counters(self) -> bool {
        exists|i: int| 0 <= i < self.files.len() && (#[trigger] self.files[i]).has_extra()
    }
}

// ---------------------------------------------------------------------------
// Laws
// ---------------------------------------------------------------------------

pub open spec fn has_line(lines: Seq<Line>, number: u32) -> bool {
    exists|i: int| 0 <= i < lines.len() && (#[trigger] lines[i]).number == number
}

/// Each number once, in ascending order.
pub open spec fn ascending(lines: Seq<Line>) -> bool {
    forall|i: int, j: int|
        0 <= i < j < lines.len() ==> (#[trigger] lines[i]).number < (#[trigger] lines[j]).number
}

/// Each number once.
pub open spec fn distinct_lines(lines: Seq<Line>) -> bool {
    forall|i: int, j: int|
        0 <= i < j < lines.len() ==> (#[trigger] lines[i]).number != (#[trigger] lines[j]).number
}

/// The hits recorded for a line number, all records together.
pub open spec fn hits_of(lines: Seq<Line>, number: u32) -> nat
    decreases lines.len(),
{
    if lines.len() == 0 {
        0
    } else {
        hits_of(lines.drop_last(), number) + if lines.last().number == number {
            lines.last().hits as nat
        } else {
            0
        }
    }
}

proof fn hits_of_concat(a: Seq<Line>, b: Seq<Line>, number: u32)
    ensures
        hits_of(a + b, number) == hits_of(a, number) + hits_of(b, number),
    decreases b.len(),
{
    if b.len() == 0 {
        assert(a + b =~= a);
    } else {
        hits_of_concat(a, b.drop_last(), number);
        assert((a + b).drop_last() =~= a + b.drop_last());
    }
}

proof fn hits_of_one(line: Line, number: u32)
    ensures
        hits_of(seq![line], number) == if line.number == number {
            line.hits as nat
        } else {
            0
        },
{
    assert(seq![line].drop_last() =~= Seq::empty());
    assert(hits_of(Seq::empty(), number) == 0);
}

proof fn hits_of_absent(lines: Seq<Line>, number: u32)
    requires
        !has_line(lines, number),
    ensures
        hits_of(lines, number) == 0,
    decreases lines.len(),
{
    if lines.len() > 0 {
        assert forall|i: int| 0 <= i < lines.drop_last().len() implies (
        #[trigger] lines.drop_last()[i]).number != number by {
            assert(lines[i].number != number);
        }
        hits_of_absent(lines.drop_last(), number);
        assert(lines[lines.len() - 1].number != number);
    }
}

proof fn hits_of_ascending(lines: Seq<Line>, at: int)
    requires
        ascending(lines),
        0 <= at < lines.len(),
    ensures
        hits_of(lines, lines[at].number) == lines[at].hits,
{
    let number = lines[at].number;
    let before = lines.take(at);
    let after = lines.skip(at + 1);
    assert(lines =~= before + seq![lines[at]] + after);
    hits_of_concat(before + seq![lines[at]], after, number);
    hits_of_concat(before, seq![lines[at]], number);
    hits_of_one(lines[at], number);
    assert forall|i: int| 0 <= i < before.len() implies (#[trigger] before[i]).number
        != number by {
        assert(lines[i].number < lines[at].number);
    }
    assert forall|i: int| 0 <= i < after.len() implies (#[trigger] after[i]).number != number by {
        assert(lines[at].number < lines[at + 1 + i].number);
    }
    hits_of_absent(before, number);
    hits_of_absent(after, number);
}

#[verifier::spinoff_prover]
#[verifier::rlimit(60)]
proof fn upsert_props(lines: Seq<Line>, line: Line, joins: bool)
    requires
        ascending(lines),
    ensures
        ascending(upsert(lines, line, joins)),
        forall|n: u32| #[trigger]
            has_line(upsert(lines, line, joins), n) <==> has_line(lines, n) || n == line.number,
        forall|n: u32|
            n != line.number ==> #[trigger] hits_of(upsert(lines, line, joins), n) == hits_of(
                lines,
                n,
            ),
        joins && hits_of(lines, line.number) + line.hits <= u64::MAX ==> hits_of(
            upsert(lines, line, joins),
            line.number,
        ) == hits_of(lines, line.number) + line.hits,
        !joins && !has_line(lines, line.number) ==> hits_of(
            upsert(lines, line, joins),
            line.number,
        ) == line.hits,
{
    let at = rank(lines, line.number);
    rank_props(lines, line.number);
    let out = upsert(lines, line, joins);
    if at < lines.len() && lines[at].number == line.number {
        let new = out[at];
        assert(has_line(lines, line.number));
        let before = lines.take(at);
        let after = lines.skip(at + 1);
        assert(lines =~= before + seq![lines[at]] + after);
        assert(out =~= before + seq![new] + after);
        assert forall|n: u32| #[trigger]
            has_line(out, n) <==> has_line(lines, n) || n == line.number by {
            if has_line(lines, n) {
                let i = choose|i: int| 0 <= i < lines.len() && (#[trigger] lines[i]).number == n;
                assert(out[i].number == n);
            }
            if has_line(out, n) {
                let i = choose|i: int| 0 <= i < out.len() && (#[trigger] out[i]).number == n;
                assert(lines[i].number == n);
            }
        }
        assert forall|n: u32| n != line.number implies #[trigger] hits_of(out, n) == hits_of(
            lines,
            n,
        ) by {
            hits_of_concat(before + seq![lines[at]], after, n);
            hits_of_concat(before, seq![lines[at]], n);
            hits_of_concat(before + seq![new], after, n);
            hits_of_concat(before, seq![new], n);
            hits_of_one(lines[at], n);
            hits_of_one(new, n);
        }
        assert forall|i: int, j: int| 0 <= i < j < out.len() implies (#[trigger] out[i]).number < (
        #[trigger] out[j]).number by {
            assert(lines[i].number < lines[j].number);
        }
        hits_of_ascending(lines, at);
        hits_of_ascending(out, at);
    } else {
        let before = lines.take(at);
        let after = lines.skip(at);
        assert(lines =~= before + after);
        assert(out =~= before + seq![line] + after);
        assert(!has_line(lines, line.number)) by {
            assert forall|i: int| 0 <= i < lines.len() implies (#[trigger] lines[i]).number
                != line.number by {
                if i > at {
                    assert(lines[at].number < lines[i].number);
                }
            }
        }
        assert(out[at] == line);
        assert forall|n: u32| #[trigger]
            has_line(out, n) <==> has_line(lines, n) || n == line.number by {
            if has_line(lines, n) {
                let i = choose|i: int| 0 <= i < lines.len() && (#[trigger] lines[i]).number == n;
                if i < at {
                    assert(out[i].number == n);
                } else {
                    assert(out[i + 1].number == n);
                }
            }
            if has_line(out, n) && n != line.number {
                let i = choose|i: int| 0 <= i < out.len() && (#[trigger] out[i]).number == n;
                if i < at {
                    assert(lines[i].number == n);
                } else {
                    assert(lines[i - 1].number == n);
                }
            }
        }
        assert forall|n: u32|
            #![trigger hits_of(out, n)]
            hits_of(out, n) == hits_of(lines, n) + if line.number == n {
                line.hits as nat
            } else {
                0
            } by {
            hits_of_concat(before + seq![line], after, n);
            hits_of_concat(before, seq![line], n);
            hits_of_concat(before, after, n);
            hits_of_one(line, n);
        }
        hits_of_absent(lines, line.number);
        assert forall|i: int, j: int| 0 <= i < j < out.len() implies (#[trigger] out[i]).number < (
        #[trigger] out[j]).number by {
            if j < at {
                assert(lines[i].number < lines[j].number);
            } else if j == at {
                assert(lines[i].number < line.number);
            } else if i < at {
                assert(lines[i].number < lines[j - 1].number);
            } else if i == at {
                assert(line.number < lines[j - 1].number) by {
                    if j - 1 > at {
                        assert(lines[at].number < lines[j - 1].number);
                    }
                }
            } else {
                assert(lines[i - 1].number < lines[j - 1].number);
            }
        }
    }
}

proof fn placing_distinct_lines(lines: Seq<Line>)
    requires
        distinct_lines(lines),
    ensures
        ascending(upsert_all(Seq::empty(), lines, false)),
        forall|n: u32| #[trigger]
            has_line(upsert_all(Seq::empty(), lines, false), n) <==> has_line(lines, n),
        forall|n: u32| #[trigger]
            hits_of(upsert_all(Seq::empty(), lines, false), n) == hits_of(lines, n),
    decreases lines.len(),
{
    if lines.len() > 0 {
        let head = lines.drop_last();
        let line = lines.last();
        assert(distinct_lines(head)) by {
            assert forall|i: int, j: int| 0 <= i < j < head.len() implies (
            #[trigger] head[i]).number != (#[trigger] head[j]).number by {
                assert(lines[i].number != lines[j].number);
            }
        }
        placing_distinct_lines(head);
        let placed = upsert_all(Seq::empty(), head, false);
        upsert_props(placed, line, false);
        assert(!has_line(head, line.number)) by {
            assert forall|i: int| 0 <= i < head.len() implies (#[trigger] head[i]).number
                != line.number by {
                assert(lines[i].number != lines[lines.len() - 1].number);
            }
        }
        hits_of_absent(head, line.number);
        let out = upsert_all(Seq::empty(), lines, false);
        assert forall|n: u32| #[trigger] has_line(out, n) <==> has_line(lines, n) by {
            last_line_counts(lines, n);
        }
        assert forall|n: u32| #[trigger] hits_of(out, n) == hits_of(lines, n) by {}
    }
}

proof fn last_line_counts(lines: Seq<Line>, number: u32)
    requires
        lines.len() > 0,
    ensures
        has_line(lines, number) <==> has_line(lines.drop_last(), number) || lines.last().number
            == number,
{
    let head = lines.drop_last();
    if has_line(lines, number) {
        let i = choose|i: int| 0 <= i < lines.len() && (#[trigger] lines[i]).number == number;
        if i < head.len() {
            assert(head[i].number == number);
        }
    }
    if has_line(head, number) {
        let i = choose|i: int| 0 <= i < head.len() && (#[trigger] head[i]).number == number;
        assert(lines[i].number == number);
    }
    if lines.last().number == number {
        assert(lines[lines.len() - 1].number == number);
    }
}

proof fn joining_lines(base: Seq<Line>, theirs: Seq<Line>, number: u32)
    requires
        ascending(base),
        hits_of(base, number) + hits_of(theirs, number) <= u64::MAX,
    ensures
        ascending(upsert_all(base, theirs, true)),
        has_line(upsert_all(base, theirs, true), number) <==> has_line(base, number) || has_line(
            theirs,
            number,
        ),
        hits_of(upsert_all(base, theirs, true), number) == hits_of(base, number) + hits_of(
            theirs,
            number,
        ),
    decreases theirs.len(),
{
    if theirs.len() > 0 {
        joining_lines(base, theirs.drop_last(), number);
        upsert_props(upsert_all(base, theirs.drop_last(), true), theirs.last(), true);
        last_line_counts(theirs, number);
    }
}

/// Merging the lines of a file: a line is there when either side has it, each
/// line once, and its hits are the hits of both sides together. So a line that
/// either side covers is covered.
pub proof fn merged_lines_add_up(mine: Seq<Line>, theirs: Seq<Line>, number: u32)
    requires
        distinct_lines(mine),
        hits_of(mine, number) + hits_of(theirs, number) <= u64::MAX,
    ensures
        ascending(merge_lines(mine, theirs)),
        has_line(merge_lines(mine, theirs), number) <==> has_line(mine, number) || has_line(
            theirs,
            number,
        ),
        hits_of(merge_lines(mine, theirs), number) == hits_of(mine, number) + hits_of(
            theirs,
            number,
        ),
        forall|i: int|
            0 <= i < merge_lines(mine, theirs).len() && merge_lines(mine, theirs)[i].number
                == number ==> (#[trigger] merge_lines(mine, theirs)[i]).hits == hits_of(
                mine,
                number,
            ) + hits_of(theirs, number),
{
    placing_distinct_lines(mine);
    joining_lines(upsert_all(Seq::empty(), mine, false), theirs, number);
    let all = merge_lines(mine, theirs);
    assert forall|i: int| 0 <= i < all.len() && all[i].number == number implies (
    #[trigger] all[i]).hits == hits_of(mine, number) + hits_of(theirs, number) by {
        hits_of_ascending(all, i);
    }
}

pub open spec fn has_file(files: Seq<FileCoverageView>, path: Seq<char>) -> bool {
    exists|i: int| 0 <= i < files.len() && (#[trigger] files[i]).path == path
}

/// Each path once.
pub open spec fn distinct_files(files: Seq<FileCoverageView>) -> bool {
    forall|i: int, j: int|
        0 <= i < j < files.len() ==> (#[trigger] files[i]).path != (#[trigger] files[j]).path
}

pub proof fn file_at_props(files: Seq<FileCoverageView>, path: Seq<char>)
    ensures
        0 <= file_at(files, path) <= files.len(),
        file_at(files, path) < files.len() ==> files[file_at(files, path)].path == path,
        forall|i: int| 0 <= i < file_at(files, path) ==> (#[trigger] files[i]).path != path,
    decreases files.len(),
{
    if files.len() > 0 && files[0].path != path {
        let tail = files.skip(1);
        file_at_props(tail, path);
        assert forall|i: int| 0 <= i < file_at(files, path) implies (#[trigger] files[i]).path
            != path by {
            if i > 0 {
                assert(files[i] == tail[i - 1]);
            }
        }
        if file_at(tail, path) < tail.len() {
            assert(files[file_at(tail, path) + 1] == tail[file_at(tail, path)]);
        }
    }
}

/// Folding files: a path is there when either side has it, each path once.
pub proof fn folded_files_are_the_union(files: Seq<FileCoverageView>, more: Seq<FileCoverageView>)
    requires
        distinct_files(files),
    ensures
        distinct_files(fold_files(files, more)),
        forall|p: Seq<char>| #[trigger]
            has_file(fold_files(files, more), p) <==> has_file(files, p) || has_file(more, p),
    decreases more.len(),
{
    if more.len() > 0 {
        folded_files_are_the_union(files, more.drop_last());
        let before = fold_files(files, more.drop_last());
        let file = more.last();
        let out = fold_file(before, file);
        let at = file_at(before, file.path);
        file_at_props(before, file.path);
        assert forall|i: int, j: int| 0 <= i < j < out.len() implies (#[trigger] out[i]).path != (
        #[trigger] out[j]).path by {
            if at < before.len() {
                assert(before[i].path != before[j].path);
            } else if j < before.len() {
                assert(before[i].path != before[j].path);
            } else {
                assert(before[i].path != file.path);
            }
        }
        assert forall|p: Seq<char>| #[trigger]
            has_file(out, p) <==> has_file(files, p) || has_file(more, p) by {
            if has_file(out, p) {
                let i = choose|i: int| 0 <= i < out.len() && (#[trigger] out[i]).path == p;
                if i < before.len() {
                    assert(before[i].path == p);
                    assert(has_file(before, p));
                    if has_file(more.drop_last(), p) {
                        let k = choose|k: int|
                            0 <= k < more.drop_last().len() && (#[trigger] more.drop_last()[k]).path
                                == p;
                        assert(more[k].path == p);
                    }
                } else {
                    assert(more[more.len() - 1].path == p);
                }
            }
            if has_file(before, p) {
                let i = choose|i: int| 0 <= i < before.len() && (#[trigger] before[i]).path == p;
                assert(out[i].path == p);
            }
            if has_file(more, p) {
                let k = choose|k: int| 0 <= k < more.len() && (#[trigger] more[k]).path == p;
                if k < more.len() - 1 {
                    assert(more.drop_last()[k].path == p);
                    assert(has_file(more.drop_last(), p));
                } else if at < before.len() {
                    assert(out[at].path == p);
                } else {
                    assert(out[before.len() as int].path == p);
                }
            }
        }
    }
}

/// Whether the line of this number is covered.
pub open spec fn line_covered(lines: Seq<Line>, number: u32) -> bool {
    exists|i: int|
        0 <= i < lines.len() && (#[trigger] lines[i]).number == number && lines[i].hits > 0
}

/// Whether the line of this number in the file at this path is covered.
pub open spec fn covers(files: Seq<FileCoverageView>, path: Seq<char>, number: u32) -> bool {
    exists|i: int|
        0 <= i < files.len() && (#[trigger] files[i]).path == path && line_covered(
            files[i].lines,
            number,
        )
}

/// The covered lines, each by its path and number.
pub open spec fn covered_pairs(files: Seq<FileCoverageView>) -> Set<(Seq<char>, u32)> {
    Set::new(|pair: (Seq<char>, u32)| covers(files, pair.0, pair.1))
}

/// Each path once, and in each file each line once.
pub open spec fn each_line_once(files: Seq<FileCoverageView>) -> bool {
    distinct_files(files) && forall|i: int|
        0 <= i < files.len() ==> distinct_lines((#[trigger] files[i]).lines)
}

/// No sum of the hits that two reports have for a line leaves the machine word.
pub open spec fn hits_fit(mine: Seq<FileCoverageView>, theirs: Seq<FileCoverageView>) -> bool {
    forall|i: int, j: int, number: u32|
        #![trigger hits_of(mine[i].lines, number), hits_of(theirs[j].lines, number)]
        0 <= i < mine.len() && 0 <= j < theirs.len() && mine[i].path == theirs[j].path ==> hits_of(
            mine[i].lines,
            number,
        ) + hits_of(theirs[j].lines, number) <= u64::MAX
}

proof fn covered_lines_have_hits(lines: Seq<Line>, number: u32)
    ensures
        line_covered(lines, number) <==> hits_of(lines, number) > 0,
    decreases lines.len(),
{
    if lines.len() > 0 {
        let head = lines.drop_last();
        covered_lines_have_hits(head, number);
        if line_covered(head, number) {
            let i = choose|i: int|
                0 <= i < head.len() && (#[trigger] head[i]).number == number && head[i].hits > 0;
            assert(lines[i] == head[i]);
        }
        if line_covered(lines, number) {
            let i = choose|i: int|
                0 <= i < lines.len() && (#[trigger] lines[i]).number == number && lines[i].hits
                    > 0;
            if i < head.len() {
                assert(head[i] == lines[i]);
            }
        }
        assert(lines[lines.len() - 1] == lines.last());
    }
}

proof fn file_is_at(files: Seq<FileCoverageView>, path: Seq<char>, i: int)
    requires
        0 <= i < files.len(),
        files[i].path == path,
        forall|j: int| 0 <= j < i ==> (#[trigger] files[j]).path != path,
    ensures
        file_at(files, path) == i,
{
    file_at_props(files, path);
    if file_at(files, path) > i {
        assert(files[i].path != path);
    }
}

/// Folding files goes file by file: what both sides have is merged, and what one
/// side has is there as it is.
pub proof fn files_are_merged_by_path(
    files: Seq<FileCoverageView>,
    more: Seq<FileCoverageView>,
    path: Seq<char>,
)
    requires
        distinct_files(files),
        distinct_files(more),
    ensures
        ({
            let out = fold_files(files, more);
            let p = file_at(files, path);
            let q = file_at(more, path);
            let r = file_at(out, path);
            &&& r < out.len() <==> p < files.len() || q < more.len()
            &&& p < files.len() && q < more.len() ==> out[r] == merge_files(files[p], more[q])
            &&& p < files.len() && q >= more.len() ==> out[r] == files[p]
            &&& p >= files.len() && q < more.len() ==> out[r] == more[q]
        }),
    decreases more.len(),
{
    if more.len() > 0 {
        let head = more.drop_last();
        let file = more.last();
        let n = more.len() - 1;
        assert(more[n] == file);
        assert(distinct_files(head)) by {
            assert forall|i: int, j: int| 0 <= i < j < head.len() implies (
            #[trigger] head[i]).path != (#[trigger] head[j]).path by {
                assert(more[i].path != more[j].path);
            }
        }
        files_are_merged_by_path(files, head, path);
        let before = fold_files(files, head);
        let out = fold_files(files, more);
        let at = file_at(before, file.path);
        let b = file_at(before, path);
        let q = file_at(head, path);
        file_at_props(before, file.path);
        file_at_props(before, path);
        file_at_props(head, path);
        file_at_props(more, path);
        file_at_props(files, path);
        if path == file.path {
            assert forall|j: int| 0 <= j < n implies (#[trigger] more[j]).path != path by {
                assert(more[j].path != more[n].path);
            }
            file_is_at(more, path, n);
            if q < head.len() {
                assert(more[q].path == head[q].path);
            }
            assert forall|j: int| 0 <= j < at implies (#[trigger] out[j]).path != path by {
                assert(out[j] == before[j]);
            }
            file_is_at(out, path, at);
        } else {
            if q < head.len() {
                assert(more[q] == head[q]);
                assert forall|j: int| 0 <= j < q implies (#[trigger] more[j]).path != path by {
                    assert(more[j] == head[j]);
                }
                file_is_at(more, path, q);
            } else {
                let m = file_at(more, path);
                if m < more.len() {
                    assert(m < head.len());
                    assert(head[m] == more[m]);
                }
            }
            if b < before.len() {
                assert(b != at);
                assert(out[b] == before[b]);
                assert forall|j: int| 0 <= j < b implies (#[trigger] out[j]).path != path by {
                    if j != at {
                        assert(out[j] == before[j]);
                    }
                }
                file_is_at(out, path, b);
            } else {
                file_at_props(out, path);
                let r = file_at(out, path);
                if r < out.len() {
                    if r < before.len() {
                        assert(before[r].path == out[r].path);
                        assert(before[r].path != path);
                    }
                }
            }
        }
    }
}

proof fn covered_at_its_place(files: Seq<FileCoverageView>, path: Seq<char>, number: u32)
    requires
        distinct_files(files),
    ensures
        covers(files, path, number) <==> file_at(files, path) < files.len() && line_covered(
            files[file_at(files, path)].lines,
            number,
        ),
{
    let at = file_at(files, path);
    file_at_props(files, path);
    if covers(files, path, number) {
        let i = choose|i: int|
            0 <= i < files.len() && (#[trigger] files[i]).path == path && line_covered(
                files[i].lines,
                number,
            );
        if at < i {
            assert(files[at].path != files[i].path);
        } else if i < at {
            assert(files[i].path != path);
        }
    }
}

/// The covered lines of one file.
spec fn file_pairs(path: Seq<char>, lines: Seq<Line>) -> Set<(Seq<char>, u32)> {
    Set::new(|pair: (Seq<char>, u32)| pair.0 == path && line_covered(lines, pair.1))
}

proof fn lines_are_counted_once(path: Seq<char>, lines: Seq<Line>)
    requires
        distinct_lines(lines),
    ensures
        file_pairs(path, lines).finite(),
        file_pairs(path, lines).len() == covered_count(lines),
    decreases lines.len(),
{
    if lines.len() == 0 {
        assert(file_pairs(path, lines) =~= Set::empty());
    } else {
        let head = lines.drop_last();
        let line = lines.last();
        let n = lines.len() - 1;
        assert(distinct_lines(head)) by {
            assert forall|i: int, j: int| 0 <= i < j < head.len() implies (
            #[trigger] head[i]).number != (#[trigger] head[j]).number by {
                assert(lines[i].number != lines[j].number);
            }
        }
        lines_are_counted_once(path, head);
        let before = file_pairs(path, head);
        let all = file_pairs(path, lines);
        assert forall|number: u32|
            line_covered(lines, number) <==> #[trigger] line_covered(head, number) || (number
                == line.number && line.hits > 0) by {
            covered_lines_have_hits(lines, number);
            covered_lines_have_hits(head, number);
        }
        assert(!line_covered(head, line.number)) by {
            assert forall|i: int| 0 <= i < head.len() implies (#[trigger] head[i]).number
                != line.number by {
                assert(lines[i].number != lines[n].number);
            }
        }
        if line.hits > 0 {
            assert(all =~= before.insert((path, line.number)));
        } else {
            assert(all =~= before);
        }
    }
}

proof fn one_more_file(files: Seq<FileCoverageView>)
    requires
        files.len() > 0,
    ensures
        covered_pairs(files) == covered_pairs(files.drop_last()) + file_pairs(
            files.last().path,
            files.last().lines,
        ),
{
    let head = files.drop_last();
    let file = files.last();
    let n = files.len() - 1;
    assert forall|pair: (Seq<char>, u32)| covers(files, pair.0, pair.1) <==> #[trigger] covers(
        head,
        pair.0,
        pair.1,
    ) || (pair.0 == file.path && line_covered(file.lines, pair.1)) by {
        if covers(files, pair.0, pair.1) {
            let i = choose|i: int|
                0 <= i < files.len() && (#[trigger] files[i]).path == pair.0 && line_covered(
                    files[i].lines,
                    pair.1,
                );
            if i < n {
                assert(head[i] == files[i]);
            }
        }
        if covers(head, pair.0, pair.1) {
            let i = choose|i: int|
                0 <= i < head.len() && (#[trigger] head[i]).path == pair.0 && line_covered(
                    head[i].lines,
                    pair.1,
                );
            assert(files[i] == head[i]);
        }
        assert(files[n] == file);
    }
    assert(covered_pairs(files) =~= covered_pairs(head) + file_pairs(file.path, file.lines));
}

/// Where each path and each line is listed once, the number of covered lines is
/// the number of covered pairs of a path and a line.
pub proof fn covered_lines_are_counted_once(files: Seq<FileCoverageView>)
    requires
        each_line_once(files),
    ensures
        covered_pairs(files).finite(),
        covered_pairs(files).len() <= u64::MAX ==> total_covered(files) == covered_pairs(
            files,
        ).len(),
    decreases files.len(),
{
    if files.len() == 0 {
        assert(covered_pairs(files) =~= Set::empty());
    } else {
        let head = files.drop_last();
        let file = files.last();
        let n = files.len() - 1;
        assert(each_line_once(head)) by {
            assert forall|i: int, j: int| 0 <= i < j < head.len() implies (
            #[trigger] head[i]).path != (#[trigger] head[j]).path by {
                assert(files[i].path != files[j].path);
            }
            assert forall|i: int| 0 <= i < head.len() implies distinct_lines(
                (#[trigger] head[i]).lines,
            ) by {
                assert(head[i] == files[i]);
            }
        }
        covered_lines_are_counted_once(head);
        assert(distinct_lines(files[n].lines));
        lines_are_counted_once(file.path, file.lines);
        one_more_file(files);
        let a = covered_pairs(head);
        let b = file_pairs(file.path, file.lines);
        assert(a.disjoint(b)) by {
            assert forall|pair: (Seq<char>, u32)| a.contains(pair) implies !b.contains(pair) by {
                let i = choose|i: int|
                    0 <= i < head.len() && (#[trigger] head[i]).path == pair.0 && line_covered(
                        head[i].lines,
                        pair.1,
                    );
                assert(files[i].path != files[n].path);
            }
        }
        vstd::set_lib::lemma_set_disjoint_lens(a, b);
    }
}

proof fn one_path_covers_the_same(
    mine: Seq<FileCoverageView>,
    theirs: Seq<FileCoverageView>,
    path: Seq<char>,
    number: u32,
)
    requires
        each_line_once(mine),
        each_line_once(theirs),
        hits_fit(mine, theirs),
    ensures
        covers(fold_files(mine, theirs), path, number) <==> covers(mine, path, number) || covers(
            theirs,
            path,
            number,
        ),
{
    let out = fold_files(mine, theirs);
    folded_files_are_the_union(mine, theirs);
    files_are_merged_by_path(mine, theirs, path);
    covered_at_its_place(mine, path, number);
    covered_at_its_place(theirs, path, number);
    covered_at_its_place(out, path, number);
    let p = file_at(mine, path);
    let q = file_at(theirs, path);
    file_at_props(mine, path);
    file_at_props(theirs, path);
    if p < mine.len() && q < theirs.len() {
        let a = mine[p].lines;
        let b = theirs[q].lines;
        assert(hits_of(a, number) + hits_of(b, number) <= u64::MAX);
        merged_lines_add_up(a, b, number);
        covered_lines_have_hits(a, number);
        covered_lines_have_hits(b, number);
        covered_lines_have_hits(merge_lines(a, b), number);
    }
}

proof fn merged_files_list_each_line_once(
    mine: Seq<FileCoverageView>,
    theirs: Seq<FileCoverageView>,
)
    requires
        each_line_once(mine),
        each_line_once(theirs),
        hits_fit(mine, theirs),
    ensures
        each_line_once(fold_files(mine, theirs)),
{
    let out = fold_files(mine, theirs);
    folded_files_are_the_union(mine, theirs);
    assert forall|i: int| 0 <= i < out.len() implies distinct_lines((#[trigger] out[i]).lines) by {
        let path = out[i].path;
        assert forall|j: int| 0 <= j < i implies (#[trigger] out[j]).path != path by {
            assert(out[j].path != out[i].path);
        }
        file_is_at(out, path, i);
        files_are_merged_by_path(mine, theirs, path);
        let p = file_at(mine, path);
        let q = file_at(theirs, path);
        file_at_props(mine, path);
        file_at_props(theirs, path);
        if p < mine.len() && q < theirs.len() {
            assert(hits_of(mine[p].lines, 0) + hits_of(theirs[q].lines, 0) <= u64::MAX);
            merged_lines_add_up(mine[p].lines, theirs[q].lines, 0);
        }
    }
}

/// A merged report covers exactly the lines that either side covers: a line that
/// is uncovered in one shard and covered in another ends up covered, and none is
/// counted twice.
pub proof fn merging_covers_what_either_covers(mine: CoverageDocView, theirs: CoverageDocView)
    requires
        each_line_once(mine.files),
        each_line_once(theirs.files),
        hits_fit(mine.files, theirs.files),
    ensures
        each_line_once(merge_docs(mine, theirs).files),
        covered_pairs(merge_docs(mine, theirs).files) == covered_pairs(mine.files) + covered_pairs(
            theirs.files,
        ),
        covered_pairs(merge_docs(mine, theirs).files).finite(),
        covered_pairs(merge_docs(mine, theirs).files).len() <= u64::MAX ==> total_covered(
            merge_docs(mine, theirs).files,
        ) == (covered_pairs(mine.files) + covered_pairs(theirs.files)).len(),
{
    let out = merge_docs(mine, theirs).files;
    merged_files_list_each_line_once(mine.files, theirs.files);
    covered_lines_are_counted_once(out);
    assert forall|pair: (Seq<char>, u32)| #[trigger] covered_pairs(out).contains(pair) <==> (
    covered_pairs(mine.files) + covered_pairs(theirs.files)).contains(pair) by {
        one_path_covers_the_same(mine.files, theirs.files, pair.0, pair.1);
    }
    assert(covered_pairs(out) =~= covered_pairs(mine.files) + covered_pairs(theirs.files));
}

/// After rewriting paths no path is listed twice.
pub proof fn normalizing_lists_no_path_twice(doc: CoverageDocView, mapper: MapperView)
    requires
        !mapper.is_noop(),
    ensures
        distinct_files(normalize_doc(doc, mapper).files),
{
    folded_files_are_the_union(Seq::empty(), map_files(doc.files, mapper));
}

/// Sorting rearranges files and lines, and a second sort changes nothing.
pub proof fn sort_is_stable_across_runs(doc: CoverageDocView)
    ensures
        sort_doc(doc).files.len() == doc.files.len(),
        sort_doc(sort_doc(doc)) == sort_doc(doc),
{
    let once = sorted::<FileCoverage>(doc.files);
    let files = sort_doc(doc).files;
    sorted_props::<FileCoverage>(doc.files);
    assert forall|i: int, j: int| 0 <= i < j < files.len() implies !FileCoverage::precedes(
        #[trigger] files[j],
        #[trigger] files[i],
    ) by {
        assert(!FileCoverage::precedes(once[j], once[i]));
    }
    sorted_fixpoint::<FileCoverage>(files);
    let twice = files.map_values(|f: FileCoverageView| sort_file(f));
    assert forall|i: int| 0 <= i < files.len() implies twice[i] == files[i] by {
        sorted_props::<Line>(once[i].lines);
        sorted_fixpoint::<Line>(sorted::<Line>(once[i].lines));
        sorted_props::<Function>(once[i].functions);
        sorted_fixpoint::<Function>(sorted::<Function>(once[i].functions));
    }
    assert(twice =~= files);
}

} // verus!
