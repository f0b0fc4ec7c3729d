//! LCOV tracefile — the lingua franca of native, JS, Rust and Swift coverage
//! tooling.
//!
//! Only the records carrying data are consumed; totals such as `LF` and `BRF`
//! are recomputed rather than trusted:
//!
//! ```text
//! SF:<path>                              start of a file record
//! DA:<line>,<hits>[,<checksum>]          line hit count
//! FN:<line>,<name> | FN:<start>,<end>,<name>
//! FNDA:<hits>,<name>
//! BRDA:<line>,<block>,<branch>,<taken>   taken is a count or `-`
//! end_of_record
//! ```

use vstd::prelude::*;

use crate::error::{parse_error, Error, ErrorView};
use crate::formats::coverage::{count_reached, find_line, line_at, reached};
use crate::model::coverage::{
    any_branch, branch_total, covered_count, sort_doc, Branch, CoverageDoc, CoverageDocView,
    FileCoverage, FileCoverageView, Function, FunctionView, Line,
};
use crate::paths::{normalize, normalized};
use crate::registry::{read_result, wrong_kind, Doc, DocView};
use crate::text::{
    begins, concat, concat4, contains_char, cut, decimal, decimal_reads_back, from_utf8_lossy,
    is_digit, lacks_char, line_list, line_text, lines, number, owned, parse_u32, parse_u32_spec,
    parse_u64, parse_u64_spec, same, split_once, split_once_at, starts_with, text_in, trim, trimmed,
    unlines, written_numbers_parse,
};
use crate::value::{append_one, empty_list, find_key, flat, lookup, opt_list, replace_at, Value};
use crate::warn::{CtxView, FormatCtx};
use crate::xml::{float_literal, is_float_literal, text_result};

verus! {

pub const FORMAT: &'static str = "lcov";

// ---------------------------------------------------------------------------
// Records
// ---------------------------------------------------------------------------

/// The hit count of `3` or `1.0`. What a number with a fraction or an exponent
/// amounts to is looked up; it is no count where it is not listed.
pub open spec fn hits_of(raw: Seq<char>, counts: Seq<(Seq<char>, u64)>) -> Option<u64> {
    match parse_u64_spec(raw) {
        Some(n) => Some(n),
        None => if float_literal(raw) {
            lookup(counts, raw)
        } else {
            None
        },
    }
}

/// The second field of a `DA` record, trimmed.
pub open spec fn hits_field(value: Seq<char>) -> Option<Seq<char>> {
    match split_once(value, ',') {
        None => None,
        Some((_, rest)) => match split_once(rest, ',') {
            None => Some(trim(rest)),
            Some((raw, _)) => Some(trim(raw)),
        },
    }
}

/// Line and hits of `<line>,<hits>[,<checksum>]`.
pub open spec fn da_of(value: Seq<char>, counts: Seq<(Seq<char>, u64)>) -> Option<(u32, u64)> {
    match (split_once(value, ','), hits_field(value)) {
        (Some((line, _)), Some(raw)) => match (
            parse_u32_spec(trim(line)),
            hits_of(raw, counts),
        ) {
            (Some(line), Some(hits)) => Some((line, hits)),
            _ => None,
        },
        _ => None,
    }
}

/// Line and name of `<line>,<name>` or `<start>,<end>,<name>`.
pub open spec fn fn_of(value: Seq<char>) -> Option<(u32, Seq<char>)> {
    match split_once(value, ',') {
        None => None,
        Some((line, rest)) => match parse_u32_spec(trim(line)) {
            None => None,
            Some(line) => match split_once(rest, ',') {
                None => Some((line, rest)),
                Some((_, name)) => Some((line, name)),
            },
        },
    }
}

/// Hits and name of `<hits>,<name>`.
pub open spec fn fnda_of(value: Seq<char>) -> Option<(u64, Seq<char>)> {
    match split_once(value, ',') {
        None => None,
        Some((hits, name)) => match parse_u64_spec(trim(hits)) {
            Some(hits) => Some((hits, name)),
            None => None,
        },
    }
}

/// One arm of a branch.
#[derive(Debug, PartialEq, Eq)]
pub struct Arm {
    pub line: u32,
    pub block: u32,
    pub branch: String,
    pub taken: u64,
}

/// The content of an [`Arm`].
pub struct ArmView {
    pub line: u32,
    pub block: u32,
    pub branch: Seq<char>,
    pub taken: u64,
}

impl DeepView for Arm {
    type V = ArmView;

    open spec fn deep_view(&self) -> ArmView {
        ArmView { line: self.line, block: self.block, branch: self.branch@, taken: self.taken }
    }
}

impl Value for Arm {
    fn copy(&self) -> (r: Self) {
        Arm {
            line: self.line,
            block: self.block,
            branch: self.branch.clone(),
            taken: self.taken,
        }
    }

    fn equals(&self, other: &Self) -> (r: bool) {
        self.line == other.line && self.block == other.block && self.taken == other.taken && same(
            self.branch.as_str(),
            other.branch.as_str(),
        )
    }
}

pub open spec fn taken_of(raw: Seq<char>) -> Option<u64> {
    if raw == "-"@ {
        Some(0)
    } else {
        parse_u64_spec(raw)
    }
}

/// The arm of `<line>,<block>,<branch>,<taken>`.
pub open spec fn brda_of(value: Seq<char>) -> Option<ArmView> {
    match split_once(value, ',') {
        None => None,
        Some((line, rest)) => match split_once(rest, ',') {
            None => None,
            Some((block, rest)) => match split_once(rest, ',') {
                None => None,
                Some((branch, taken)) => match (
                    parse_u32_spec(trim(line)),
                    parse_u32_spec(trim(block)),
                    taken_of(trim(taken)),
                ) {
                    (Some(line), Some(block), Some(taken)) => Some(
                        ArmView { line, block, branch, taken },
                    ),
                    _ => None,
                },
            },
        },
    }
}

fn second_field(value: &str) -> (r: Option<String>)
    ensures
        r.deep_view() == hits_field(value@),
{
    match cut(value, ',') {
        None => None,
        Some((_, rest)) => match cut(rest.as_str(), ',') {
            None => Some(trimmed(rest.as_str())),
            Some((raw, _)) => Some(trimmed(raw.as_str())),
        },
    }
}

fn count_of(raw: &str, counts: &Vec<(String, u64)>) -> (r: Option<u64>)
    ensures
        r == hits_of(raw@, counts.deep_view()),
{
    if let Some(n) = parse_u64(raw) {
        return Some(n);
    }
    if is_float_literal(raw) {
        let at = find_key(counts, raw);
        if at < counts.len() {
            assert(counts.deep_view()[at as int].1 == counts[at as int].1);
            return Some(counts[at].1);
        }
    }
    None
}

pub fn parse_da(value: &str, counts: &Vec<(String, u64)>) -> (r: Option<(u32, u64)>)
    ensures
        r == da_of(value@, counts.deep_view()),
{
    if let (Some((line, _)), Some(raw)) = (cut(value, ','), second_field(value)) {
        if let (Some(line), Some(hits)) = (
            parse_u32(trimmed(line.as_str()).as_str()),
            count_of(raw.as_str(), counts),
        ) {
            return Some((line, hits));
        }
    }
    None
}

pub fn parse_fn(value: &str) -> (r: Option<(u32, String)>)
    ensures
        r.deep_view() == fn_of(value@),
{
    match cut(value, ',') {
        None => None,
        Some((line, rest)) => match parse_u32(trimmed(line.as_str()).as_str()) {
            None => None,
            Some(line) => match cut(rest.as_str(), ',') {
                None => Some((line, rest)),
                Some((_, name)) => Some((line, name)),
            },
        },
    }
}

pub fn parse_fnda(value: &str) -> (r: Option<(u64, String)>)
    ensures
        r.deep_view() == fnda_of(value@),
{
    match cut(value, ',') {
        None => None,
        Some((hits, name)) => match parse_u64(trimmed(hits.as_str()).as_str()) {
            Some(hits) => Some((hits, name)),
            None => None,
        },
    }
}

fn parse_taken(raw: &str) -> (r: Option<u64>)
    ensures
        r == taken_of(raw@),
{
    if same(raw, "-") {
        Some(0)
    } else {
        parse_u64(raw)
    }
}

pub fn parse_brda(value: &str) -> (r: Option<Arm>)
    ensures
        r.deep_view() == brda_of(value@),
{
    let (line, rest) = match cut(value, ',') {
        Some(pair) => pair,
        None => {
            return None;
        },
    };
    let (block, rest) = match cut(rest.as_str(), ',') {
        Some(pair) => pair,
        None => {
            return None;
        },
    };
    let (branch, taken) = match cut(rest.as_str(), ',') {
        Some(pair) => pair,
        None => {
            return None;
        },
    };
    match (
        parse_u32(trimmed(line.as_str()).as_str()),
        parse_u32(trimmed(block.as_str()).as_str()),
        parse_taken(trimmed(taken.as_str()).as_str()),
    ) {
        (Some(line), Some(block), Some(taken)) => Some(Arm { line, block, branch, taken }),
        _ => None,
    }
}

// ---------------------------------------------------------------------------
// Files
// ---------------------------------------------------------------------------

/// The data of one file, each line, function and arm once.
pub struct FileAcc {
    pub path: String,
    pub lines: Vec<Line>,
    pub functions: Vec<Function>,
    pub arms: Vec<Arm>,
}

/// The content of a [`FileAcc`].
pub struct FileAccView {
    pub path: Seq<char>,
    pub lines: Seq<Line>,
    pub functions: Seq<FunctionView>,
    pub arms: Seq<ArmView>,
}

impl DeepView for FileAcc {
    type V = FileAccView;

    open spec fn deep_view(&self) -> FileAccView {
        FileAccView {
            path: self.path@,
            lines: self.lines.deep_view(),
            functions: self.functions.deep_view(),
            arms: self.arms.deep_view(),
        }
    }
}

impl Value for FileAcc {
    fn copy(&self) -> (r: Self) {
        FileAcc {
            path: self.path.clone(),
            lines: self.lines.copy(),
            functions: self.functions.copy(),
            arms: self.arms.copy(),
        }
    }

    fn equals(&self, other: &Self) -> (r: bool) {
        same(self.path.as_str(), other.path.as_str()) && self.lines.equals(&other.lines)
            && self.functions.equals(&other.functions) && self.arms.equals(&other.arms)
    }
}

/// The lines with so many more hits on one.
pub open spec fn hit(lines: Seq<Line>, number: u32, hits: u64) -> Seq<Line> {
    let at = line_at(lines, number);
    if at < lines.len() {
        lines.update(at, Line { hits: lines[at].hits.wrapping_add(hits), ..lines[at] })
    } else {
        lines.push(Line { number, hits, branch: None })
    }
}

/// The position of the function of this name, or the length.
pub open spec fn name_at(functions: Seq<FunctionView>, name: Seq<char>) -> int
    decreases functions.len(),
{
    if functions.len() == 0 || functions[0].name == name {
        0
    } else {
        1 + name_at(functions.skip(1), name)
    }
}

/// The function of this name, or a new one.
pub open spec fn function_of(functions: Seq<FunctionView>, name: Seq<char>) -> FunctionView {
    let at = name_at(functions, name);
    if at < functions.len() {
        functions[at]
    } else {
        FunctionView { name, signature: None, line: None, hits: 0 }
    }
}

/// The functions, with this one in place of the one of its name.
pub open spec fn put_function(
    functions: Seq<FunctionView>,
    name: Seq<char>,
    function: FunctionView,
) -> Seq<FunctionView> {
    let at = name_at(functions, name);
    if at < functions.len() {
        functions.update(at, function)
    } else {
        functions.push(function)
    }
}

/// The position of the arm of this line, block and branch, or the length.
pub open spec fn arm_at(arms: Seq<ArmView>, arm: ArmView) -> int
    decreases arms.len(),
{
    if arms.len() == 0 || (arms[0].line == arm.line && arms[0].block == arm.block
        && arms[0].branch == arm.branch) {
        0
    } else {
        1 + arm_at(arms.skip(1), arm)
    }
}

/// The arms with one taken so many times more.
pub open spec fn take_arm(arms: Seq<ArmView>, arm: ArmView) -> Seq<ArmView> {
    let at = arm_at(arms, arm);
    if at < arms.len() {
        arms.update(at, ArmView { taken: arms[at].taken.wrapping_add(arm.taken), ..arms[at] })
    } else {
        arms.push(arm)
    }
}

/// The file with one more record. A `BRDA` line that never appears in `DA`
/// still describes an executable line.
pub open spec fn recorded(
    file: FileAccView,
    tag: Seq<char>,
    value: Seq<char>,
    counts: Seq<(Seq<char>, u64)>,
) -> FileAccView {
    if tag == "DA"@ {
        match da_of(value, counts) {
            Some((number, hits)) => FileAccView { lines: hit(file.lines, number, hits), ..file },
            None => file,
        }
    } else if tag == "FN"@ {
        match fn_of(value) {
            Some((line, name)) => FileAccView {
                functions: put_function(
                    file.functions,
                    name,
                    FunctionView { line: Some(line), ..function_of(file.functions, name) },
                ),
                ..file
            },
            None => file,
        }
    } else if tag == "FNDA"@ {
        match fnda_of(value) {
            Some((hits, name)) => {
                let function = function_of(file.functions, name);
                FileAccView {
                    functions: put_function(
                        file.functions,
                        name,
                        FunctionView { hits: function.hits.wrapping_add(hits), ..function },
                    ),
                    ..file
                }
            },
            None => file,
        }
    } else if tag == "BRDA"@ {
        match brda_of(value) {
            Some(arm) => FileAccView {
                lines: hit(file.lines, arm.line, 0),
                arms: take_arm(file.arms, arm),
                ..file
            },
            None => file,
        }
    } else {
        file
    }
}

/// How many arms a line has.
pub open spec fn arms_on(arms: Seq<ArmView>, number: u32) -> nat
    decreases arms.len(),
{
    if arms.len() == 0 {
        0
    } else {
        arms_on(arms.drop_last(), number) + if arms.last().line == number {
            1nat
        } else {
            0nat
        }
    }
}

/// How many arms of a line were taken.
pub open spec fn taken_on(arms: Seq<ArmView>, number: u32) -> nat
    decreases arms.len(),
{
    if arms.len() == 0 {
        0
    } else {
        taken_on(arms.drop_last(), number) + if arms.last().line == number && arms.last().taken
            > 0 {
            1nat
        } else {
            0nat
        }
    }
}

/// The branches of a line that has arms.
pub open spec fn branch_on(arms: Seq<ArmView>, number: u32) -> Option<Branch> {
    if arms_on(arms, number) == 0 {
        None
    } else {
        Some(
            Branch { covered: taken_on(arms, number) as u32, total: arms_on(arms, number) as u32 },
        )
    }
}

pub open spec fn built(file: FileAccView) -> FileCoverageView {
    FileCoverageView {
        lines: file.lines.map_values(
            |l: Line| Line { branch: branch_on(file.arms, l.number), ..l },
        ),
        functions: file.functions,
        ..FileCoverageView::of(file.path)
    }
}

fn find_name(functions: &Vec<Function>, name: &str) -> (r: usize)
    ensures
        r <= functions@.len(),
        r == name_at(functions.deep_view(), name@),
{
    let ghost all = functions.deep_view();
    let mut at: usize = 0;
    assert(all.skip(0) =~= all);
    while at < functions.len() && !same(functions[at].name.as_str(), name)
        invariant
            at <= functions@.len(),
            all == functions.deep_view(),
            name_at(all, name@) == at + name_at(all.skip(at as int), name@),
        decreases functions@.len() - at,
    {
        assert(all.skip(at as int)[0] == all[at as int]);
        assert(all.skip(at as int).skip(1) =~= all.skip(at as int + 1));
        at = at + 1;
    }
    proof {
        if at < functions@.len() {
            assert(all.skip(at as int)[0] == all[at as int]);
        }
    }
    at
}

fn find_arm(arms: &Vec<Arm>, arm: &Arm) -> (r: usize)
    ensures
        r <= arms@.len(),
        r == arm_at(arms.deep_view(), arm.deep_view()),
{
    let ghost all = arms.deep_view();
    let ghost wanted = arm.deep_view();
    let mut at: usize = 0;
    assert(all.skip(0) =~= all);
    while at < arms.len() && !(arms[at].line == arm.line && arms[at].block == arm.block && same(
        arms[at].branch.as_str(),
        arm.branch.as_str(),
    ))
        invariant
            at <= arms@.len(),
            all == arms.deep_view(),
            wanted == arm.deep_view(),
            arm_at(all, wanted) == at + arm_at(all.skip(at as int), wanted),
        decreases arms@.len() - at,
    {
        assert(all.skip(at as int)[0] == all[at as int]);
        assert(all.skip(at as int).skip(1) =~= all.skip(at as int + 1));
        at = at + 1;
    }
    proof {
        if at < arms@.len() {
            assert(all.skip(at as int)[0] == all[at as int]);
        }
    }
    at
}

impl FileAcc {
    fn hit_line(&mut self, number: u32, hits: u64)
        ensures
            final(self).deep_view() == (FileAccView {
                lines: hit(old(self).deep_view().lines, number, hits),
                ..old(self).deep_view()
            }),
    {
        let at = find_line(&self.lines, number);
        if at < self.lines.len() {
            let mut line = self.lines[at];
            line.hits = line.hits.wrapping_add(hits);
            replace_at(&mut self.lines, at, line);
        } else {
            append_one(&mut self.lines, Line { number, hits, branch: None });
        }
    }

    fn take_function(&self, name: &str) -> (r: Function)
        ensures
            r.deep_view() == function_of(self.deep_view().functions, name@),
    {
        let at = find_name(&self.functions, name);
        if at < self.functions.len() {
            self.functions[at].copy()
        } else {
            Function { name: owned(name), signature: None, line: None, hits: 0 }
        }
    }

    fn place_function(&mut self, name: &str, function: Function)
        ensures
            final(self).deep_view() == (FileAccView {
                functions: put_function(
                    old(self).deep_view().functions,
                    name@,
                    function.deep_view(),
                ),
                ..old(self).deep_view()
            }),
    {
        let at = find_name(&self.functions, name);
        if at < self.functions.len() {
            replace_at(&mut self.functions, at, function);
        } else {
            append_one(&mut self.functions, function);
        }
    }

    fn take(&mut self, arm: Arm)
        ensures
            final(self).deep_view() == (FileAccView {
                arms: take_arm(old(self).deep_view().arms, arm.deep_view()),
                ..old(self).deep_view()
            }),
    {
        let at = find_arm(&self.arms, &arm);
        if at < self.arms.len() {
            let mut known = self.arms[at].copy();
            known.taken = known.taken.wrapping_add(arm.taken);
            replace_at(&mut self.arms, at, known);
        } else {
            append_one(&mut self.arms, arm);
        }
    }

    fn record(&mut self, tag: &str, value: &str, counts: &Vec<(String, u64)>)
        ensures
            final(self).deep_view() == recorded(
                old(self).deep_view(),
                tag@,
                value@,
                counts.deep_view(),
            ),
    {
        if same(tag, "DA") {
            if let Some((number, hits)) = parse_da(value, counts) {
                self.hit_line(number, hits);
            }
        } else if same(tag, "FN") {
            if let Some((line, name)) = parse_fn(value) {
                let mut function = self.take_function(name.as_str());
                function.line = Some(line);
                self.place_function(name.as_str(), function);
            }
        } else if same(tag, "FNDA") {
            if let Some((hits, name)) = parse_fnda(value) {
                let mut function = self.take_function(name.as_str());
                function.hits = function.hits.wrapping_add(hits);
                self.place_function(name.as_str(), function);
            }
        } else if same(tag, "BRDA") {
            if let Some(arm) = parse_brda(value) {
                self.hit_line(arm.line, 0);
                self.take(arm);
            }
        }
    }
}

fn branch_of(arms: &Vec<Arm>, number: u32) -> (r: Option<Branch>)
    ensures
        r == branch_on(arms.deep_view(), number),
{
    let ghost all = arms.deep_view();
    let mut total: usize = 0;
    let mut covered: usize = 0;
    let mut i: usize = 0;
    assert(all.take(0) =~= Seq::empty());
    while i < arms.len()
        invariant
            i <= arms@.len(),
            all == arms.deep_view(),
            total <= i,
            covered <= i,
            total == arms_on(all.take(i as int), number),
            covered == taken_on(all.take(i as int), number),
        decreases arms@.len() - i,
    {
        assert(all.take(i as int + 1).drop_last() =~= all.take(i as int));
        if arms[i].line == number {
            total = total + 1;
            if arms[i].taken > 0 {
                covered = covered + 1;
            }
        }
        i = i + 1;
    }
    assert(all.take(i as int) =~= all);
    if total == 0 {
        None
    } else {
        Some(
            Branch {
                covered: #[verifier::truncate]
                (covered as u32),
                total: #[verifier::truncate]
                (total as u32),
            },
        )
    }
}

pub fn build_file(acc: &FileAcc) -> (r: FileCoverage)
    ensures
        r.deep_view() == built(acc.deep_view()),
{
    let ghost arms = acc.deep_view().arms;
    let ghost goal = built(acc.deep_view()).lines;
    let mut file = FileCoverage::new(acc.path.as_str());
    let mut i: usize = 0;
    assert(file.lines.deep_view() =~= goal.take(0));
    while i < acc.lines.len()
        invariant
            i <= acc.lines@.len(),
            arms == acc.arms.deep_view(),
            goal == acc.lines.deep_view().map_values(
                |l: Line| Line { branch: branch_on(arms, l.number), ..l },
            ),
            file.deep_view() == (FileCoverageView {
                lines: goal.take(i as int),
                ..FileCoverageView::of(acc.path@)
            }),
        decreases acc.lines@.len() - i,
    {
        let mut line = acc.lines[i];
        line.branch = branch_of(&acc.arms, line.number);
        append_one(&mut file.lines, line);
        i = i + 1;
        assert(file.lines.deep_view() =~= goal.take(i as int));
    }
    assert(goal.take(i as int) =~= goal);
    file.functions = acc.functions.copy();
    file
}

// ---------------------------------------------------------------------------
// Reading
// ---------------------------------------------------------------------------

/// What has been read so far.
pub struct StateView {
    pub files: Seq<FileAccView>,
    pub current: Option<Seq<char>>,
}

pub struct State {
    files: Vec<FileAcc>,
    current: Option<String>,
}

impl View for State {
    type V = StateView;

    closed spec fn view(&self) -> StateView {
        StateView { files: self.files.deep_view(), current: self.current.deep_view() }
    }
}

/// The position of the file at `path`, or the length.
pub open spec fn acc_at(files: Seq<FileAccView>, path: Seq<char>) -> int
    decreases files.len(),
{
    if files.len() == 0 || files[0].path == path {
        0
    } else {
        1 + acc_at(files.skip(1), path)
    }
}

pub open spec fn empty_acc(path: Seq<char>) -> FileAccView {
    FileAccView { path, lines: Seq::empty(), functions: Seq::empty(), arms: Seq::empty() }
}

pub open spec fn opened(s: StateView, path: Seq<char>) -> StateView {
    StateView {
        files: if acc_at(s.files, path) < s.files.len() {
            s.files
        } else {
            s.files.push(empty_acc(path))
        },
        current: Some(path),
    }
}

/// The state behind one more line, the `number`th, or why reading stops there.
/// Text that is no record is not worth failing over.
pub open spec fn stepped(
    s: StateView,
    raw: Seq<char>,
    number: nat,
    counts: Seq<(Seq<char>, u64)>,
) -> Result<StateView, ErrorView> {
    let line = trim(raw);
    if line.len() == 0 || line[0] == '#' {
        Ok(s)
    } else if line == "end_of_record"@ {
        Ok(StateView { current: None, ..s })
    } else {
        match split_once(line, ':') {
            None => Ok(s),
            Some((tag, value)) => if tag == "SF"@ {
                let path = normalized(trim(value));
                if path.len() == 0 {
                    Err(parse_error(FORMAT@, "empty SF: path on line "@ + decimal(number)))
                } else {
                    Ok(opened(s, path))
                }
            } else {
                match s.current {
                    None => Ok(s),
                    Some(path) => {
                        let at = acc_at(s.files, path);
                        if at < s.files.len() {
                            Ok(
                                StateView {
                                    files: s.files.update(
                                        at,
                                        recorded(s.files[at], tag, value, counts),
                                    ),
                                    ..s
                                },
                            )
                        } else {
                            Ok(s)
                        }
                    },
                }
            },
        }
    }
}

/// The state behind these lines, or why reading stops.
pub open spec fn folded(
    all: Seq<Seq<char>>,
    counts: Seq<(Seq<char>, u64)>,
) -> Result<StateView, ErrorView>
    decreases all.len(),
{
    if all.len() == 0 {
        Ok(StateView { files: Seq::empty(), current: None })
    } else {
        match folded(all.drop_last(), counts) {
            Ok(s) => stepped(s, all.last(), all.len(), counts),
            Err(e) => Err(e),
        }
    }
}

proof fn a_stop_is_final(all: Seq<Seq<char>>, counts: Seq<(Seq<char>, u64)>, i: int)
    requires
        0 <= i <= all.len(),
        folded(all.take(i), counts) is Err,
    ensures
        folded(all, counts) == folded(all.take(i), counts),
    decreases all.len(),
{
    if i < all.len() {
        assert(all.drop_last().take(i) =~= all.take(i));
        a_stop_is_final(all.drop_last(), counts, i);
    } else {
        assert(all.take(i) =~= all);
    }
}

/// The document that reading these lines gives, or the refusal.
pub open spec fn read_spec(
    all: Seq<Seq<char>>,
    counts: Seq<(Seq<char>, u64)>,
) -> Result<DocView, ErrorView> {
    match folded(all, counts) {
        Err(e) => Err(e),
        Ok(s) => if s.files.len() == 0 {
            Err(
                parse_error(
                    FORMAT@,
                    "no `SF:` record found — this does not look like an LCOV tracefile"@,
                ),
            )
        } else {
            Ok(
                DocView::Coverage(
                    sort_doc(
                        CoverageDocView {
                            files: s.files.map_values(|f: FileAccView| built(f)),
                            ..CoverageDocView::empty()
                        },
                    ),
                ),
            )
        },
    }
}

fn find_acc(files: &Vec<FileAcc>, path: &str) -> (r: usize)
    ensures
        r <= files@.len(),
        r == acc_at(files.deep_view(), path@),
{
    let ghost all = files.deep_view();
    let mut at: usize = 0;
    assert(all.skip(0) =~= all);
    while at < files.len() && !same(files[at].path.as_str(), path)
        invariant
            at <= files@.len(),
            all == files.deep_view(),
            acc_at(all, path@) == at + acc_at(all.skip(at as int), path@),
        decreases files@.len() - at,
    {
        assert(all.skip(at as int)[0] == all[at as int]);
        assert(all.skip(at as int).skip(1) =~= all.skip(at as int + 1));
        at = at + 1;
    }
    proof {
        if at < files@.len() {
            assert(all.skip(at as int)[0] == all[at as int]);
        }
    }
    at
}

fn comment(line: &str) -> (r: bool)
    ensures
        r == (line@.len() == 0 || line@[0] == '#'),
{
    proof {
        reveal_strlit("#");
        assert(starts_with(line@, "#"@) == (line@.len() > 0 && line@[0] == '#')) by {
            if line@.len() > 0 && line@[0] == '#' {
                assert(line@.take(1) =~= "#"@);
            }
            if starts_with(line@, "#"@) {
                assert(line@.take(1)[0] == "#"@[0]);
            }
        }
    }
    line.is_empty() || begins(line, "#")
}

impl State {
    fn open(&mut self, path: String)
        ensures
            final(self)@ == opened(old(self)@, path@),
    {
        if find_acc(&self.files, path.as_str()) >= self.files.len() {
            append_one(
                &mut self.files,
                FileAcc {
                    path: path.clone(),
                    lines: empty_list(),
                    functions: empty_list(),
                    arms: empty_list(),
                },
            );
        }
        self.current = Some(path);
    }

    fn step(&mut self, raw: &str, index: usize, counts: &Vec<(String, u64)>) -> (r: Result<
        (),
        Error,
    >)
        requires
            index < usize::MAX,
        ensures
            match stepped(old(self)@, raw@, (index + 1) as nat, counts.deep_view()) {
                Ok(s) => r is Ok && final(self)@ == s,
                Err(e) => r is Err && r->Err_0.deep_view() == e,
            },
    {
        let line = trimmed(raw);
        if comment(line.as_str()) {
            return Ok(());
        }
        if same(line.as_str(), "end_of_record") {
            self.current = None;
            return Ok(());
        }
        let (tag, value) = match cut(line.as_str(), ':') {
            Some(pair) => pair,
            None => {
                return Ok(());
            },
        };
        if same(tag.as_str(), "SF") {
            let path = normalize(trimmed(value.as_str()).as_str());
            if path.as_str().is_empty() {
                return Err(
                    Error::parse(
                        FORMAT,
                        concat(
                            "empty SF: path on line ",
                            number((index + 1) as u64).as_str(),
                        ).as_str(),
                    ),
                );
            }
            self.open(path);
            return Ok(());
        }
        if let Some(path) = &self.current {
            let at = find_acc(&self.files, path.as_str());
            if at < self.files.len() {
                let ghost before = self.files.deep_view();
                self.files[at].record(tag.as_str(), value.as_str(), counts);
                assert(self.files.deep_view() =~= before.update(
                    at as int,
                    recorded(before[at as int], tag@, value@, counts.deep_view()),
                ));
            }
        }
        Ok(())
    }
}

/// Reads a tracefile. `counts` says what the numbers that [`count_texts`] lists
/// amount to.
pub fn read_text(text: &str, counts: &Vec<(String, u64)>, ctx: &mut FormatCtx) -> (r: Result<
    Doc,
    Error,
>)
    ensures
        read_result(r) == read_spec(lines(text@), counts.deep_view()),
        final(ctx)@ == old(ctx)@,
{
    let list = line_list(text);
    let ghost all = list.deep_view();
    let ghost table = counts.deep_view();
    let mut state = State { files: empty_list(), current: None };
    let mut i: usize = 0;
    assert(all.take(0) =~= Seq::empty());
    while i < list.len()
        invariant
            i <= list@.len(),
            all == list.deep_view(),
            all == lines(text@),
            table == counts.deep_view(),
            folded(all.take(i as int), table) == Ok::<StateView, ErrorView>(state@),
        decreases list@.len() - i,
    {
        assert(all.take(i as int + 1).drop_last() =~= all.take(i as int));
        assert(all.take(i as int + 1).last() == list[i as int]@);
        match state.step(list[i].as_str(), i, counts) {
            Ok(_) => {},
            Err(e) => {
                proof {
                    a_stop_is_final(all, table, i as int + 1);
                }
                return Err(e);
            },
        }
        i = i + 1;
    }
    assert(all.take(i as int) =~= all);
    if state.files.len() == 0 {
        return Err(
            Error::parse(
                FORMAT,
                "no `SF:` record found — this does not look like an LCOV tracefile",
            ),
        );
    }
    let mut doc = CoverageDoc::default();
    let ghost goal = state.files.deep_view().map_values(|f: FileAccView| built(f));
    let mut k: usize = 0;
    assert(doc.files.deep_view() =~= goal.take(0));
    while k < state.files.len()
        invariant
            k <= state.files@.len(),
            goal == state.files.deep_view().map_values(|f: FileAccView| built(f)),
            doc.deep_view() == (CoverageDocView {
                files: goal.take(k as int),
                ..CoverageDocView::empty()
            }),
        decreases state.files@.len() - k,
    {
        append_one(&mut doc.files, build_file(&state.files[k]));
        k = k + 1;
        assert(doc.files.deep_view() =~= goal.take(k as int));
    }
    assert(goal.take(k as int) =~= goal);
    doc.sort();
    Ok(Doc::Coverage(doc))
}

pub fn read(input: &[u8], counts: &Vec<(String, u64)>, ctx: &mut FormatCtx) -> (r: Result<
    Doc,
    Error,
>)
    ensures
        read_result(r) == read_spec(lines(text_in(input@)), counts.deep_view()),
        final(ctx)@ == old(ctx)@,
{
    let text = from_utf8_lossy(input);
    read_text(text.as_str(), counts, ctx)
}

// ---------------------------------------------------------------------------
// Numbers that are no counts as they stand
// ---------------------------------------------------------------------------

/// The number of a `DA` line that has to be looked up.
pub open spec fn looked_up(raw: Seq<char>) -> Option<Seq<char>> {
    match split_once(trim(raw), ':') {
        None => None,
        Some((tag, value)) => match hits_field(value) {
            None => None,
            Some(field) => if tag == "DA"@ && parse_u64_spec(field) is None && float_literal(
                field,
            ) {
                Some(field)
            } else {
                None
            },
        },
    }
}

fn count_text(raw: &str) -> (r: Option<String>)
    ensures
        r.deep_view() == looked_up(raw@),
{
    let (tag, value) = match cut(trimmed(raw).as_str(), ':') {
        Some(pair) => pair,
        None => {
            return None;
        },
    };
    match second_field(value.as_str()) {
        None => None,
        Some(field) => if same(tag.as_str(), "DA") && parse_u64(field.as_str()).is_none()
            && is_float_literal(field.as_str()) {
            Some(field)
        } else {
            None
        },
    }
}

/// The hit counts of a tracefile that are numbers with a fraction or an
/// exponent, in its order.
pub fn count_texts(input: &[u8]) -> (r: Vec<String>)
    ensures
        r.deep_view() == flat(
            lines(text_in(input@)),
            |l: Seq<char>| opt_list(looked_up(l)),
        ),
{
    let list = line_list(from_utf8_lossy(input).as_str());
    let ghost all = list.deep_view();
    let mut out: Vec<String> = empty_list();
    let mut i: usize = 0;
    assert(all.take(0) =~= Seq::empty());
    while i < list.len()
        invariant
            i <= list@.len(),
            all == list.deep_view(),
            out.deep_view() == flat(
                all.take(i as int),
                |l: Seq<char>| opt_list(looked_up(l)),
            ),
        decreases list@.len() - i,
    {
        assert(all.take(i as int + 1).drop_last() =~= all.take(i as int));
        let ghost before = out.deep_view();
        if let Some(text) = count_text(list[i].as_str()) {
            append_one(&mut out, text);
        }
        i = i + 1;
        assert(out.deep_view() =~= before + opt_list(looked_up(all[i as int - 1])));
    }
    assert(all.take(i as int) =~= all);
    out
}

// ---------------------------------------------------------------------------
// Writing
// ---------------------------------------------------------------------------

pub open spec fn fn_line(function: FunctionView) -> Seq<Seq<char>> {
    match function.line {
        Some(line) => seq!["FN:"@ + decimal(line as nat) + ","@ + function.name],
        None => Seq::empty(),
    }
}

pub open spec fn fnda_line(function: FunctionView) -> Seq<char> {
    "FNDA:"@ + decimal(function.hits as nat) + ","@ + function.name
}

pub open spec fn brda_line(number: u32, branch: Branch, index: int) -> Seq<char> {
    "BRDA:"@ + decimal(number as nat) + ",0,"@ + decimal(index as nat) + (if index
        < branch.covered {
        ",1"@
    } else {
        ",-"@
    })
}

/// The arms of a line. Only how many there are and how many were taken is
/// known: the first so many are.
pub open spec fn brda_lines(line: Line) -> Seq<Seq<char>> {
    match line.branch {
        Some(b) => Seq::new(b.total as nat, |i: int| brda_line(line.number, b, i)),
        None => Seq::empty(),
    }
}

pub open spec fn da_line(line: Line) -> Seq<char> {
    "DA:"@ + decimal(line.number as nat) + ","@ + decimal(line.hits as nat)
}

pub open spec fn function_lines(functions: Seq<FunctionView>) -> Seq<Seq<char>> {
    flat(functions, |f: FunctionView| fn_line(f)) + functions.map_values(
        |f: FunctionView| fnda_line(f),
    ) + (if functions.len() > 0 {
        seq!["FNF:"@ + decimal(functions.len()), "FNH:"@ + decimal(reached(functions))]
    } else {
        Seq::empty()
    })
}

pub open spec fn branch_lines(lines: Seq<Line>) -> Seq<Seq<char>> {
    let branches = branch_total(lines);
    flat(lines, |l: Line| brda_lines(l)) + (if branches.total > 0 {
        seq![
            "BRF:"@ + decimal(branches.total as nat),
            "BRH:"@ + decimal(branches.covered as nat),
        ]
    } else {
        Seq::empty()
    })
}

/// The lines of one file.
pub open spec fn file_lines(file: FileCoverageView) -> Seq<Seq<char>> {
    seq!["TN:"@, "SF:"@ + file.path] + function_lines(file.functions) + branch_lines(file.lines)
        + file.lines.map_values(|l: Line| da_line(l)) + seq![
        "LF:"@ + decimal(file.lines.len()),
        "LH:"@ + decimal(covered_count(file.lines)),
        "end_of_record"@,
    ]
}

pub open spec fn report_lines(doc: CoverageDocView) -> Seq<Seq<char>> {
    flat(doc.files, |f: FileCoverageView| file_lines(f))
}

pub open spec fn doc_branches(doc: CoverageDocView) -> bool {
    exists|i: int| 0 <= i < doc.files.len() && any_branch((#[trigger] doc.files[i]).lines)
}

pub open spec fn notices(doc: CoverageDocView, ctx: CtxView) -> CtxView {
    ctx.lossy_if(
        doc.has_extra_counters(),
        "lcov: JaCoCo instruction/complexity/method counters have no LCOV equivalent and were dropped"@,
    ).degraded_if(
        doc_branches(doc),
        "lcov: branch block/index identifiers were synthesized (the pivot only keeps covered/total per line)"@,
    )
}

pub open spec fn written(doc: DocView, ctx: CtxView) -> (Result<Seq<char>, ErrorView>, CtxView) {
    match doc {
        DocView::Coverage(doc) => (Ok(unlines(report_lines(doc))), notices(doc, ctx)),
        _ => (Err(wrong_kind("expected a coverage report"@)), ctx),
    }
}

fn put_functions(out: &mut Vec<String>, functions: &Vec<Function>)
    ensures
        final(out).deep_view() == old(out).deep_view() + function_lines(functions.deep_view()),
{
    let ghost all = functions.deep_view();
    let ghost start = out.deep_view();
    let mut i: usize = 0;
    assert(all.take(0) =~= Seq::empty());
    assert(start + Seq::<Seq<char>>::empty() =~= start);
    while i < functions.len()
        invariant
            i <= functions@.len(),
            all == functions.deep_view(),
            out.deep_view() == start + flat(all.take(i as int), |f: FunctionView| fn_line(f)),
        decreases functions@.len() - i,
    {
        assert(all.take(i as int + 1).drop_last() =~= all.take(i as int));
        if let Some(line) = functions[i].line {
            append_one(
                out,
                concat4(
                    "FN:",
                    number(line as u64).as_str(),
                    ",",
                    functions[i].name.as_str(),
                ),
            );
        }
        i = i + 1;
        assert(out.deep_view() =~= start + flat(
            all.take(i as int),
            |f: FunctionView| fn_line(f),
        ));
    }
    assert(all.take(i as int) =~= all);
    let ghost middle = out.deep_view();
    let ghost goal = all.map_values(|f: FunctionView| fnda_line(f));
    let mut k: usize = 0;
    assert(middle + goal.take(0) =~= middle);
    while k < functions.len()
        invariant
            k <= functions@.len(),
            all == functions.deep_view(),
            goal == all.map_values(|f: FunctionView| fnda_line(f)),
            out.deep_view() == middle + goal.take(k as int),
        decreases functions@.len() - k,
    {
        append_one(
            out,
            concat4(
                "FNDA:",
                number(functions[k].hits).as_str(),
                ",",
                functions[k].name.as_str(),
            ),
        );
        k = k + 1;
        assert(out.deep_view() =~= middle + goal.take(k as int));
    }
    assert(goal.take(k as int) =~= goal);
    if functions.len() > 0 {
        append_one(out, concat("FNF:", number(functions.len() as u64).as_str()));
        append_one(out, concat("FNH:", number(count_reached(functions)).as_str()));
    }
    assert(out.deep_view() =~= start + function_lines(all));
}

fn put_arms(out: &mut Vec<String>, line: &Line)
    ensures
        final(out).deep_view() == old(out).deep_view() + brda_lines(*line),
{
    let ghost start = out.deep_view();
    if let Some(branch) = line.branch {
        let ghost goal = brda_lines(*line);
        let mut i: u32 = 0;
        assert(start + goal.take(0) =~= start);
        while i < branch.total
            invariant
                i <= branch.total,
                line.branch == Some(branch),
                goal == brda_lines(*line),
                out.deep_view() == start + goal.take(i as int),
            decreases branch.total - i,
        {
            let text = concat4(
                "BRDA:",
                number(line.number as u64).as_str(),
                ",0,",
                number(i as u64).as_str(),
            );
            let text = concat(
                text.as_str(),
                if i < branch.covered {
                    ",1"
                } else {
                    ",-"
                },
            );
            append_one(out, text);
            i = i + 1;
            assert(out.deep_view() =~= start + goal.take(i as int));
        }
        assert(goal.take(i as int) =~= goal);
    } else {
        assert(out.deep_view() =~= start + brda_lines(*line));
    }
}

fn put_branches(out: &mut Vec<String>, file: &FileCoverage)
    ensures
        final(out).deep_view() == old(out).deep_view() + branch_lines(file.deep_view().lines),
{
    let ghost all = file.deep_view().lines;
    let ghost start = out.deep_view();
    let mut i: usize = 0;
    assert(all.take(0) =~= Seq::empty());
    assert(start + Seq::<Seq<char>>::empty() =~= start);
    while i < file.lines.len()
        invariant
            i <= file.lines@.len(),
            all == file.lines.deep_view(),
            out.deep_view() == start + flat(all.take(i as int), |l: Line| brda_lines(l)),
        decreases file.lines@.len() - i,
    {
        assert(all.take(i as int + 1).drop_last() =~= all.take(i as int));
        assert(all[i as int] == file.lines[i as int]);
        put_arms(out, &file.lines[i]);
        i = i + 1;
        assert(out.deep_view() =~= start + flat(all.take(i as int), |l: Line| brda_lines(l)));
    }
    assert(all.take(i as int) =~= all);
    let branches = file.branches();
    if branches.total > 0 {
        append_one(out, concat("BRF:", number(branches.total as u64).as_str()));
        append_one(out, concat("BRH:", number(branches.covered as u64).as_str()));
    }
    assert(out.deep_view() =~= start + branch_lines(all));
}

fn put_lines(out: &mut Vec<String>, lines: &Vec<Line>)
    ensures
        final(out).deep_view() == old(out).deep_view() + lines.deep_view().map_values(
            |l: Line| da_line(l),
        ),
{
    let ghost start = out.deep_view();
    let ghost goal = lines.deep_view().map_values(|l: Line| da_line(l));
    let mut k: usize = 0;
    assert(start + goal.take(0) =~= start);
    while k < lines.len()
        invariant
            k <= lines@.len(),
            goal == lines.deep_view().map_values(|l: Line| da_line(l)),
            out.deep_view() == start + goal.take(k as int),
        decreases lines@.len() - k,
    {
        append_one(
            out,
            concat4(
                "DA:",
                number(lines[k].number as u64).as_str(),
                ",",
                number(lines[k].hits).as_str(),
            ),
        );
        k = k + 1;
        assert(out.deep_view() =~= start + goal.take(k as int));
    }
    assert(goal.take(k as int) =~= goal);
}

fn put_file(out: &mut Vec<String>, file: &FileCoverage)
    ensures
        final(out).deep_view() == old(out).deep_view() + file_lines(file.deep_view()),
{
    let ghost view = file.deep_view();
    let ghost start = out.deep_view();
    append_one(out, owned("TN:"));
    append_one(out, concat("SF:", file.path.as_str()));
    put_functions(out, &file.functions);
    put_branches(out, file);
    put_lines(out, &file.lines);
    append_one(out, concat("LF:", number(file.lines_valid()).as_str()));
    append_one(out, concat("LH:", number(file.lines_covered()).as_str()));
    append_one(out, owned("end_of_record"));
    assert(out.deep_view() =~= start + file_lines(view));
}

pub fn write(doc: &Doc, ctx: &mut FormatCtx) -> (r: Result<String, Error>)
    ensures
        (text_result(r), final(ctx)@) == written(doc.deep_view(), old(ctx)@),
{
    let doc = match doc.as_coverage() {
        Ok(doc) => doc,
        Err(e) => {
            return Err(e);
        },
    };
    if doc.has_extra_counters() {
        ctx.lossy(
            "lcov: JaCoCo instruction/complexity/method counters have no LCOV equivalent and were dropped",
        );
    }
    if doc.has_branches() {
        ctx.degraded(
            "lcov: branch block/index identifiers were synthesized (the pivot only keeps covered/total per line)",
        );
    }
    let ghost all = doc.deep_view().files;
    let mut out: Vec<String> = empty_list();
    let mut i: usize = 0;
    assert(all.take(0) =~= Seq::empty());
    while i < doc.files.len()
        invariant
            i <= doc.files@.len(),
            all == doc.files.deep_view(),
            out.deep_view() == flat(all.take(i as int), |f: FileCoverageView| file_lines(f)),
        decreases doc.files@.len() - i,
    {
        assert(all.take(i as int + 1).drop_last() =~= all.take(i as int));
        put_file(&mut out, &doc.files[i]);
        i = i + 1;
    }
    assert(all.take(i as int) =~= all);
    Ok(line_text(&out))
}

// ---------------------------------------------------------------------------
// Laws
// ---------------------------------------------------------------------------

pub(crate) proof fn digits_lack(n: nat, c: char)
    requires
        !is_digit(c),
    ensures
        !contains_char(decimal(n), c),
{
    decimal_reads_back(n);
    lacks_char(decimal(n), c);
    assert(forall|i: int| 0 <= i < decimal(n).len() ==> is_digit(#[trigger] decimal(n)[i]));
}

proof fn tag_reads_back(tag: Seq<char>, value: Seq<char>)
    requires
        tag == "DA"@ || tag == "BRDA"@,
    ensures
        split_once(tag.push(':') + value, ':') == Some((tag, value)),
{
    reveal_strlit("DA");
    reveal_strlit("BRDA");
    lacks_char(tag, ':');
    split_once_at(tag, ':', value);
}

/// The record that a line is written as reads as that line's number and hits,
/// whatever the list of counts.
pub proof fn line_records_read_back(line: Line, counts: Seq<(Seq<char>, u64)>)
    ensures
        match split_once(da_line(line), ':') {
            Some((tag, value)) => tag == "DA"@ && da_of(value, counts) == Some(
                (line.number, line.hits),
            ),
            None => false,
        },
{
    let n = decimal(line.number as nat);
    let h = decimal(line.hits as nat);
    let value = n.push(',') + h;
    reveal_strlit("DA:");
    reveal_strlit("DA");
    reveal_strlit(",");
    assert(da_line(line) =~= "DA"@.push(':') + value);
    tag_reads_back("DA"@, value);
    digits_lack(line.number as nat, ',');
    digits_lack(line.hits as nat, ',');
    split_once_at(n, ',', h);
    written_numbers_parse(line.number as u64);
    written_numbers_parse(line.hits);
}

/// The arm that the `index`th record of a line stands for.
pub open spec fn arm_of(number: u32, branch: Branch, index: int) -> ArmView {
    ArmView {
        line: number,
        block: 0,
        branch: decimal(index as nat),
        taken: if index < branch.covered {
            1
        } else {
            0
        },
    }
}

pub(crate) proof fn arm_reads_back(number: u32, branch: Branch, index: int)
    requires
        0 <= index < branch.total,
    ensures
        match split_once(brda_line(number, branch, index), ':') {
            Some((tag, value)) => tag == "BRDA"@ && brda_of(value) == Some(
                arm_of(number, branch, index),
            ),
            None => false,
        },
{
    let n = decimal(number as nat);
    let k = decimal(index as nat);
    let zero = decimal(0);
    reveal_strlit("BRDA:");
    reveal_strlit("BRDA");
    reveal_strlit(",0,");
    reveal_strlit(",1");
    reveal_strlit(",-");
    reveal_strlit("-");
    let taken = if index < branch.covered {
        decimal(1)
    } else {
        "-"@
    };
    let last = k.push(',') + taken;
    let middle = zero.push(',') + last;
    let value = n.push(',') + middle;
    assert(zero =~= seq!['0']);
    assert(decimal(1) =~= seq!['1']);
    assert(brda_line(number, branch, index) =~= "BRDA"@.push(':') + value);
    tag_reads_back("BRDA"@, value);
    digits_lack(number as nat, ',');
    digits_lack(0, ',');
    digits_lack(index as nat, ',');
    split_once_at(n, ',', middle);
    split_once_at(zero, ',', last);
    split_once_at(k, ',', taken);
    written_numbers_parse(number as u64);
    written_numbers_parse(0);
    written_numbers_parse(1);
    if index < branch.covered {
        assert(decimal(1)[0] != "-"@[0]);
        assert(trim(decimal(1)) == decimal(1)) by {
            reveal_with_fuel(crate::text::trim_start, 2);
            reveal_with_fuel(crate::text::trim_end, 2);
        }
    } else {
        assert(trim("-"@) == "-"@) by {
            reveal_with_fuel(crate::text::trim_start, 2);
            reveal_with_fuel(crate::text::trim_end, 2);
        }
    }
}

/// The arms collected from these lines, one record each.
pub open spec fn arms_read(records: Seq<Seq<char>>) -> Seq<ArmView>
    decreases records.len(),
{
    if records.len() == 0 {
        Seq::empty()
    } else {
        let before = arms_read(records.drop_last());
        match split_once(records.last(), ':') {
            Some((_, value)) => match brda_of(value) {
                Some(arm) => take_arm(before, arm),
                None => before,
            },
            None => before,
        }
    }
}

proof fn new_arms_go_last(arms: Seq<ArmView>, arm: ArmView)
    requires
        forall|i: int| 0 <= i < arms.len() ==> (#[trigger] arms[i]).branch != arm.branch,
    ensures
        arm_at(arms, arm) == arms.len(),
    decreases arms.len(),
{
    if arms.len() > 0 {
        let tail = arms.skip(1);
        assert(arms[0].branch != arm.branch);
        assert forall|i: int| 0 <= i < tail.len() implies (#[trigger] tail[i]).branch
            != arm.branch by {
            assert(tail[i] == arms[i + 1]);
        }
        new_arms_go_last(tail, arm);
    }
}

pub(crate) proof fn first_arms_read(number: u32, branch: Branch, n: int)
    requires
        0 <= n <= branch.total,
    ensures
        arms_read(Seq::new(n as nat, |i: int| brda_line(number, branch, i))) == Seq::new(
            n as nat,
            |i: int| arm_of(number, branch, i),
        ),
        arms_on(Seq::new(n as nat, |i: int| arm_of(number, branch, i)), number) == n,
        taken_on(Seq::new(n as nat, |i: int| arm_of(number, branch, i)), number) == if n
            < branch.covered {
            n
        } else {
            branch.covered as int
        },
    decreases n,
{
    let records = Seq::new(n as nat, |i: int| brda_line(number, branch, i));
    let arms = Seq::new(n as nat, |i: int| arm_of(number, branch, i));
    if n > 0 {
        first_arms_read(number, branch, n - 1);
        let fewer = Seq::new((n - 1) as nat, |i: int| arm_of(number, branch, i));
        assert(records.drop_last() =~= Seq::new(
            (n - 1) as nat,
            |i: int| brda_line(number, branch, i),
        ));
        assert(arms.drop_last() =~= fewer);
        arm_reads_back(number, branch, n - 1);
        let arm = arm_of(number, branch, n - 1);
        decimal_reads_back((n - 1) as nat);
        assert forall|i: int| 0 <= i < fewer.len() implies (#[trigger] fewer[i]).branch
            != arm.branch by {
            decimal_reads_back(i as nat);
        }
        new_arms_go_last(fewer, arm);
        assert(fewer.push(arm) =~= arms);
    } else {
        assert(records =~= Seq::empty());
        assert(arms =~= Seq::empty());
    }
}

/// The records that a line's branches are written as read as those branches:
/// none beyond the total is covered.
pub proof fn branch_records_read_back(line: Line)
    requires
        line.branch is Some,
        line.branch->0.total > 0,
    ensures
        branch_on(arms_read(brda_lines(line)), line.number) == Some(
            Branch {
                covered: if line.branch->0.covered <= line.branch->0.total {
                    line.branch->0.covered
                } else {
                    line.branch->0.total
                },
                total: line.branch->0.total,
            },
        ),
{
    let b = line.branch->0;
    first_arms_read(line.number, b, b.total as int);
}

} // verus!
