//! Go coverage profile — what `go test -coverprofile=coverage.out` writes.
//!
//! ```text
//! mode: set
//! github.com/acme/proj/main.go:12.13,15.2 2 1
//! ```
//!
//! A header naming the counting mode, then one line per basic block:
//! `<file>:<startLine>.<startCol>,<endLine>.<endCol> <statements> <count>`.
//!
//! Two things make this format awkward. Paths are import paths, which match
//! nothing in the repository tree: the reader cannot guess the module path and
//! says so. And blocks cover ranges, not lines: every line in the range is
//! marked, and the approximation is reported.
//!
//! Read-only: writing a profile would mean inventing column positions and
//! statement counts.

use vstd::prelude::*;

use crate::error::{parse_error, Error, ErrorView};
use crate::formats::coverage::{find_line, line_at};
use crate::model::coverage::{
    file_at, find_file, sort_doc, CoverageDoc, CoverageDocView, FileCoverage, FileCoverageView,
    Line,
};
use crate::order::{sort, sorted};
use crate::paths::{normalize, normalized};
use crate::registry::{read_result, Doc, DocView};
use crate::text::{
    begins, chars, concat3, contains_char, cut, from_utf8_lossy, has_char, is_white, line_list,
    lines, parse_u32, parse_u32_spec, parse_u64, parse_u64_spec, rcut, rsplit_once, same, slice,
    split_once, starts_with, strip_prefix, text_in, trim, trimmed, white, without_prefix,
};
use crate::value::{any_in, append_one, empty_list, flat, opt_list, replace_at, Value};
use crate::warn::{CtxView, FormatCtx};

verus! {

pub const FORMAT: &'static str = "go-coverprofile";

// ---------------------------------------------------------------------------
// Blocks
// ---------------------------------------------------------------------------

/// One basic block.
#[derive(Debug, PartialEq, Eq)]
pub struct Block {
    pub file: String,
    pub start_line: u32,
    pub end_line: u32,
    pub count: u64,
}

/// The content of a [`Block`].
pub struct BlockView {
    pub file: Seq<char>,
    pub start_line: u32,
    pub end_line: u32,
    pub count: u64,
}

impl DeepView for Block {
    type V = BlockView;

    open spec fn deep_view(&self) -> BlockView {
        BlockView {
            file: self.file@,
            start_line: self.start_line,
            end_line: self.end_line,
            count: self.count,
        }
    }
}

/// The position of the last white space, or -1 without one.
pub open spec fn last_white(s: Seq<char>) -> int
    decreases s.len(),
{
    if s.len() == 0 {
        -1
    } else if is_white(s.last()) {
        s.len() - 1
    } else {
        last_white(s.drop_last())
    }
}

/// What stands before and after the last white space.
pub open spec fn split_white(s: Seq<char>) -> Option<(Seq<char>, Seq<char>)> {
    let i = last_white(s);
    if i >= 0 {
        Some((s.take(i), s.skip(i + 1)))
    } else {
        None
    }
}

/// The line of `12.13`.
pub open spec fn line_of(position: Seq<char>) -> Option<u32> {
    match split_once(position, '.') {
        Some((line, _)) => parse_u32_spec(line),
        None => parse_u32_spec(position),
    }
}

/// The block of `github.com/acme/proj/main.go:12.13,15.2 2 1`, read from the
/// right: the two trailing numbers are unambiguous, the path is whatever
/// precedes the last colon.
pub open spec fn block_of(line: Seq<char>) -> Option<BlockView> {
    match split_white(line) {
        None => None,
        Some((rest, count)) => match split_white(rest) {
            None => None,
            Some((located, statements)) => match (
                parse_u64_spec(count),
                parse_u64_spec(statements),
                rsplit_once(located, ':'),
            ) {
                (Some(count), Some(_), Some((file, span))) => match split_once(span, ',') {
                    None => None,
                    Some((start, end)) => match (line_of(start), line_of(end)) {
                        (Some(start_line), Some(end_line)) => if file.len() > 0 && end_line
                            >= start_line {
                            Some(BlockView { file, start_line, end_line, count })
                        } else {
                            None
                        },
                        _ => None,
                    },
                },
                _ => None,
            },
        },
    }
}

fn cut_white(s: &str) -> (r: Option<(String, String)>)
    ensures
        r.deep_view() == split_white(s@),
{
    let cs = chars(s);
    let mut i: usize = cs.len();
    assert(cs@.take(i as int) =~= cs@);
    while i > 0 && !white(cs[i - 1])
        invariant
            cs@ == s@,
            i <= cs@.len(),
            last_white(s@) == last_white(cs@.take(i as int)),
        decreases i,
    {
        assert(cs@.take(i as int).drop_last() =~= cs@.take(i as int - 1));
        i = i - 1;
    }
    if i == 0 {
        return None;
    }
    assert(last_white(s@) == i - 1);
    let before = slice(&cs, 0, i - 1);
    let after = slice(&cs, i, cs.len());
    assert(before@ =~= s@.take(i - 1));
    assert(after@ =~= s@.skip(i as int));
    Some((before, after))
}

fn parse_position(position: &str) -> (r: Option<u32>)
    ensures
        r == line_of(position@),
{
    match cut(position, '.') {
        Some((line, _)) => parse_u32(line.as_str()),
        None => parse_u32(position),
    }
}

pub fn parse_block(line: &str) -> (r: Option<Block>)
    ensures
        r.deep_view() == block_of(line@),
{
    let (rest, count) = match cut_white(line) {
        Some(pair) => pair,
        None => {
            return None;
        },
    };
    let (located, statements) = match cut_white(rest.as_str()) {
        Some(pair) => pair,
        None => {
            return None;
        },
    };
    match (
        parse_u64(count.as_str()),
        parse_u64(statements.as_str()),
        rcut(located.as_str(), ':'),
    ) {
        (Some(count), Some(_), Some((file, span))) => match cut(span.as_str(), ',') {
            None => None,
            Some((start, end)) => match (
                parse_position(start.as_str()),
                parse_position(end.as_str()),
            ) {
                (Some(start_line), Some(end_line)) => if !file.as_str().is_empty() && end_line
                    >= start_line {
                    Some(Block { file, start_line, end_line, count })
                } else {
                    None
                },
                _ => None,
            },
        },
        _ => None,
    }
}

/// A Go module path starts with a host, so its first segment carries a dot and
/// is not the only one. A repository-relative path has no such segment.
pub open spec fn import_path(path: Seq<char>) -> bool {
    match split_once(path, '/') {
        Some((host, _)) => contains_char(host, '.'),
        None => false,
    }
}

pub fn looks_like_import_path(path: &str) -> (r: bool)
    ensures
        r == import_path(path@),
{
    match cut(path, '/') {
        Some((host, _)) => has_char(host.as_str(), '.'),
        None => false,
    }
}

// ---------------------------------------------------------------------------
// Lines
// ---------------------------------------------------------------------------

pub open spec fn higher(a: u64, b: u64) -> u64 {
    if a < b {
        b
    } else {
        a
    }
}

/// The lines with one marked. Two blocks can share a line — `} else {` ends one
/// and starts another: the highest count is kept.
pub open spec fn marked(lines: Seq<Line>, number: u32, count: u64) -> Seq<Line> {
    let at = line_at(lines, number);
    if at < lines.len() {
        lines.update(at, Line { hits: higher(lines[at].hits, count), ..lines[at] })
    } else {
        lines.push(Line { number, hits: count, branch: None })
    }
}

/// The lines with `n` of them marked, from `start` on.
pub open spec fn span_marked(lines: Seq<Line>, start: u32, n: nat, count: u64) -> Seq<Line>
    decreases n,
{
    if n == 0 {
        lines
    } else {
        marked(
            span_marked(lines, start, (n - 1) as nat, count),
            (start + n - 1) as u32,
            count,
        )
    }
}

/// The files with one more block. Paths are as the profile has them.
pub open spec fn block_marked(
    files: Seq<FileCoverageView>,
    block: BlockView,
) -> Seq<FileCoverageView> {
    let at = file_at(files, block.file);
    let n = (block.end_line - block.start_line + 1) as nat;
    if at < files.len() {
        files.update(
            at,
            FileCoverageView {
                lines: span_marked(files[at].lines, block.start_line, n, block.count),
                ..files[at]
            },
        )
    } else {
        files.push(
            FileCoverageView {
                lines: span_marked(Seq::empty(), block.start_line, n, block.count),
                ..FileCoverageView::of(block.file)
            },
        )
    }
}

/// The files of these lines; one that is no block is left out.
pub open spec fn files_of(all: Seq<Seq<char>>) -> Seq<FileCoverageView>
    decreases all.len(),
{
    if all.len() == 0 {
        Seq::empty()
    } else {
        match block_of(all.last()) {
            Some(block) => block_marked(files_of(all.drop_last()), block),
            None => files_of(all.drop_last()),
        }
    }
}

/// Whether a line holds a block of more than one line.
pub open spec fn spans(line: Seq<char>) -> bool {
    match block_of(line) {
        Some(block) => block.end_line > block.start_line,
        None => false,
    }
}

pub fn mark(lines: &mut Vec<Line>, number: u32, count: u64)
    ensures
        final(lines).deep_view() == marked(old(lines).deep_view(), number, count),
{
    let at = find_line(lines, number);
    if at < lines.len() {
        let mut line = lines[at];
        if line.hits < count {
            line.hits = count;
        }
        replace_at(lines, at, line);
    } else {
        append_one(lines, Line { number, hits: count, branch: None });
    }
}

fn mark_span(lines: &mut Vec<Line>, block: &Block)
    requires
        block.start_line <= block.end_line,
    ensures
        final(lines).deep_view() == span_marked(
            old(lines).deep_view(),
            block.start_line,
            (block.end_line - block.start_line + 1) as nat,
            block.count,
        ),
{
    let ghost start = lines.deep_view();
    let count: u64 = block.end_line as u64 - block.start_line as u64 + 1;
    let mut i: u64 = 0;
    while i < count
        invariant
            i <= count,
            count == block.end_line - block.start_line + 1,
            lines.deep_view() == span_marked(start, block.start_line, i as nat, block.count),
        decreases count - i,
    {
        mark(lines, (block.start_line as u64 + i) as u32, block.count);
        i = i + 1;
    }
}

fn mark_block(files: &mut Vec<FileCoverage>, block: &Block)
    requires
        block.start_line <= block.end_line,
    ensures
        final(files).deep_view() == block_marked(old(files).deep_view(), block.deep_view()),
{
    let ghost before = files.deep_view();
    let at = find_file(files, block.file.as_str());
    if at < files.len() {
        mark_span(&mut files[at].lines, block);
        assert(files.deep_view() =~= block_marked(before, block.deep_view()));
    } else {
        let mut file = FileCoverage::new(block.file.as_str());
        mark_span(&mut file.lines, block);
        append_one(files, file);
    }
}

// ---------------------------------------------------------------------------
// Reading
// ---------------------------------------------------------------------------

/// A line worth reading, trimmed.
pub open spec fn kept(line: Seq<char>) -> Option<Seq<char>> {
    if trim(line).len() == 0 || starts_with(trim(line), "//"@) {
        None
    } else {
        Some(trim(line))
    }
}

pub open spec fn useful(all: Seq<Seq<char>>) -> Seq<Seq<char>> {
    flat(all, |l: Seq<char>| opt_list(kept(l)))
}

pub open spec fn located(files: Seq<FileCoverageView>) -> Seq<FileCoverageView> {
    sorted::<FileCoverage>(files).map_values(
        |f: FileCoverageView| FileCoverageView { path: normalized(f.path), ..f },
    )
}

/// The document of the blocks, and what is to be said about it.
pub open spec fn read_blocks(blocks: Seq<Seq<char>>, ctx: CtxView) -> (
    Result<DocView, ErrorView>,
    CtxView,
) {
    let files = files_of(blocks);
    if files.len() == 0 {
        (Err(parse_error(FORMAT@, "no coverage block after the `mode:` header"@)), ctx)
    } else {
        (
            Ok(
                DocView::Coverage(
                    sort_doc(
                        CoverageDocView { files: located(files), ..CoverageDocView::empty() },
                    ),
                ),
            ),
            ctx.degraded_if(
                any_in(blocks, |l: Seq<char>| spans(l)),
                "go-coverprofile: blocks cover a line range and count statements, not lines; every line of a block is marked, so blank lines, comments and closing braces inside it are counted as executable"@,
            ).lossy_if(
                !ctx.path_rewriting && any_in(
                    files,
                    |f: FileCoverageView| import_path(f.path),
                ),
                "go-coverprofile: paths are Go import paths, not repository paths; pass --strip-prefix <module path> or the platform will match none of them"@,
            ),
        )
    }
}

/// The document that reading these lines gives, or the refusal, and what is to
/// be said about it.
pub open spec fn read_spec(all: Seq<Seq<char>>, ctx: CtxView) -> (
    Result<DocView, ErrorView>,
    CtxView,
) {
    let rows = useful(all);
    if rows.len() == 0 {
        (Err(parse_error(FORMAT@, "the profile is empty"@)), ctx)
    } else {
        match strip_prefix(rows[0], "mode:"@) {
            None => (
                Err(
                    parse_error(
                        FORMAT@,
                        "expected a `mode:` header on the first line, found '"@ + rows[0] + "'"@,
                    ),
                ),
                ctx,
            ),
            Some(rest) => {
                let mode = trim(rest);
                if mode != "set"@ && mode != "count"@ && mode != "atomic"@ {
                    (
                        Err(
                            parse_error(
                                FORMAT@,
                                "unknown counting mode '"@ + mode
                                    + "' (expected set, count or atomic)"@,
                            ),
                        ),
                        ctx,
                    )
                } else {
                    read_blocks(
                        rows.skip(1),
                        ctx.degraded_if(
                            mode == "set"@,
                            "go-coverprofile: the profile was written in `set` mode, which records only whether a block ran; every covered line reports a single hit"@,
                        ),
                    )
                }
            },
        }
    }
}

fn useful_lines(text: &str) -> (r: Vec<String>)
    ensures
        r.deep_view() == useful(lines(text@)),
{
    let list = line_list(text);
    let ghost all = list.deep_view();
    let mut out: Vec<String> = empty_list();
    let mut i: usize = 0;
    assert(all.take(0) =~= Seq::empty());
    while i < list.len()
        invariant
            i <= list@.len(),
            all == list.deep_view(),
            out.deep_view() == useful(all.take(i as int)),
        decreases list@.len() - i,
    {
        assert(all.take(i as int + 1).drop_last() =~= all.take(i as int));
        let ghost before = out.deep_view();
        let line = trimmed(list[i].as_str());
        if !line.as_str().is_empty() && !begins(line.as_str(), "//") {
            append_one(&mut out, line);
        }
        i = i + 1;
        assert(out.deep_view() =~= before + opt_list(kept(all[i as int - 1])));
    }
    assert(all.take(i as int) =~= all);
    out
}

fn any_import(files: &Vec<FileCoverage>) -> (r: bool)
    ensures
        r == any_in(files.deep_view(), |f: FileCoverageView| import_path(f.path)),
{
    let mut i: usize = 0;
    while i < files.len()
        invariant
            i <= files@.len(),
            forall|j: int| 0 <= j < i ==> !import_path((#[trigger] files.deep_view()[j]).path),
        decreases files@.len() - i,
    {
        if looks_like_import_path(files[i].path.as_str()) {
            assert(import_path(files.deep_view()[i as int].path));
            return true;
        }
        i = i + 1;
    }
    false
}

fn build(files: Vec<FileCoverage>) -> (r: CoverageDoc)
    ensures
        r.deep_view() == sort_doc(
            CoverageDocView { files: located(files.deep_view()), ..CoverageDocView::empty() },
        ),
{
    let mut files = files;
    let ghost goal = located(files.deep_view());
    sort(&mut files);
    let ghost all = files.deep_view();
    let mut doc = CoverageDoc::default();
    let mut i: usize = 0;
    assert(doc.files.deep_view() =~= goal.take(0));
    while i < files.len()
        invariant
            i <= files@.len(),
            all == files.deep_view(),
            goal == all.map_values(
                |f: FileCoverageView| FileCoverageView { path: normalized(f.path), ..f },
            ),
            doc.deep_view() == (CoverageDocView {
                files: goal.take(i as int),
                ..CoverageDocView::empty()
            }),
        decreases files@.len() - i,
    {
        let mut file = files[i].copy();
        file.path = normalize(file.path.as_str());
        append_one(&mut doc.files, file);
        i = i + 1;
        assert(doc.files.deep_view() =~= goal.take(i as int));
    }
    assert(goal.take(i as int) =~= goal);
    doc.sort();
    doc
}

/// Reads the rows `from` on.
fn read_rows(rows: &Vec<String>, from: usize, ctx: &mut FormatCtx) -> (r: Result<Doc, Error>)
    requires
        from <= rows@.len(),
    ensures
        (read_result(r), final(ctx)@) == read_blocks(
            rows.deep_view().skip(from as int),
            old(ctx)@,
        ),
{
    let ghost all = rows.deep_view().skip(from as int);
    let mut files: Vec<FileCoverage> = empty_list();
    let mut spanned = false;
    let mut i: usize = from;
    assert(all.take(0) =~= Seq::empty());
    while i < rows.len()
        invariant
            from <= i <= rows@.len(),
            all == rows.deep_view().skip(from as int),
            files.deep_view() == files_of(all.take(i - from)),
            spanned ==> any_in(all, |l: Seq<char>| spans(l)),
            !spanned ==> forall|j: int| 0 <= j < i - from ==> !spans(#[trigger] all[j]),
        decreases rows@.len() - i,
    {
        assert(all.take(i - from + 1).drop_last() =~= all.take(i - from));
        assert(all[i - from] == rows[i as int]@);
        if let Some(block) = parse_block(rows[i].as_str()) {
            if block.end_line > block.start_line {
                assert(spans(all[i - from]));
                spanned = true;
            }
            mark_block(&mut files, &block);
        }
        i = i + 1;
    }
    assert(all.take(i - from) =~= all);
    if files.len() == 0 {
        return Err(Error::parse(FORMAT, "no coverage block after the `mode:` header"));
    }
    if spanned {
        ctx.degraded(
            "go-coverprofile: blocks cover a line range and count statements, not lines; every line of a block is marked, so blank lines, comments and closing braces inside it are counted as executable",
        );
    }
    if !ctx.path_rewriting_requested() && any_import(&files) {
        ctx.lossy(
            "go-coverprofile: paths are Go import paths, not repository paths; pass --strip-prefix <module path> or the platform will match none of them",
        );
    }
    Ok(Doc::Coverage(build(files)))
}

/// Reads a profile.
pub fn read_text(text: &str, ctx: &mut FormatCtx) -> (r: Result<Doc, Error>)
    ensures
        (read_result(r), final(ctx)@) == read_spec(lines(text@), old(ctx)@),
{
    let rows = useful_lines(text);
    if rows.len() == 0 {
        return Err(Error::parse(FORMAT, "the profile is empty"));
    }
    let header = rows[0].as_str();
    let mode = match without_prefix(header, "mode:") {
        Some(rest) => trimmed(rest.as_str()),
        None => {
            return Err(
                Error::parse(
                    FORMAT,
                    concat3(
                        "expected a `mode:` header on the first line, found '",
                        header,
                        "'",
                    ).as_str(),
                ),
            );
        },
    };
    let mode = mode.as_str();
    if !same(mode, "set") && !same(mode, "count") && !same(mode, "atomic") {
        return Err(
            Error::parse(
                FORMAT,
                concat3(
                    "unknown counting mode '",
                    mode,
                    "' (expected set, count or atomic)",
                ).as_str(),
            ),
        );
    }
    if same(mode, "set") {
        ctx.degraded(
            "go-coverprofile: the profile was written in `set` mode, which records only whether a block ran; every covered line reports a single hit",
        );
    }
    read_rows(&rows, 1, ctx)
}

pub fn read(input: &[u8], ctx: &mut FormatCtx) -> (r: Result<Doc, Error>)
    ensures
        (read_result(r), final(ctx)@) == read_spec(lines(text_in(input@)), old(ctx)@),
{
    let text = from_utf8_lossy(input);
    read_text(text.as_str(), ctx)
}

// ---------------------------------------------------------------------------
// Laws
// ---------------------------------------------------------------------------

/// The hits of a line, where it is there.
pub open spec fn hits_on(lines: Seq<Line>, number: u32) -> Option<u64> {
    let at = line_at(lines, number);
    if at < lines.len() {
        Some(lines[at].hits)
    } else {
        None
    }
}

pub(crate) proof fn line_at_props(lines: Seq<Line>, number: u32)
    ensures
        0 <= line_at(lines, number) <= lines.len(),
        line_at(lines, number) < lines.len() ==> lines[line_at(lines, number)].number == number,
        forall|i: int|
            0 <= i < line_at(lines, number) ==> (#[trigger] lines[i]).number != number,
    decreases lines.len(),
{
    if lines.len() > 0 && lines[0].number != number {
        let tail = lines.skip(1);
        line_at_props(tail, number);
        assert forall|i: int| 0 <= i < line_at(lines, number) implies (#[trigger] lines[i]).number
            != number by {
            if i > 0 {
                assert(lines[i] == tail[i - 1]);
            }
        }
        if line_at(tail, number) < tail.len() {
            assert(lines[line_at(tail, number) + 1] == tail[line_at(tail, number)]);
        }
    }
}

/// A marked line has the higher of its two counts; no other line changes.
pub proof fn marking_keeps_the_highest_count(
    lines: Seq<Line>,
    number: u32,
    count: u64,
    other: u32,
)
    ensures
        hits_on(marked(lines, number, count), other) == if other == number {
            Some(
                match hits_on(lines, number) {
                    Some(hits) => higher(hits, count),
                    None => count,
                },
            )
        } else {
            hits_on(lines, other)
        },
{
    let after = marked(lines, number, count);
    line_at_props(lines, number);
    line_at_props(lines, other);
    line_at_props(after, other);
    let at = line_at(lines, number);
    let there = line_at(lines, other);
    let now = line_at(after, other);
    if now < there && now < lines.len() {
        assert(after[now].number == other);
        assert(lines[now].number == after[now].number);
    }
    if there < now && there < lines.len() {
        assert(after[there].number == lines[there].number);
    }
    if other == number && at == lines.len() {
        assert(after[at].number == number);
    }
}

/// Two blocks that share a line count the same whichever comes first.
pub proof fn blocks_share_lines_in_any_order(
    lines: Seq<Line>,
    number: u32,
    a: u64,
    b: u64,
    other: u32,
)
    ensures
        hits_on(marked(marked(lines, number, a), number, b), other) == hits_on(
            marked(marked(lines, number, b), number, a),
            other,
        ),
{
    marking_keeps_the_highest_count(lines, number, a, other);
    marking_keeps_the_highest_count(lines, number, b, other);
    marking_keeps_the_highest_count(marked(lines, number, a), number, b, other);
    marking_keeps_the_highest_count(marked(lines, number, b), number, a, other);
}

} // verus!
