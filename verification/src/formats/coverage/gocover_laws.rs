//! What reading a Go cover profile promises.

use vstd::prelude::*;

use crate::formats::coverage::gocover::{
    block_marked, block_of, files_of, hits_on, last_white, line_of, located,
    marking_keeps_the_highest_count, read_spec, span_marked, split_white, useful, BlockView,
};
use crate::formats::coverage::lcov::digits_lack;
use crate::model::coverage::{
    file_at, file_at_props, sort_file, FileCoverage, FileCoverageView, Line,
};
use crate::order::{sorted, sorted_props, sorting_keeps_members};
use crate::paths::normalized;
use crate::registry::DocView;
use crate::text::{
    all_digits, decimal, decimal_reads_back, is_digit, is_white, lacks_char, last, last_props,
    rsplit_once, split_once_at, strip_prefix, trim, written_numbers_parse,
};
use crate::warn::CtxView;

verus! {

// ---------------------------------------------------------------------------
// Blocks
// ---------------------------------------------------------------------------

proof fn digits_are_no_white(n: nat, i: int)
    requires
        0 <= i < decimal(n).len(),
    ensures
        !is_white(decimal(n)[i]),
        decimal(n)[i] != ':' && decimal(n)[i] != ',' && decimal(n)[i] != '.',
{
    decimal_reads_back(n);
    assert(all_digits(decimal(n)));
    assert(is_digit(decimal(n)[i]));
}

proof fn split_at_last_white(before: Seq<char>, after: Seq<char>)
    requires
        forall|i: int| 0 <= i < after.len() ==> !is_white(#[trigger] after[i]),
    ensures
        split_white(before + seq![' '] + after) == Some((before, after)),
    decreases after.len(),
{
    let whole = before + seq![' '] + after;
    last_white_is_at(before, after);
    assert(whole.take(before.len() as int) =~= before);
    assert(whole.skip(before.len() as int + 1) =~= after);
}

proof fn last_white_is_at(before: Seq<char>, after: Seq<char>)
    requires
        forall|i: int| 0 <= i < after.len() ==> !is_white(#[trigger] after[i]),
    ensures
        last_white(before + seq![' '] + after) == before.len(),
    decreases after.len(),
{
    let whole = before + seq![' '] + after;
    if after.len() > 0 {
        let shorter = after.drop_last();
        assert(whole.drop_last() =~= before + seq![' '] + shorter);
        assert(whole.last() == after[after.len() - 1]);
        assert forall|i: int| 0 <= i < shorter.len() implies !is_white(#[trigger] shorter[i]) by {
            assert(shorter[i] == after[i]);
        }
        last_white_is_at(before, shorter);
    } else {
        assert(whole.last() == ' ');
    }
}

proof fn positions_have_lines(line: u32, column: u32)
    ensures
        line_of(decimal(line as nat) + seq!['.'] + decimal(column as nat)) == Some(line),
{
    let before = decimal(line as nat);
    let after = decimal(column as nat);
    digits_lack(line as nat, '.');
    lacks_char(before, '.');
    split_once_at(before, '.', after);
    assert(before + seq!['.'] + after =~= before.push('.') + after);
    written_numbers_parse(line as u64);
}

/// A block is read from `file:line.column,line.column statements count`: its file,
/// the lines it begins and ends on, and how often it ran. One that ends before it
/// begins is none.
pub proof fn blocks_are_read_from_the_right(
    file: Seq<char>,
    start: (u32, u32),
    end: (u32, u32),
    statements: u64,
    count: u64,
)
    requires
        file.len() > 0,
    ensures
        block_of(
            file + seq![':'] + (decimal(start.0 as nat) + seq!['.'] + decimal(start.1 as nat)
                + seq![','] + (decimal(end.0 as nat) + seq!['.'] + decimal(end.1 as nat)))
                + seq![' '] + decimal(statements as nat) + seq![' '] + decimal(count as nat),
        ) == if end.0 >= start.0 {
            Some(BlockView { file, start_line: start.0, end_line: end.0, count })
        } else {
            None
        },
{
    let a = decimal(start.0 as nat) + seq!['.'] + decimal(start.1 as nat);
    let b = decimal(end.0 as nat) + seq!['.'] + decimal(end.1 as nat);
    let span = a + seq![','] + b;
    let place = file + seq![':'] + span;
    let rest = place + seq![' '] + decimal(statements as nat);
    assert forall|i: int| 0 <= i < decimal(count as nat).len() implies !is_white(
        #[trigger] decimal(count as nat)[i],
    ) by {
        digits_are_no_white(count as nat, i);
    }
    assert forall|i: int| 0 <= i < decimal(statements as nat).len() implies !is_white(
        #[trigger] decimal(statements as nat)[i],
    ) by {
        digits_are_no_white(statements as nat, i);
    }
    split_at_last_white(rest, decimal(count as nat));
    split_at_last_white(place, decimal(statements as nat));
    written_numbers_parse(count);
    written_numbers_parse(statements);
    assert forall|i: int| 0 <= i < span.len() implies #[trigger] span[i] != ':' by {
        span_holds_no_colon(start, end, i);
    }
    last_props(place, ':');
    assert(place[file.len() as int] == ':');
    if last(place, ':') > file.len() {
        assert(place[last(place, ':')] == span[last(place, ':') - file.len() - 1]);
    }
    assert(place.take(file.len() as int) =~= file);
    assert(place.skip(file.len() as int + 1) =~= span);
    assert(rsplit_once(place, ':') == Some((file, span)));
    assert forall|i: int| 0 <= i < a.len() implies #[trigger] a[i] != ',' by {
        let n = decimal(start.0 as nat);
        if i < n.len() {
            digits_are_no_white(start.0 as nat, i);
        } else if i > n.len() {
            digits_are_no_white(start.1 as nat, i - n.len() - 1);
        }
    }
    lacks_char(a, ',');
    split_once_at(a, ',', b);
    assert(span =~= a.push(',') + b);
    positions_have_lines(start.0, start.1);
    positions_have_lines(end.0, end.1);
}

proof fn span_holds_no_colon(start: (u32, u32), end: (u32, u32), i: int)
    requires
        0 <= i < (decimal(start.0 as nat) + seq!['.'] + decimal(start.1 as nat) + seq![','] + (
        decimal(end.0 as nat) + seq!['.'] + decimal(end.1 as nat))).len(),
    ensures
        (decimal(start.0 as nat) + seq!['.'] + decimal(start.1 as nat) + seq![','] + (decimal(
            end.0 as nat,
        ) + seq!['.'] + decimal(end.1 as nat)))[i] != ':',
{
    let w = decimal(start.0 as nat);
    let x = decimal(start.1 as nat);
    let y = decimal(end.0 as nat);
    let z = decimal(end.1 as nat);
    if i < w.len() {
        digits_are_no_white(start.0 as nat, i);
    } else if w.len() < i < w.len() + 1 + x.len() {
        digits_are_no_white(start.1 as nat, i - w.len() - 1);
    } else if w.len() + 1 + x.len() < i < w.len() + 2 + x.len() + y.len() {
        digits_are_no_white(end.0 as nat, i - w.len() - x.len() - 2);
    } else if i > w.len() + 2 + x.len() + y.len() {
        digits_are_no_white(end.1 as nat, i - w.len() - x.len() - y.len() - 3);
    }
}

// ---------------------------------------------------------------------------
// Lines
// ---------------------------------------------------------------------------

/// Whether a row is a block of this file that holds this line.
pub open spec fn covers(row: Seq<char>, file: Seq<char>, number: u32) -> bool {
    block_of(row) matches Some(block) && block.file == file && block.start_line <= number
        <= block.end_line
}

/// The hits of a line of a file.
pub open spec fn hits_in(files: Seq<FileCoverageView>, file: Seq<char>, number: u32) -> Option<
    u64,
> {
    if file_at(files, file) < files.len() {
        hits_on(files[file_at(files, file)].lines, number)
    } else {
        None
    }
}

proof fn spans_mark_their_lines(
    lines: Seq<Line>,
    start: u32,
    n: nat,
    count: u64,
    number: u32,
)
    requires
        start + n <= u32::MAX + 1,
    ensures
        hits_on(span_marked(lines, start, n, count), number) == if start <= number < start + n {
            match hits_on(lines, number) {
                Some(hits) => if hits < count {
                    Some(count)
                } else {
                    Some(hits)
                },
                None => Some(count),
            }
        } else {
            hits_on(lines, number)
        },
    decreases n,
{
    if n > 0 {
        spans_mark_their_lines(lines, start, (n - 1) as nat, count, number);
        marking_keeps_the_highest_count(
            span_marked(lines, start, (n - 1) as nat, count),
            (start + n - 1) as u32,
            count,
            number,
        );
    }
}

proof fn one_more_block(
    files: Seq<FileCoverageView>,
    block: BlockView,
    file: Seq<char>,
    number: u32,
)
    requires
        block.start_line <= block.end_line,
    ensures
        hits_in(block_marked(files, block), file, number) == if block.file == file
            && block.start_line <= number <= block.end_line {
            match hits_in(files, file, number) {
                Some(hits) => if hits < block.count {
                    Some(block.count)
                } else {
                    Some(hits)
                },
                None => Some(block.count),
            }
        } else {
            hits_in(files, file, number)
        },
{
    let after = block_marked(files, block);
    let n = (block.end_line - block.start_line + 1) as nat;
    let at = file_at(files, block.file);
    let there = file_at(files, file);
    let now = file_at(after, file);
    file_at_props(files, block.file);
    file_at_props(files, file);
    file_at_props(after, file);
    if now < there && now < files.len() {
        assert(after[now].path == files[now].path);
    }
    if there < now && there < files.len() {
        assert(after[there].path == files[there].path);
    }
    if block.file == file {
        if at == files.len() {
            assert(after[at].path == file);
            spans_mark_their_lines(Seq::empty(), block.start_line, n, block.count, number);
            assert(hits_on(Seq::empty(), number) is None);
        } else {
            spans_mark_their_lines(files[at].lines, block.start_line, n, block.count, number);
        }
    }
}

/// Whether a count is the highest among the blocks of a file that hold a line, or
/// is missing since none holds it.
pub open spec fn is_highest(
    rows: Seq<Seq<char>>,
    file: Seq<char>,
    number: u32,
    hits: Option<u64>,
) -> bool {
    match hits {
        Some(hits) => {
            &&& exists|i: int|
                0 <= i < rows.len() && #[trigger] covers(rows[i], file, number) && block_of(
                    rows[i],
                )->0.count == hits
            &&& forall|i: int|
                0 <= i < rows.len() && #[trigger] covers(rows[i], file, number) ==> block_of(
                    rows[i],
                )->0.count <= hits
        },
        None => forall|i: int|
            0 <= i < rows.len() ==> !(#[trigger] covers(rows[i], file, number)),
    }
}

/// The higher of a count and one that may be missing.
spec fn higher(known: Option<u64>, count: u64) -> u64 {
    match known {
        Some(hits) => if hits < count {
            count
        } else {
            hits
        },
        None => count,
    }
}

proof fn one_more_row(
    rows: Seq<Seq<char>>,
    row: Seq<char>,
    file: Seq<char>,
    number: u32,
    known: Option<u64>,
)
    requires
        is_highest(rows, file, number, known),
    ensures
        !covers(row, file, number) ==> is_highest(rows.push(row), file, number, known),
        covers(row, file, number) ==> is_highest(
            rows.push(row),
            file,
            number,
            Some(higher(known, block_of(row)->0.count)),
        ),
{
    let all = rows.push(row);
    let n = rows.len() as int;
    assert(all[n] == row);
    assert forall|i: int| 0 <= i < n implies #[trigger] all[i] == rows[i] by {}
    if known is Some {
        let w = choose|i: int|
            0 <= i < rows.len() && #[trigger] covers(rows[i], file, number) && block_of(
                rows[i],
            )->0.count == known->0;
        assert(covers(all[w], file, number));
    }
    if covers(row, file, number) {
        assert(covers(all[n], file, number));
    }
}

/// A line of a file has the highest count among the blocks that hold it, and is
/// there exactly where one does.
pub proof fn lines_have_the_highest_count(
    rows: Seq<Seq<char>>,
    file: Seq<char>,
    number: u32,
)
    ensures
        is_highest(rows, file, number, hits_in(files_of(rows), file, number)),
    decreases rows.len(),
{
    if rows.len() == 0 {
        assert(file_at(files_of(rows), file) == 0);
    } else {
        let head = rows.drop_last();
        lines_have_the_highest_count(head, file, number);
        one_more_row(head, rows.last(), file, number, hits_in(files_of(head), file, number));
        assert(head.push(rows.last()) =~= rows);
        if let Some(block) = block_of(rows.last()) {
            one_more_block(files_of(head), block, file, number);
        }
    }
}

/// Every file that a block names is in the report, at its normalized path, with
/// the lines its blocks hold.
pub proof fn blocks_become_lines(all: Seq<Seq<char>>, ctx: CtxView, i: int)
    requires
        read_spec(all, ctx).0 is Ok,
        0 <= i < useful(all).skip(1).len(),
        block_of(useful(all).skip(1)[i]) is Some,
    ensures
        match read_spec(all, ctx).0 {
            Ok(DocView::Coverage(doc)) => {
                let rows = useful(all).skip(1);
                let file = block_of(rows[i])->0.file;
                let files = files_of(rows);
                exists|k: int|
                    0 <= k < doc.files.len() && (#[trigger] doc.files[k]).path == normalized(file)
                        && file_at(files, file) < files.len()
                        && doc.files[k].lines.to_multiset() == files[file_at(
                        files,
                        file,
                    )].lines.to_multiset()
            },
            _ => false,
        },
{
    let rows = useful(all).skip(1);
    let block = block_of(rows[i])->0;
    let files = files_of(rows);
    lines_have_the_highest_count(rows, block.file, block.start_line);
    assert(covers(rows[i], block.file, block.start_line));
    let at = file_at(files, block.file);
    file_at_props(files, block.file);
    let order = sorted::<FileCoverage>(files);
    sorted_props::<FileCoverage>(files);
    assert(files.contains(files[at]));
    sorting_keeps_members::<FileCoverage>(files, files[at]);
    let p = choose|p: int| 0 <= p < order.len() && order[p] == files[at];
    let placed = located(files);
    let own = placed[p];
    assert(own.path == normalized(block.file) && own.lines == files[at].lines);
    assert(placed.contains(own));
    sorting_keeps_members::<FileCoverage>(placed, own);
    sorted_props::<FileCoverage>(placed);
    let last = sorted::<FileCoverage>(placed);
    let k = choose|k: int| 0 <= k < last.len() && last[k] == own;
    sorted_props::<Line>(own.lines);
    let doc = read_spec(all, ctx).0->Ok_0->Coverage_0;
    assert(doc.files[k] == sort_file(own));
}

/// A profile begins with its mode, which is one of three; anything else is
/// refused.
pub proof fn profiles_begin_with_their_mode(all: Seq<Seq<char>>, ctx: CtxView)
    ensures
        read_spec(all, ctx).0 is Ok ==> useful(all).len() > 0 && (strip_prefix(
            useful(all)[0],
            "mode:"@,
        ) matches Some(mode) && (trim(mode) == "set"@ || trim(mode) == "count"@ || trim(mode)
            == "atomic"@)),
{
}

} // verus!
