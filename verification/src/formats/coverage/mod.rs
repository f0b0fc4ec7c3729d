//! Coverage reports.

use vstd::prelude::*;

use crate::model::coverage::{Function, FunctionView, Line};

pub mod clover;
pub mod clover_laws;
pub mod clover_trip;
pub mod cobertura;
pub mod cobertura_laws;
pub mod cobertura_trip;
pub mod gocover;
pub mod gocover_laws;
pub mod istanbul;
pub mod istanbul_laws;
pub mod jacoco;
pub mod jacoco_laws;
pub mod jacoco_trip;
pub mod lcov;
pub mod lcov_laws;
pub mod lcov_trip;
pub mod packages;

verus! {

/// How many functions ran.
pub open spec fn reached(functions: Seq<FunctionView>) -> nat
    decreases functions.len(),
{
    if functions.len() == 0 {
        0
    } else {
        reached(functions.drop_last()) + if functions.last().hits > 0 {
            1nat
        } else {
            0nat
        }
    }
}

pub fn count_reached(functions: &Vec<Function>) -> (r: u64)
    ensures
        r == reached(functions.deep_view()),
        r <= functions@.len(),
{
    let ghost all = functions.deep_view();
    let mut n: u64 = 0;
    let mut i: usize = 0;
    assert(all.take(0) =~= Seq::empty());
    while i < functions.len()
        invariant
            i <= functions@.len(),
            all == functions.deep_view(),
            n == reached(all.take(i as int)),
            n <= i,
        decreases functions@.len() - i,
    {
        assert(all.take(i as int + 1).drop_last() =~= all.take(i as int));
        if functions[i].hits > 0 {
            n = n + 1;
        }
        i = i + 1;
    }
    assert(all.take(i as int) =~= all);
    n
}

/// The position of the line of this number, or the length.
pub open spec fn line_at(lines: Seq<Line>, number: u32) -> int
    decreases lines.len(),
{
    if lines.len() == 0 || lines[0].number == number {
        0
    } else {
        1 + line_at(lines.skip(1), number)
    }
}

pub fn find_line(lines: &Vec<Line>, number: u32) -> (r: usize)
    ensures
        r <= lines@.len(),
        r == line_at(lines.deep_view(), number),
{
    let ghost all = lines.deep_view();
    let mut at: usize = 0;
    assert(all.skip(0) =~= all);
    while at < lines.len() && lines[at].number != number
        invariant
            at <= lines@.len(),
            all == lines.deep_view(),
            line_at(all, number) == at + line_at(all.skip(at as int), number),
        decreases lines@.len() - at,
    {
        assert(all.skip(at as int)[0] == all[at as int]);
        assert(all.skip(at as int).skip(1) =~= all.skip(at as int + 1));
        at = at + 1;
    }
    proof {
        if at < lines@.len() {
            assert(all.skip(at as int)[0] == all[at as int]);
        }
    }
    at
}

} // verus!
