//! What the operations on text promise.

use vstd::prelude::*;

use crate::text::{
    find_text, first_props, is_white, join, last, last_props, lex_lt, lower, rsplit_once, split,
    split_once, starts_with, strip_prefix, trim, trim_end, trim_start,
};

verus! {

// ---------------------------------------------------------------------------
// Margins
// ---------------------------------------------------------------------------

/// Whether a text is white space alone.
pub open spec fn all_white(s: Seq<char>) -> bool {
    forall|i: int| 0 <= i < s.len() ==> is_white(#[trigger] s[i])
}

proof fn left_margin(s: Seq<char>) -> (n: int)
    ensures
        0 <= n <= s.len(),
        trim_start(s) == s.skip(n),
        all_white(s.take(n)),
        n < s.len() ==> !is_white(s[n]),
    decreases s.len(),
{
    if s.len() > 0 && is_white(s[0]) {
        let m = left_margin(s.skip(1));
        assert(s.skip(1).skip(m) =~= s.skip(m + 1));
        assert forall|i: int| 0 <= i < m + 1 implies is_white(#[trigger] s.take(m + 1)[i]) by {
            if i > 0 {
                assert(s.skip(1).take(m)[i - 1] == s[i]);
            }
        }
        m + 1
    } else {
        assert(s.skip(0) =~= s);
        0
    }
}

proof fn right_margin(s: Seq<char>) -> (n: int)
    ensures
        0 <= n <= s.len(),
        trim_end(s) == s.take(n),
        all_white(s.skip(n)),
        n > 0 ==> !is_white(s[n - 1]),
    decreases s.len(),
{
    if s.len() > 0 && is_white(s.last()) {
        let head = s.drop_last();
        let n = right_margin(head);
        assert(head.take(n) =~= s.take(n));
        assert forall|i: int| 0 <= i < s.len() - n implies is_white(#[trigger] s.skip(n)[i]) by {
            if i < head.len() - n {
                assert(head.skip(n)[i] == s[n + i]);
            }
        }
        n
    } else {
        assert(s.take(s.len() as int) =~= s);
        s.len() as int
    }
}

/// Whether a text is another between two stretches of white space.
pub open spec fn is_between_margins(s: Seq<char>, inner: Seq<char>, i: int, j: int) -> bool {
    0 <= i <= j <= s.len() && inner == s.subrange(i, j) && all_white(s.take(i)) && all_white(
        s.skip(j),
    )
}

/// Trimming takes white space off both ends and nothing else, and leaves none
/// there.
pub proof fn trimming_takes_the_margins(s: Seq<char>)
    ensures
        exists|i: int, j: int| #[trigger] is_between_margins(s, trim(s), i, j),
        trim(s).len() > 0 ==> !is_white(trim(s)[0]) && !is_white(trim(s).last()),
{
    let i = left_margin(s);
    let rest = s.skip(i);
    let n = right_margin(rest);
    assert(trim(s) =~= s.subrange(i, i + n));
    assert(s.skip(i + n) =~= rest.skip(n));
    assert(is_between_margins(s, trim(s), i, i + n));
}

// ---------------------------------------------------------------------------
// Parts
// ---------------------------------------------------------------------------

/// A text is split at the first occurrence of a character, and without one not at
/// all.
pub proof fn texts_split_at_the_first(s: Seq<char>, c: char)
    ensures
        match split_once(s, c) {
            Some((before, after)) => before + seq![c] + after == s && forall|i: int|
                0 <= i < before.len() ==> #[trigger] before[i] != c,
            None => forall|i: int| 0 <= i < s.len() ==> #[trigger] s[i] != c,
        },
{
    first_props(s, c);
    if let Some((before, after)) = split_once(s, c) {
        assert(before + seq![c] + after =~= s);
    }
}

/// A text is split from the right at the last occurrence of a character, and
/// without one not at all.
pub proof fn texts_split_at_the_last(s: Seq<char>, c: char)
    ensures
        match rsplit_once(s, c) {
            Some((before, after)) => before + seq![c] + after == s && forall|i: int|
                0 <= i < after.len() ==> #[trigger] after[i] != c,
            None => forall|i: int| 0 <= i < s.len() ==> #[trigger] s[i] != c,
        },
{
    last_props(s, c);
    if let Some((before, after)) = rsplit_once(s, c) {
        assert(before + seq![c] + after =~= s);
    }
}

proof fn joining_behind_one(first: Seq<char>, rest: Seq<Seq<char>>, sep: Seq<char>)
    requires
        rest.len() > 0,
    ensures
        join(seq![first] + rest, sep) == first + sep + join(rest, sep),
    decreases rest.len(),
{
    let all = seq![first] + rest;
    assert(all.drop_last() =~= seq![first] + rest.drop_last());
    assert(all.last() == rest.last());
    if rest.len() == 1 {
        assert(all.drop_last() =~= seq![first]);
        assert(join(all.drop_last(), sep) == first);
        assert(join(rest, sep) == rest.last());
    } else {
        joining_behind_one(first, rest.drop_last(), sep);
        assert(join(all, sep) =~= first + sep + join(rest, sep));
    }
}

/// Splitting a text at a character and joining the parts with it gives the text
/// back, and no part has the character in it.
pub proof fn parts_join_to_the_whole(s: Seq<char>, c: char)
    ensures
        split(s, c).len() > 0,
        join(split(s, c), seq![c]) == s,
        forall|i: int, j: int|
            0 <= i < split(s, c).len() && 0 <= j < split(s, c)[i].len() ==> #[trigger] split(
                s,
                c,
            )[i][j] != c,
    decreases s.len(),
{
    first_props(s, c);
    let at = crate::text::first(s, c);
    if at < s.len() {
        let rest = s.skip(at + 1);
        parts_join_to_the_whole(rest, c);
        joining_behind_one(s.take(at), split(rest, c), seq![c]);
        assert(s.take(at) + seq![c] + rest =~= s);
        let all = split(s, c);
        assert forall|i: int, j: int|
            0 <= i < all.len() && 0 <= j < all[i].len() implies #[trigger] all[i][j] != c by {
            if i > 0 {
                assert(all[i] == split(rest, c)[i - 1]);
            }
        }
    }
}

/// A text is found where it first occurs, and not where it does not.
pub proof fn texts_are_found_first(s: Seq<char>, p: Seq<char>)
    ensures
        match find_text(s, p) {
            Some(at) => 0 <= at <= s.len() && starts_with(s.skip(at), p) && forall|i: int|
                0 <= i < at ==> !starts_with(#[trigger] s.skip(i), p),
            None => forall|i: int| 0 <= i <= s.len() ==> !starts_with(#[trigger] s.skip(i), p),
        },
    decreases s.len(),
{
    assert(s.skip(0) =~= s);
    if !starts_with(s, p) && s.len() > 0 {
        let tail = s.skip(1);
        texts_are_found_first(tail, p);
        if let Some(at) = find_text(tail, p) {
            assert(tail.skip(at) =~= s.skip(at + 1));
        }
        assert forall|i: int| 0 < i <= s.len() implies #[trigger] s.skip(i) == tail.skip(i - 1) by {
            assert(s.skip(i) =~= tail.skip(i - 1));
        }
    }
}

/// What stands behind a prefix is the rest of the text.
pub proof fn prefixes_leave_the_rest(s: Seq<char>, p: Seq<char>)
    ensures
        match strip_prefix(s, p) {
            Some(rest) => s == p + rest,
            None => s.len() < p.len() || exists|i: int| 0 <= i < p.len() && s[i] != #[trigger] p[i],
        },
{
    if let Some(rest) = strip_prefix(s, p) {
        assert(s =~= p + rest);
    } else if s.len() >= p.len() {
        if forall|i: int| 0 <= i < p.len() ==> s[i] == #[trigger] p[i] {
            assert(s.take(p.len() as int) =~= p);
        }
    }
}

// ---------------------------------------------------------------------------
// Case and order
// ---------------------------------------------------------------------------

/// Lower case changes the letters A to Z alone, each into its own small one.
pub proof fn only_capitals_are_lowered(s: Seq<char>, i: int)
    requires
        0 <= i < s.len(),
    ensures
        lower(s).len() == s.len(),
        'A' <= s[i] <= 'Z' ==> lower(s)[i] as int == s[i] as int + 32,
        !('A' <= s[i] <= 'Z') ==> lower(s)[i] == s[i],
{
}

/// Texts are ordered by the first character in which they differ, and one that is
/// the beginning of another comes first.
pub proof fn texts_are_ordered_by_their_first_difference(a: Seq<char>, b: Seq<char>, i: int)
    requires
        0 <= i <= a.len(),
        i <= b.len(),
        a.take(i) == b.take(i),
    ensures
        i < a.len() && i < b.len() && a[i] != b[i] ==> (lex_lt(a, b) <==> a[i] < b[i]),
        i == a.len() && i < b.len() ==> lex_lt(a, b),
        i == b.len() ==> !lex_lt(a, b),
    decreases i,
{
    if i > 0 {
        assert(a[0] == a.take(i)[0] && b[0] == b.take(i)[0]);
        assert(a.skip(1).take(i - 1) =~= a.take(i).skip(1));
        assert(b.skip(1).take(i - 1) =~= b.take(i).skip(1));
        texts_are_ordered_by_their_first_difference(a.skip(1), b.skip(1), i - 1);
    }
}

} // verus!
