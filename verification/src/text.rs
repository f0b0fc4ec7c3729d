//! Text primitives over `Seq<char>`: searching, splitting, trimming, number
//! parsing and formatting. Every reader and writer of the crate is stated in
//! terms of the specification functions of this module.

use vstd::prelude::*;
use vstd::string::*;

verus! {

/// `String::push` appends one character at the end of the string.
pub assume_specification[ String::push ](s: &mut String, c: char)
    ensures
        final(s)@ == old(s)@.push(c),
;

// ---------------------------------------------------------------------------
// Conversions between strings and character vectors
// ---------------------------------------------------------------------------

/// The characters of `s`, in order.
pub fn chars(s: &str) -> (r: Vec<char>)
    ensures
        r@ == s@,
{
    let mut out: Vec<char> = Vec::new();
    for c in it: s.chars()
        invariant
            out@ == it.seq().take(it.index() as int),
            it.seq() == s@,
    {
        out.push(c);
        assert(out@ =~= it.seq().take(it.index() as int + 1));
    }
    assert(out@ =~= s@);
    out
}

/// The string made of `cs[from..to]`.
pub fn slice(cs: &Vec<char>, from: usize, to: usize) -> (r: String)
    requires
        from <= to <= cs@.len(),
    ensures
        r@ == cs@.subrange(from as int, to as int),
{
    let mut out = String::new();
    let mut i: usize = from;
    while i < to
        invariant
            from <= i <= to <= cs@.len(),
            out@ == cs@.subrange(from as int, i as int),
        decreases to - i,
    {
        out.push(cs[i]);
        i = i + 1;
        assert(out@ =~= cs@.subrange(from as int, i as int));
    }
    out
}

/// Equality of two strings as character sequences.
pub fn same(a: &str, b: &str) -> (r: bool)
    ensures
        r == (a@ == b@),
{
    let x = chars(a);
    let y = chars(b);
    if x.len() != y.len() {
        return false;
    }
    let mut i: usize = 0;
    while i < x.len()
        invariant
            x@ == a@,
            y@ == b@,
            x@.len() == y@.len(),
            0 <= i <= x@.len(),
            forall|j: int| 0 <= j < i ==> x@[j] == y@[j],
        decreases x@.len() - i,
    {
        if x[i] != y[i] {
            return false;
        }
        i = i + 1;
    }
    assert(a@ =~= b@);
    true
}

/// A copy of `s`.
pub fn owned(s: &str) -> (r: String)
    ensures
        r@ == s@,
{
    s.to_owned()
}

pub fn concat(a: &str, b: &str) -> (r: String)
    ensures
        r@ == a@ + b@,
{
    let mut out = a.to_owned();
    out.append(b);
    out
}

pub fn concat3(a: &str, b: &str, c: &str) -> (r: String)
    ensures
        r@ == a@ + b@ + c@,
{
    let mut out = a.to_owned();
    out.append(b);
    out.append(c);
    out
}

pub fn concat4(a: &str, b: &str, c: &str, d: &str) -> (r: String)
    ensures
        r@ == a@ + b@ + c@ + d@,
{
    let mut out = concat3(a, b, c);
    out.append(d);
    out
}

pub fn concat5(a: &str, b: &str, c: &str, d: &str, e: &str) -> (r: String)
    ensures
        r@ == a@ + b@ + c@ + d@ + e@,
{
    let mut out = concat4(a, b, c, d);
    out.append(e);
    out
}

// ---------------------------------------------------------------------------
// Order
// ---------------------------------------------------------------------------

/// Lexicographic order by code point, which is also the order of the UTF-8
/// encodings.
pub open spec fn lex_lt(a: Seq<char>, b: Seq<char>) -> bool
    decreases a.len(),
{
    if b.len() == 0 {
        false
    } else if a.len() == 0 {
        true
    } else if a[0] == b[0] {
        lex_lt(a.skip(1), b.skip(1))
    } else {
        a[0] < b[0]
    }
}

pub fn less(a: &str, b: &str) -> (r: bool)
    ensures
        r == lex_lt(a@, b@),
{
    let x = chars(a);
    let y = chars(b);
    let mut i: usize = 0;
    assert(x@.skip(0) =~= x@);
    assert(y@.skip(0) =~= y@);
    loop
        invariant
            x@ == a@,
            y@ == b@,
            0 <= i <= x@.len(),
            i <= y@.len(),
            lex_lt(a@, b@) == lex_lt(x@.skip(i as int), y@.skip(i as int)),
        decreases x@.len() - i,
    {
        if i == y.len() {
            return false;
        }
        if i == x.len() {
            return true;
        }
        if x[i] != y[i] {
            return x[i] < y[i];
        }
        assert(x@.skip(i as int).skip(1) =~= x@.skip(i as int + 1));
        assert(y@.skip(i as int).skip(1) =~= y@.skip(i as int + 1));
        i = i + 1;
    }
}

/// `lex_lt` is irreflexive.
pub proof fn lex_lt_irreflexive(a: Seq<char>)
    ensures
        !lex_lt(a, a),
    decreases a.len(),
{
    if a.len() > 0 {
        lex_lt_irreflexive(a.skip(1));
    }
}

/// `lex_lt` is transitive.
pub proof fn lex_lt_transitive(a: Seq<char>, b: Seq<char>, c: Seq<char>)
    requires
        lex_lt(a, b),
        lex_lt(b, c),
    ensures
        lex_lt(a, c),
    decreases a.len(),
{
    if a.len() > 0 && b.len() > 0 && c.len() > 0 && a[0] == b[0] && b[0] == c[0] {
        lex_lt_transitive(a.skip(1), b.skip(1), c.skip(1));
    }
}

/// Two different strings are ordered one way or the other.
pub proof fn lex_lt_total(a: Seq<char>, b: Seq<char>)
    ensures
        a == b || lex_lt(a, b) || lex_lt(b, a),
    decreases a.len(),
{
    if a.len() > 0 && b.len() > 0 {
        if a[0] == b[0] {
            lex_lt_total(a.skip(1), b.skip(1));
            if a.skip(1) == b.skip(1) {
                assert(a =~= seq![a[0]] + a.skip(1));
                assert(b =~= seq![b[0]] + b.skip(1));
            }
        }
    } else if a.len() == 0 && b.len() == 0 {
        assert(a =~= b);
    }
}

// ---------------------------------------------------------------------------
// Character classes
// ---------------------------------------------------------------------------

/// The Unicode `White_Space` property.
pub open spec fn is_white(c: char) -> bool {
    let n = c as int;
    ||| 0x9 <= n <= 0xd
    ||| n == 0x20
    ||| n == 0x85
    ||| n == 0xa0
    ||| n == 0x1680
    ||| 0x2000 <= n <= 0x200a
    ||| n == 0x2028
    ||| n == 0x2029
    ||| n == 0x202f
    ||| n == 0x205f
    ||| n == 0x3000
}

pub fn white(c: char) -> (r: bool)
    ensures
        r == is_white(c),
{
    let n: u32 = c as u32;
    (0x9 <= n && n <= 0xd) || n == 0x20 || n == 0x85 || n == 0xa0 || n == 0x1680 || (0x2000 <= n
        && n <= 0x200a) || n == 0x2028 || n == 0x2029 || n == 0x202f || n == 0x205f || n == 0x3000
}

pub open spec fn is_digit(c: char) -> bool {
    '0' <= c && c <= '9'
}

pub fn digit(c: char) -> (r: bool)
    ensures
        r == is_digit(c),
{
    '0' <= c && c <= '9'
}

pub open spec fn is_upper(c: char) -> bool {
    'A' <= c && c <= 'Z'
}

pub open spec fn is_lower(c: char) -> bool {
    'a' <= c && c <= 'z'
}

/// ASCII letter or digit.
pub open spec fn is_alnum(c: char) -> bool {
    is_digit(c) || is_upper(c) || is_lower(c)
}

pub fn alnum(c: char) -> (r: bool)
    ensures
        r == is_alnum(c),
{
    ('0' <= c && c <= '9') || ('A' <= c && c <= 'Z') || ('a' <= c && c <= 'z')
}

/// The ASCII lower case of a character; other characters stay as they are.
pub open spec fn lower_char(c: char) -> char {
    if is_upper(c) {
        ((c as u8 + 32) as u8) as char
    } else {
        c
    }
}

pub fn to_lower_char(c: char) -> (r: char)
    ensures
        r == lower_char(c),
{
    if 'A' <= c && c <= 'Z' {
        ((c as u8) + 32) as char
    } else {
        c
    }
}

/// The ASCII upper case of a character; other characters stay as they are.
pub open spec fn upper_char(c: char) -> char {
    if is_lower(c) {
        ((c as u8 - 32) as u8) as char
    } else {
        c
    }
}

pub fn to_upper_char(c: char) -> (r: char)
    ensures
        r == upper_char(c),
{
    if 'a' <= c && c <= 'z' {
        ((c as u8) - 32) as char
    } else {
        c
    }
}

pub open spec fn lower(s: Seq<char>) -> Seq<char> {
    s.map_values(|c: char| lower_char(c))
}

pub fn to_lower(s: &str) -> (r: String)
    ensures
        r@ == lower(s@),
{
    let cs = chars(s);
    let mut out = String::new();
    let mut i: usize = 0;
    while i < cs.len()
        invariant
            cs@ == s@,
            i <= cs@.len(),
            out@ == lower(s@.take(i as int)),
        decreases cs@.len() - i,
    {
        out.push(to_lower_char(cs[i]));
        assert(lower(s@.take(i as int + 1)) =~= lower(s@.take(i as int)).push(
            lower_char(s@[i as int]),
        ));
        i = i + 1;
    }
    assert(s@.take(i as int) =~= s@);
    out
}

/// Equality up to ASCII case.
pub fn same_ignoring_case(a: &str, b: &str) -> (r: bool)
    ensures
        r == (lower(a@) == lower(b@)),
{
    same(to_lower(a).as_str(), to_lower(b).as_str())
}

pub open spec fn all_digits(s: Seq<char>) -> bool {
    forall|i: int| 0 <= i < s.len() ==> is_digit(#[trigger] s[i])
}

pub fn only_digits(s: &str) -> (r: bool)
    ensures
        r == all_digits(s@),
{
    let cs = chars(s);
    let mut i: usize = 0;
    while i < cs.len()
        invariant
            cs@ == s@,
            i <= cs@.len(),
            forall|j: int| 0 <= j < i ==> is_digit(#[trigger] s@[j]),
        decreases cs@.len() - i,
    {
        if !digit(cs[i]) {
            assert(!is_digit(s@[i as int]));
            return false;
        }
        i = i + 1;
    }
    true
}

// ---------------------------------------------------------------------------
// Trimming
// ---------------------------------------------------------------------------

pub open spec fn trim_start(s: Seq<char>) -> Seq<char>
    decreases s.len(),
{
    if s.len() > 0 && is_white(s[0]) {
        trim_start(s.skip(1))
    } else {
        s
    }
}

pub open spec fn trim_end(s: Seq<char>) -> Seq<char>
    decreases s.len(),
{
    if s.len() > 0 && is_white(s.last()) {
        trim_end(s.drop_last())
    } else {
        s
    }
}

/// `s` without leading and trailing white space.
pub open spec fn trim(s: Seq<char>) -> Seq<char> {
    trim_end(trim_start(s))
}

fn start_of(cs: &Vec<char>) -> (r: usize)
    ensures
        r <= cs@.len(),
        trim_start(cs@) == cs@.skip(r as int),
{
    let mut i: usize = 0;
    assert(cs@.skip(0) =~= cs@);
    while i < cs.len() && white(cs[i])
        invariant
            i <= cs@.len(),
            trim_start(cs@) == trim_start(cs@.skip(i as int)),
        decreases cs@.len() - i,
    {
        assert(cs@.skip(i as int).skip(1) =~= cs@.skip(i as int + 1));
        i = i + 1;
    }
    i
}

fn end_of(cs: &Vec<char>, from: usize) -> (r: usize)
    requires
        from <= cs@.len(),
    ensures
        from <= r <= cs@.len(),
        trim_end(cs@.skip(from as int)) == cs@.subrange(from as int, r as int),
{
    let mut i: usize = cs.len();
    assert(cs@.skip(from as int) =~= cs@.subrange(from as int, i as int));
    while i > from && white(cs[i - 1])
        invariant
            from <= i <= cs@.len(),
            trim_end(cs@.skip(from as int)) == trim_end(cs@.subrange(from as int, i as int)),
        decreases i,
    {
        assert(cs@.subrange(from as int, i as int).drop_last() =~= cs@.subrange(
            from as int,
            i as int - 1,
        ));
        i = i - 1;
    }
    i
}

pub fn trimmed(s: &str) -> (r: String)
    ensures
        r@ == trim(s@),
{
    let cs = chars(s);
    let a = start_of(&cs);
    let b = end_of(&cs, a);
    slice(&cs, a, b)
}

pub fn trimmed_start(s: &str) -> (r: String)
    ensures
        r@ == trim_start(s@),
{
    let cs = chars(s);
    let a = start_of(&cs);
    proof {
        assert(cs@.skip(a as int) =~= cs@.subrange(a as int, cs@.len() as int));
    }
    slice(&cs, a, cs.len())
}

pub fn trimmed_end(s: &str) -> (r: String)
    ensures
        r@ == trim_end(s@),
{
    let cs = chars(s);
    assert(cs@.skip(0) =~= cs@);
    let b = end_of(&cs, 0);
    slice(&cs, 0, b)
}

/// `s` without any leading `c`.
pub open spec fn drop_leading(s: Seq<char>, c: char) -> Seq<char>
    decreases s.len(),
{
    if s.len() > 0 && s[0] == c {
        drop_leading(s.skip(1), c)
    } else {
        s
    }
}

/// `s` without any trailing `c`.
pub open spec fn drop_trailing(s: Seq<char>, c: char) -> Seq<char>
    decreases s.len(),
{
    if s.len() > 0 && s.last() == c {
        drop_trailing(s.drop_last(), c)
    } else {
        s
    }
}

pub fn without_leading(s: &str, c: char) -> (r: String)
    ensures
        r@ == drop_leading(s@, c),
{
    let cs = chars(s);
    let mut i: usize = 0;
    assert(cs@.skip(0) =~= cs@);
    while i < cs.len() && cs[i] == c
        invariant
            cs@ == s@,
            i <= cs@.len(),
            drop_leading(cs@, c) == drop_leading(cs@.skip(i as int), c),
        decreases cs@.len() - i,
    {
        assert(cs@.skip(i as int).skip(1) =~= cs@.skip(i as int + 1));
        i = i + 1;
    }
    assert(cs@.skip(i as int) =~= cs@.subrange(i as int, cs@.len() as int));
    slice(&cs, i, cs.len())
}

pub fn without_trailing(s: &str, c: char) -> (r: String)
    ensures
        r@ == drop_trailing(s@, c),
{
    let cs = chars(s);
    let mut i: usize = cs.len();
    assert(cs@.subrange(0, i as int) =~= cs@);
    while i > 0 && cs[i - 1] == c
        invariant
            cs@ == s@,
            i <= cs@.len(),
            drop_trailing(cs@, c) == drop_trailing(cs@.subrange(0, i as int), c),
        decreases i,
    {
        assert(cs@.subrange(0, i as int).drop_last() =~= cs@.subrange(0, i as int - 1));
        i = i - 1;
    }
    slice(&cs, 0, i)
}

// ---------------------------------------------------------------------------
// Searching and splitting
// ---------------------------------------------------------------------------

/// The position of the first `c` in `s`, or the length of `s` without one.
pub open spec fn first(s: Seq<char>, c: char) -> int
    decreases s.len(),
{
    if s.len() == 0 || s[0] == c {
        0
    } else {
        1 + first(s.skip(1), c)
    }
}

/// What `first` is: within the sequence, at a `c`, with none before it.
pub proof fn first_props(s: Seq<char>, c: char)
    ensures
        0 <= first(s, c) <= s.len(),
        first(s, c) < s.len() ==> s[first(s, c)] == c,
        forall|j: int| 0 <= j < first(s, c) ==> #[trigger] s[j] != c,
    decreases s.len(),
{
    if s.len() > 0 && s[0] != c {
        first_props(s.skip(1), c);
        let n = first(s.skip(1), c);
        assert forall|j: int| 0 <= j < n + 1 implies #[trigger] s[j] != c by {
            if j > 0 {
                assert(s.skip(1)[j - 1] != c);
            }
        }
        if n + 1 < s.len() {
            assert(s.skip(1)[n] == s[n + 1]);
        }
    }
}

/// A text none of whose characters is a `c`.
pub proof fn lacks_char(s: Seq<char>, c: char)
    ensures
        !contains_char(s, c) <==> (forall|i: int| 0 <= i < s.len() ==> #[trigger] s[i] != c),
{
    first_props(s, c);
}

/// The position of the last `c` in `s`, or -1 without one.
pub open spec fn last(s: Seq<char>, c: char) -> int
    decreases s.len(),
{
    if s.len() == 0 {
        -1
    } else if s.last() == c {
        s.len() - 1
    } else {
        last(s.drop_last(), c)
    }
}

pub proof fn last_props(s: Seq<char>, c: char)
    ensures
        -1 <= last(s, c) < s.len(),
        last(s, c) >= 0 ==> s[last(s, c)] == c,
        forall|j: int| last(s, c) < j < s.len() ==> #[trigger] s[j] != c,
    decreases s.len(),
{
    if s.len() > 0 && s.last() != c {
        let head = s.drop_last();
        last_props(head, c);
        assert forall|j: int| last(s, c) < j < s.len() implies #[trigger] s[j] != c by {
            if j < head.len() {
                assert(head[j] == s[j]);
            }
        }
    }
}

pub fn find(cs: &Vec<char>, from: usize, c: char) -> (r: usize)
    requires
        from <= cs@.len(),
    ensures
        from <= r <= cs@.len(),
        r - from == first(cs@.skip(from as int), c),
{
    let mut i: usize = from;
    while i < cs.len() && cs[i] != c
        invariant
            from <= i <= cs@.len(),
            first(cs@.skip(from as int), c) == (i - from) + first(cs@.skip(i as int), c),
        decreases cs@.len() - i,
    {
        assert(cs@.skip(i as int).skip(1) =~= cs@.skip(i as int + 1));
        i = i + 1;
    }
    i
}

pub open spec fn contains_char(s: Seq<char>, c: char) -> bool {
    first(s, c) < s.len()
}

pub fn has_char(s: &str, c: char) -> (r: bool)
    ensures
        r == contains_char(s@, c),
{
    let cs = chars(s);
    assert(cs@.skip(0) =~= cs@);
    find(&cs, 0, c) < cs.len()
}

/// What stands before and after the first `c`.
pub open spec fn split_once(s: Seq<char>, c: char) -> Option<(Seq<char>, Seq<char>)> {
    let i = first(s, c);
    if i < s.len() {
        Some((s.take(i), s.skip(i + 1)))
    } else {
        None
    }
}

/// What stands before and after the last `c`.
pub open spec fn rsplit_once(s: Seq<char>, c: char) -> Option<(Seq<char>, Seq<char>)> {
    let i = last(s, c);
    if i >= 0 {
        Some((s.take(i), s.skip(i + 1)))
    } else {
        None
    }
}

/// A text is cut at the first separator.
pub proof fn split_once_at(before: Seq<char>, c: char, after: Seq<char>)
    requires
        !contains_char(before, c),
    ensures
        split_once(before.push(c) + after, c) == Some((before, after)),
{
    let s = before.push(c) + after;
    first_props(s, c);
    first_props(before, c);
    assert(s[before.len() as int] == c);
    if first(s, c) < before.len() {
        assert(s[first(s, c)] == before[first(s, c)]);
    }
    assert(s.take(first(s, c)) =~= before);
    assert(s.skip(first(s, c) + 1) =~= after);
}

pub fn cut(s: &str, c: char) -> (r: Option<(String, String)>)
    ensures
        r.deep_view() == split_once(s@, c),
{
    let cs = chars(s);
    assert(cs@.skip(0) =~= cs@);
    let i = find(&cs, 0, c);
    if i < cs.len() {
        assert(cs@.take(i as int) =~= cs@.subrange(0, i as int));
        assert(cs@.skip(i as int + 1) =~= cs@.subrange(i as int + 1, cs@.len() as int));
        Some((slice(&cs, 0, i), slice(&cs, i + 1, cs.len())))
    } else {
        None
    }
}

pub fn rcut(s: &str, c: char) -> (r: Option<(String, String)>)
    ensures
        r.deep_view() == rsplit_once(s@, c),
{
    let cs = chars(s);
    let mut i: usize = cs.len();
    assert(cs@.take(cs@.len() as int) =~= cs@);
    while i > 0 && cs[i - 1] != c
        invariant
            cs@ == s@,
            i <= cs@.len(),
            last(cs@, c) == last(cs@.take(i as int), c),
        decreases i,
    {
        assert(cs@.take(i as int).drop_last() =~= cs@.take(i as int - 1));
        i = i - 1;
    }
    if i > 0 {
        let at: usize = i - 1;
        assert(cs@.take(i as int).last() == c);
        assert(cs@.take(at as int) =~= cs@.subrange(0, at as int));
        assert(cs@.skip(at as int + 1) =~= cs@.subrange(at as int + 1, cs@.len() as int));
        Some((slice(&cs, 0, at), slice(&cs, at + 1, cs.len())))
    } else {
        None
    }
}

/// The pieces between the occurrences of `c`; always at least one.
pub open spec fn split(s: Seq<char>, c: char) -> Seq<Seq<char>>
    decreases s.len(),
    via split_decreases
{
    let i = first(s, c);
    if i < s.len() {
        seq![s.take(i)] + split(s.skip(i + 1), c)
    } else {
        seq![s]
    }
}

#[via_fn]
proof fn split_decreases(s: Seq<char>, c: char) {
    first_props(s, c);
}

pub fn pieces(s: &str, c: char) -> (r: Vec<String>)
    ensures
        r.deep_view() == split(s@, c),
        r@.len() > 0,
{
    let cs = chars(s);
    let mut out: Vec<String> = Vec::new();
    let mut at: usize = 0;
    assert(cs@.skip(0) =~= cs@);
    assert(out.deep_view() + split(cs@, c) =~= split(cs@, c));
    loop
        invariant
            cs@ == s@,
            at <= cs@.len(),
            split(s@, c) == out.deep_view() + split(cs@.skip(at as int), c),
        decreases cs@.len() - at,
    {
        let i = find(&cs, at, c);
        let ghost rest = cs@.skip(at as int);
        let ghost before = out.deep_view();
        if i < cs.len() {
            let piece = slice(&cs, at, i);
            assert(piece@ =~= rest.take(i - at));
            assert(rest.skip(i - at + 1) =~= cs@.skip(i as int + 1));
            out.push(piece);
            assert(out.deep_view() =~= before.push(piece@));
            assert(before + (seq![piece@] + split(cs@.skip(i as int + 1), c)) =~= before.push(
                piece@,
            ) + split(cs@.skip(i as int + 1), c));
            at = i + 1;
        } else {
            let piece = slice(&cs, at, cs.len());
            assert(piece@ =~= rest);
            out.push(piece);
            assert(out.deep_view() =~= before + seq![piece@]);
            return out;
        }
    }
}

/// `s` without its last character when that is a carriage return.
pub open spec fn strip_return(s: Seq<char>) -> Seq<char> {
    if s.len() > 0 && s.last() == '\r' {
        s.drop_last()
    } else {
        s
    }
}

/// The lines of `s`: line feeds end lines, a carriage return right before one
/// belongs to it, and the end of the text ends the last line when it has any
/// character.
pub open spec fn lines(s: Seq<char>) -> Seq<Seq<char>>
    decreases s.len(),
    via lines_decreases
{
    let i = first(s, '\n');
    if s.len() == 0 {
        Seq::empty()
    } else if i < s.len() {
        seq![strip_return(s.take(i))] + lines(s.skip(i + 1))
    } else {
        seq![s]
    }
}

#[via_fn]
proof fn lines_decreases(s: Seq<char>) {
    first_props(s, '\n');
}

pub fn line_list(s: &str) -> (r: Vec<String>)
    ensures
        r.deep_view() == lines(s@),
{
    let cs = chars(s);
    let mut out: Vec<String> = Vec::new();
    let mut at: usize = 0;
    assert(cs@.skip(0) =~= cs@);
    assert(out.deep_view() + lines(cs@) =~= lines(cs@));
    while at < cs.len()
        invariant
            cs@ == s@,
            at <= cs@.len(),
            lines(s@) == out.deep_view() + lines(cs@.skip(at as int)),
        decreases cs@.len() - at,
    {
        let i = find(&cs, at, '\n');
        let ghost rest = cs@.skip(at as int);
        let ghost before = out.deep_view();
        if i < cs.len() {
            let end: usize = if i > at && cs[i - 1] == '\r' {
                i - 1
            } else {
                i
            };
            let piece = slice(&cs, at, end);
            assert(piece@ =~= strip_return(rest.take(i - at)));
            assert(rest.skip(i - at + 1) =~= cs@.skip(i as int + 1));
            out.push(piece);
            assert(out.deep_view() =~= before.push(piece@));
            assert(before + (seq![piece@] + lines(cs@.skip(i as int + 1))) =~= before.push(piece@)
                + lines(cs@.skip(i as int + 1)));
            at = i + 1;
        } else {
            let piece = slice(&cs, at, cs.len());
            assert(piece@ =~= rest);
            out.push(piece);
            assert(out.deep_view() =~= before + seq![piece@]);
            assert(lines(s@) =~= out.deep_view());
            return out;
        }
    }
    assert(cs@.skip(at as int) =~= Seq::<char>::empty());
    assert(lines(s@) =~= out.deep_view());
    out
}

/// These lines, each ended by a line feed.
pub open spec fn unlines(lines: Seq<Seq<char>>) -> Seq<char>
    decreases lines.len(),
{
    if lines.len() == 0 {
        Seq::empty()
    } else {
        unlines(lines.drop_last()) + lines.last() + "\n"@
    }
}

pub fn line_text(lines: &Vec<String>) -> (r: String)
    ensures
        r@ == unlines(lines.deep_view()),
{
    let ghost all = lines.deep_view();
    let mut out = String::new();
    let mut i: usize = 0;
    assert(all.take(0) =~= Seq::empty());
    while i < lines.len()
        invariant
            i <= lines@.len(),
            all == lines.deep_view(),
            out@ == unlines(all.take(i as int)),
        decreases lines@.len() - i,
    {
        assert(all.take(i as int + 1).drop_last() =~= all.take(i as int));
        out.append(lines[i].as_str());
        out.append("\n");
        i = i + 1;
    }
    assert(all.take(i as int) =~= all);
    out
}

/// A text that is one line: it holds no line feed, and no carriage return ends
/// it.
pub open spec fn is_line(s: Seq<char>) -> bool {
    !contains_char(s, '\n') && (s.len() > 0 ==> s.last() != '\r')
}

proof fn unlines_from_the_front(all: Seq<Seq<char>>)
    requires
        all.len() > 0,
    ensures
        unlines(all) == all[0].push('\n') + unlines(all.skip(1)),
    decreases all.len(),
{
    reveal_strlit("\n");
    assert("\n"@ =~= seq!['\n']);
    if all.len() == 1 {
        assert(all.drop_last() =~= Seq::empty());
        assert(all.skip(1) =~= Seq::empty());
        assert(unlines(all) =~= all[0].push('\n') + unlines(all.skip(1)));
    } else {
        unlines_from_the_front(all.drop_last());
        assert(all.drop_last().skip(1) =~= all.skip(1).drop_last());
        assert(unlines(all) =~= all[0].push('\n') + unlines(all.skip(1)));
    }
}

/// Lines that are written one behind the other read as those lines.
pub proof fn written_lines_read_back(all: Seq<Seq<char>>)
    requires
        forall|i: int| 0 <= i < all.len() ==> is_line(#[trigger] all[i]),
    ensures
        lines(unlines(all)) == all,
    decreases all.len(),
{
    if all.len() > 0 {
        let l = all[0];
        let rest = unlines(all.skip(1));
        let s = l.push('\n') + rest;
        unlines_from_the_front(all);
        split_once_at(l, '\n', rest);
        first_props(s, '\n');
        assert(is_line(l));
        lacks_char(l, '\n');
        let i = first(s, '\n');
        if i < l.len() {
            assert(s[i] == l[i]);
        }
        if i > l.len() {
            assert(s[l.len() as int] == '\n');
        }
        assert(s.take(i) =~= l);
        assert(s.skip(i + 1) =~= rest);
        assert forall|k: int| 0 <= k < all.skip(1).len() implies is_line(
            #[trigger] all.skip(1)[k],
        ) by {
            assert(all.skip(1)[k] == all[k + 1]);
        }
        written_lines_read_back(all.skip(1));
        assert(seq![l] + all.skip(1) =~= all);
    } else {
        assert(all =~= Seq::empty());
    }
}

pub open spec fn starts_with(s: Seq<char>, p: Seq<char>) -> bool {
    p.len() <= s.len() && s.take(p.len() as int) == p
}

pub open spec fn ends_with(s: Seq<char>, p: Seq<char>) -> bool {
    p.len() <= s.len() && s.skip(s.len() - p.len()) == p
}

/// Whether `p` occurs in `s`.
pub open spec fn contains(s: Seq<char>, p: Seq<char>) -> bool {
    exists|i: int| 0 <= i <= s.len() && #[trigger] starts_with(s.skip(i), p)
}

/// Whether `p` stands at position `at`.
pub fn matches_at(cs: &Vec<char>, at: usize, p: &Vec<char>) -> (r: bool)
    requires
        at <= cs@.len(),
    ensures
        r == starts_with(cs@.skip(at as int), p@),
{
    if p.len() > cs.len() - at {
        return false;
    }
    let mut i: usize = 0;
    while i < p.len()
        invariant
            i <= p@.len(),
            at + p@.len() <= cs.len(),
            forall|j: int| 0 <= j < i ==> cs@[at + j] == p@[j],
        decreases p@.len() - i,
    {
        if cs[at + i] != p[i] {
            assert(cs@.skip(at as int).take(p@.len() as int)[i as int] != p@[i as int]);
            return false;
        }
        i = i + 1;
    }
    assert(cs@.skip(at as int).take(p@.len() as int) =~= p@);
    true
}

/// The position of the first occurrence of `p` in `s`.
pub open spec fn find_text(s: Seq<char>, p: Seq<char>) -> Option<int>
    decreases s.len(),
{
    if starts_with(s, p) {
        Some(0)
    } else if s.len() == 0 {
        None
    } else {
        match find_text(s.skip(1), p) {
            Some(i) => Some(i + 1),
            None => None,
        }
    }
}

/// The position of the first `p` at or behind `from`.
pub fn position_of(cs: &Vec<char>, from: usize, p: &Vec<char>) -> (r: Option<usize>)
    requires
        from <= cs@.len(),
    ensures
        match r {
            Some(at) => from <= at <= cs@.len() && at + p@.len() <= cs@.len() && find_text(
                cs@.skip(from as int),
                p@,
            ) == Some(at - from),
            None => find_text(cs@.skip(from as int), p@) is None,
        },
{
    let mut at: usize = from;
    loop
        invariant
            from <= at <= cs@.len(),
            find_text(cs@.skip(from as int), p@) == match find_text(cs@.skip(at as int), p@) {
                Some(i) => Some(i + (at - from)),
                None => None,
            },
        decreases cs@.len() - at,
    {
        if matches_at(cs, at, p) {
            return Some(at);
        }
        if at == cs.len() {
            return None;
        }
        assert(cs@.skip(at as int).skip(1) =~= cs@.skip(at as int + 1));
        at = at + 1;
    }
}

pub fn begins(s: &str, p: &str) -> (r: bool)
    ensures
        r == starts_with(s@, p@),
{
    let cs = chars(s);
    assert(cs@.skip(0) =~= cs@);
    matches_at(&cs, 0, &chars(p))
}

pub fn ends(s: &str, p: &str) -> (r: bool)
    ensures
        r == ends_with(s@, p@),
{
    let cs = chars(s);
    let ps = chars(p);
    if ps.len() > cs.len() {
        return false;
    }
    let ghost tail = cs@.skip(cs@.len() - ps@.len());
    assert(tail.take(ps@.len() as int) =~= tail);
    matches_at(&cs, cs.len() - ps.len(), &ps)
}

pub fn has(s: &str, p: &str) -> (r: bool)
    ensures
        r == contains(s@, p@),
{
    let cs = chars(s);
    let ps = chars(p);
    let mut i: usize = 0;
    while i < cs.len()
        invariant
            cs@ == s@,
            ps@ == p@,
            i <= cs@.len(),
            forall|j: int| 0 <= j < i ==> !#[trigger] starts_with(s@.skip(j), p@),
        decreases cs@.len() - i,
    {
        if matches_at(&cs, i, &ps) {
            return true;
        }
        i = i + 1;
    }
    matches_at(&cs, i, &ps)
}

/// `s` without the prefix `p`.
pub open spec fn strip_prefix(s: Seq<char>, p: Seq<char>) -> Option<Seq<char>> {
    if starts_with(s, p) {
        Some(s.skip(p.len() as int))
    } else {
        None
    }
}

pub fn without_prefix(s: &str, p: &str) -> (r: Option<String>)
    ensures
        r.deep_view() == strip_prefix(s@, p@),
{
    let cs = chars(s);
    let ps = chars(p);
    assert(cs@.skip(0) =~= cs@);
    if matches_at(&cs, 0, &ps) {
        assert(cs@.skip(ps@.len() as int) =~= cs@.subrange(ps@.len() as int, cs@.len() as int));
        Some(slice(&cs, ps.len(), cs.len()))
    } else {
        None
    }
}

/// Every `from` in `s` becomes `to`.
pub open spec fn replace_char(s: Seq<char>, from: char, to: char) -> Seq<char> {
    s.map_values(
        |c: char|
            if c == from {
                to
            } else {
                c
            },
    )
}

pub fn replaced(s: &str, from: char, to: char) -> (r: String)
    ensures
        r@ == replace_char(s@, from, to),
{
    let cs = chars(s);
    let mut out = String::new();
    let mut i: usize = 0;
    while i < cs.len()
        invariant
            cs@ == s@,
            i <= cs@.len(),
            out@ == replace_char(s@.take(i as int), from, to),
        decreases cs@.len() - i,
    {
        if cs[i] == from {
            out.push(to);
        } else {
            out.push(cs[i]);
        }
        i = i + 1;
        assert(out@ =~= replace_char(s@.take(i as int), from, to));
    }
    assert(s@.take(i as int) =~= s@);
    out
}

/// The parts in order with `sep` between neighbours.
pub open spec fn join(parts: Seq<Seq<char>>, sep: Seq<char>) -> Seq<char>
    decreases parts.len(),
{
    if parts.len() == 0 {
        Seq::empty()
    } else if parts.len() == 1 {
        parts[0]
    } else {
        join(parts.drop_last(), sep) + sep + parts.last()
    }
}

pub fn joined(parts: &Vec<String>, sep: &str) -> (r: String)
    ensures
        r@ == join(parts.deep_view(), sep@),
{
    let mut out = String::new();
    let mut i: usize = 0;
    while i < parts.len()
        invariant
            i <= parts@.len(),
            out@ == join(parts.deep_view().take(i as int), sep@),
        decreases parts@.len() - i,
    {
        let ghost all = parts.deep_view();
        assert(all.take(i as int + 1).drop_last() =~= all.take(i as int));
        if i > 0 {
            out.append(sep);
            out.append(parts[i].as_str());
        } else {
            out.append(parts[i].as_str());
            assert(out@ =~= parts@[0]@);
        }
        i = i + 1;
    }
    assert(parts.deep_view().take(i as int) =~= parts.deep_view());
    out
}

/// The quoted and escaped form that `{:?}` gives a string.
pub uninterp spec fn debug_text(s: Seq<char>) -> Seq<char>;

/// `<str as Debug>::fmt`: the result depends on the text alone and is named
/// [`debug_text`]; which characters are escaped is left unsaid.
#[verifier::external_body]
pub(crate) fn debug(s: &str) -> (r: String)
    ensures
        r@ == debug_text(s@),
{
    format!("{s:?}")
}

/// `String::from_utf8_lossy` of bytes that are not valid UTF-8.
pub uninterp spec fn lossy_text(bytes: Seq<u8>) -> Seq<char>;

/// The text in some bytes: what they encode or, where they are not valid UTF-8,
/// what can be made of them.
pub open spec fn text_in(bytes: Seq<u8>) -> Seq<char> {
    if vstd::utf8::valid_utf8(bytes) {
        vstd::utf8::decode_utf8(bytes)
    } else {
        lossy_text(bytes)
    }
}

/// The bytes of a text hold that text.
pub proof fn encoded_text_reads_back(s: Seq<char>)
    ensures
        text_in(vstd::utf8::encode_utf8(s)) == s,
{
    vstd::utf8::encode_utf8_valid_utf8(s);
    vstd::utf8::encode_utf8_decode_utf8(s);
}

/// `String::from_utf8_lossy`: the text that the bytes encode, where they are
/// valid UTF-8. Otherwise the result depends on the bytes alone and is named
/// [`lossy_text`]; how invalid sequences are replaced is left unsaid.
#[verifier::external_body]
pub(crate) fn from_utf8_lossy(bytes: &[u8]) -> (r: String)
    ensures
        vstd::utf8::valid_utf8(bytes@) ==> r@ == vstd::utf8::decode_utf8(bytes@),
        !vstd::utf8::valid_utf8(bytes@) ==> r@ == lossy_text(bytes@),
{
    String::from_utf8_lossy(bytes).into_owned()
}

/// `str::to_uppercase` of a text that is not ASCII.
pub uninterp spec fn upper_text(s: Seq<char>) -> Seq<char>;

pub open spec fn all_ascii(s: Seq<char>) -> bool {
    forall|i: int| 0 <= i < s.len() ==> (#[trigger] s[i] as int) < 0x80
}

/// The text in upper case.
pub open spec fn uppercase(s: Seq<char>) -> Seq<char> {
    if all_ascii(s) {
        s.map_values(|c: char| upper_char(c))
    } else {
        upper_text(s)
    }
}

/// `str::to_uppercase`: of an ASCII text every lower case letter is raised.
/// Otherwise the result depends on the text alone and is named [`upper_text`];
/// the Unicode case mapping is left unsaid.
#[verifier::external_body]
pub(crate) fn to_upper(s: &str) -> (r: String)
    ensures
        all_ascii(s@) ==> r@ == s@.map_values(|c: char| upper_char(c)),
        !all_ascii(s@) ==> r@ == upper_text(s@),
{
    s.to_uppercase()
}

/// The text that the first `n` bytes encode; none where they end inside a
/// character or the text is shorter.
pub open spec fn byte_prefix_of(s: Seq<char>, n: int) -> Option<Seq<char>> {
    if vstd::utf8::is_char_boundary(vstd::utf8::encode_utf8(s), n) {
        Some(vstd::utf8::decode_utf8(vstd::utf8::encode_utf8(s).subrange(0, n)))
    } else {
        None
    }
}

pub fn byte_prefix(s: &str, n: usize) -> (r: Option<String>)
    ensures
        r.deep_view() == byte_prefix_of(s@, n as int),
{
    if s.is_char_boundary(n) {
        let head = s.split_at(n).0;
        proof {
            vstd::utf8::encode_utf8_decode_utf8(head@);
            assert(head.spec_bytes() =~= s.spec_bytes().subrange(0, n as int));
        }
        Some(owned(head))
    } else {
        None
    }
}

// ---------------------------------------------------------------------------
// Decimal numbers
// ---------------------------------------------------------------------------

pub open spec fn digit_char(d: int) -> char {
    ((48 + d) as u8) as char
}

/// The decimal digits of `n`, without leading zeros.
pub open spec fn decimal(n: nat) -> Seq<char>
    decreases n,
{
    if n < 10 {
        seq![digit_char(n as int)]
    } else {
        decimal(n / 10).push(digit_char((n % 10) as int))
    }
}

pub fn number_wide(n: u128) -> (r: String)
    ensures
        r@ == decimal(n as nat),
    decreases n,
{
    let d: u8 = (n % 10) as u8;
    let c: char = (48 + d) as char;
    if n < 10 {
        let mut out = String::new();
        out.push(c);
        assert(out@ =~= seq![digit_char(n as int)]);
        out
    } else {
        let mut out = number_wide(n / 10);
        out.push(c);
        out
    }
}

pub fn number(n: u64) -> (r: String)
    ensures
        r@ == decimal(n as nat),
{
    number_wide(n as u128)
}

/// `n` with a leading minus sign when it is negative.
pub open spec fn signed_decimal(n: int) -> Seq<char> {
    if n < 0 {
        seq!['-'] + decimal((-n) as nat)
    } else {
        decimal(n as nat)
    }
}

pub fn signed_number(n: i64) -> (r: String)
    ensures
        r@ == signed_decimal(n as int),
{
    if n < 0 {
        let m: u64 = if n == i64::MIN {
            9223372036854775808u64
        } else {
            (-n) as u64
        };
        let digits = number(m);
        let mut out = String::new();
        out.push('-');
        out.append(digits.as_str());
        assert(out@ =~= seq!['-'] + digits@);
        out
    } else {
        number(n as u64)
    }
}

/// The value of a digit sequence.
pub open spec fn digits_value(s: Seq<char>) -> nat
    decreases s.len(),
{
    if s.len() == 0 {
        0
    } else {
        (digits_value(s.drop_last()) * 10 + (s.last() as int - 48)) as nat
    }
}

/// A number's digits read back as that number.
pub proof fn decimal_reads_back(n: nat)
    ensures
        decimal(n).len() > 0,
        all_digits(decimal(n)),
        digits_value(decimal(n)) == n,
    decreases n,
{
    if n >= 10 {
        decimal_reads_back(n / 10);
        assert(decimal(n).drop_last() =~= decimal(n / 10));
    } else {
        assert(decimal(n).drop_last() =~= Seq::empty());
        assert(digits_value(decimal(n).drop_last()) == 0);
    }
}

/// An unsigned number no greater than `max`: an optional `+`, then digits.
pub open spec fn parse_unsigned(s: Seq<char>, max: nat) -> Option<nat> {
    let body = if s.len() > 0 && s[0] == '+' {
        s.skip(1)
    } else {
        s
    };
    if body.len() > 0 && all_digits(body) && digits_value(body) <= max {
        Some(digits_value(body))
    } else {
        None
    }
}

proof fn digits_value_monotonic(s: Seq<char>, i: int)
    requires
        0 <= i <= s.len(),
        all_digits(s),
    ensures
        digits_value(s.take(i)) <= digits_value(s),
    decreases s.len() - i,
{
    if i < s.len() {
        digits_value_monotonic(s, i + 1);
        assert(s.take(i + 1).drop_last() =~= s.take(i));
        assert(is_digit(s[i]));
    } else {
        assert(s.take(i) =~= s);
    }
}

fn digits_from(cs: &Vec<char>, from: usize, max: u64) -> (r: Option<u64>)
    requires
        from <= cs@.len(),
    ensures
        ({
            let body = cs@.skip(from as int);
            match r {
                Some(v) => body.len() > 0 && all_digits(body) && digits_value(body) == v && v
                    <= max,
                None => !(body.len() > 0 && all_digits(body) && digits_value(body) <= max),
            }
        }),
{
    let ghost body = cs@.skip(from as int);
    if from == cs.len() {
        return None;
    }
    let mut i: usize = from;
    let mut value: u64 = 0;
    assert(body.take(0) =~= Seq::<char>::empty());
    while i < cs.len()
        invariant
            from <= i <= cs@.len(),
            body == cs@.skip(from as int),
            forall|j: int| 0 <= j < i - from ==> is_digit(#[trigger] body[j]),
            value == digits_value(body.take(i - from)),
            value <= max,
        decreases cs@.len() - i,
    {
        let c: char = cs[i];
        assert(body[i - from] == c);
        if !digit(c) {
            return None;
        }
        let d: u64 = (c as u8 - 48) as u64;
        assert(body.take(i - from + 1).drop_last() =~= body.take(i - from));
        proof {
            if all_digits(body) {
                digits_value_monotonic(body, i - from + 1);
            }
        }
        let next: u128 = (value as u128) * 10 + d as u128;
        if next > max as u128 {
            return None;
        }
        value = next as u64;
        i = i + 1;
    }
    assert(body.take(i - from) =~= body);
    Some(value)
}

/// `str::parse` for an unsigned integer type whose greatest value is `max`.
pub fn parse_up_to(s: &str, max: u64) -> (r: Option<u64>)
    ensures
        match r {
            Some(v) => parse_unsigned(s@, max as nat) == Some(v as nat),
            None => parse_unsigned(s@, max as nat) is None,
        },
{
    let cs = chars(s);
    if cs.len() > 0 && cs[0] == '+' {
        digits_from(&cs, 1, max)
    } else {
        assert(cs@.skip(0) =~= cs@);
        digits_from(&cs, 0, max)
    }
}

pub open spec fn u32_of(n: Option<nat>) -> Option<u32> {
    match n {
        Some(v) => Some(v as u32),
        None => None,
    }
}

pub open spec fn u64_of(n: Option<nat>) -> Option<u64> {
    match n {
        Some(v) => Some(v as u64),
        None => None,
    }
}

pub open spec fn parse_u32_spec(s: Seq<char>) -> Option<u32> {
    u32_of(parse_unsigned(s, u32::MAX as nat))
}

pub open spec fn parse_u64_spec(s: Seq<char>) -> Option<u64> {
    u64_of(parse_unsigned(s, u64::MAX as nat))
}

proof fn digits_have_no_margin(s: Seq<char>)
    requires
        all_digits(s),
    ensures
        trim(s) == s,
        s.len() > 0 ==> s[0] != '+',
{
    reveal_with_fuel(trim_start, 2);
    reveal_with_fuel(trim_end, 2);
    if s.len() > 0 {
        assert(is_digit(s[0]));
        assert(is_digit(s.last()));
    }
}

/// A number that was written out parses as itself, margins trimmed or not.
pub proof fn written_numbers_parse(n: u64)
    ensures
        parse_u64_spec(trim(decimal(n as nat))) == Some(n),
        parse_u64_spec(decimal(n as nat)) == Some(n),
        n <= u32::MAX ==> parse_u32_spec(trim(decimal(n as nat))) == Some(n as u32),
        n <= u32::MAX ==> parse_u32_spec(decimal(n as nat)) == Some(n as u32),
{
    decimal_reads_back(n as nat);
    digits_have_no_margin(decimal(n as nat));
}

pub fn parse_u32(s: &str) -> (r: Option<u32>)
    ensures
        r == parse_u32_spec(s@),
{
    match parse_up_to(s, u32::MAX as u64) {
        Some(v) => Some(v as u32),
        None => None,
    }
}

pub fn parse_u64(s: &str) -> (r: Option<u64>)
    ensures
        r == parse_u64_spec(s@),
{
    parse_up_to(s, u64::MAX)
}

/// A signed 64-bit number: an optional `+` or `-`, then digits.
pub open spec fn parse_i64_spec(s: Seq<char>) -> Option<i64> {
    if s.len() > 0 && s[0] == '-' {
        let body = s.skip(1);
        if body.len() > 0 && all_digits(body) && digits_value(body) <= 9223372036854775808 {
            Some((-digits_value(body)) as i64)
        } else {
            None
        }
    } else {
        match parse_unsigned(s, 9223372036854775807) {
            Some(v) => Some(v as i64),
            None => None,
        }
    }
}

/// So does a signed number.
pub proof fn written_signed_numbers_parse(n: i64)
    ensures
        parse_i64_spec(trim(signed_decimal(n as int))) == Some(n),
{
    let s = signed_decimal(n as int);
    if n < 0 {
        let digits = decimal((-n) as nat);
        decimal_reads_back((-n) as nat);
        reveal_with_fuel(trim_start, 2);
        reveal_with_fuel(trim_end, 2);
        assert(s[0] == '-');
        assert(s.last() == digits.last());
        assert(is_digit(digits[digits.len() - 1]));
        assert(trim(s) == s);
        assert(s.skip(1) =~= digits);
    } else {
        decimal_reads_back(n as nat);
        digits_have_no_margin(decimal(n as nat));
        assert(is_digit(s[0]));
    }
}

pub fn parse_i64(s: &str) -> (r: Option<i64>)
    ensures
        r == parse_i64_spec(s@),
{
    let cs = chars(s);
    if cs.len() > 0 && cs[0] == '-' {
        match digits_from(&cs, 1, 9223372036854775808u64) {
            Some(v) => if v == 9223372036854775808u64 {
                Some(i64::MIN)
            } else {
                Some(-(v as i64))
            },
            None => None,
        }
    } else {
        match parse_up_to(s, 9223372036854775807u64) {
            Some(v) => Some(v as i64),
            None => None,
        }
    }
}

} // verus!
