//! Path normalization: every format gets one thing, a path relative to the
//! repository root with `/` between its segments.

use vstd::prelude::*;

use crate::text::{
    begins, concat, drop_trailing, first, first_props, join, joined, owned, pieces, replace_char,
    replaced, same, split, starts_with, strip_prefix, without_prefix, without_trailing,
};
use crate::value::append_one;

verus! {

// ---------------------------------------------------------------------------
// Normalization
// ---------------------------------------------------------------------------

pub open spec fn dot() -> Seq<char> {
    seq!['.']
}

pub open spec fn dot_dot() -> Seq<char> {
    seq!['.', '.']
}

pub open spec fn slash() -> Seq<char> {
    seq!['/']
}

/// The segments after one more: empty and `.` segments vanish, `..` takes the
/// segment before it away. Where there is none to take, a relative path keeps
/// the `..` and an absolute path stays at its root.
pub open spec fn next_segment(
    before: Seq<Seq<char>>,
    segment: Seq<char>,
    absolute: bool,
) -> Seq<Seq<char>> {
    if segment.len() == 0 || segment == dot() {
        before
    } else if segment == dot_dot() {
        if before.len() > 0 && before.last() != dot_dot() {
            before.drop_last()
        } else if absolute {
            before
        } else {
            before.push(segment)
        }
    } else {
        before.push(segment)
    }
}

pub open spec fn resolve(segments: Seq<Seq<char>>, absolute: bool) -> Seq<Seq<char>>
    decreases segments.len(),
{
    if segments.len() == 0 {
        segments
    } else {
        next_segment(resolve(segments.drop_last(), absolute), segments.last(), absolute)
    }
}

pub open spec fn is_absolute(path: Seq<char>) -> bool {
    path.len() > 0 && path[0] == '/'
}

/// `\` becomes `/`, `.` and empty segments vanish, `..` is resolved by text
/// alone.
pub open spec fn normalized(path: Seq<char>) -> Seq<char> {
    let unified = replace_char(path, '\\', '/');
    let absolute = is_absolute(unified);
    let rest = join(resolve(split(unified, '/'), absolute), slash());
    if absolute {
        slash() + rest
    } else {
        rest
    }
}

pub fn normalize(path: &str) -> (r: String)
    ensures
        r@ == normalized(path@),
{
    proof {
        reveal_strlit("/");
        reveal_strlit(".");
        reveal_strlit("..");
        assert("/"@ =~= slash());
        assert("."@ =~= dot());
        assert(".."@ =~= dot_dot());
    }
    let unified = replaced(path, '\\', '/');
    let absolute = begins(unified.as_str(), "/");
    proof {
        assert(absolute == is_absolute(unified@)) by {
            if is_absolute(unified@) {
                assert(unified@.take(1) =~= slash());
            } else if unified@.len() > 0 {
                assert(unified@.take(1)[0] == unified@[0]);
            }
        }
    }
    let parts = pieces(unified.as_str(), '/');
    let ghost all = parts.deep_view();
    let mut segments: Vec<String> = Vec::new();
    let mut i: usize = 0;
    assert(all.take(0) =~= Seq::empty());
    assert(segments.deep_view() =~= Seq::empty());
    while i < parts.len()
        invariant
            i <= parts@.len(),
            all == parts.deep_view(),
            segments.deep_view() == resolve(all.take(i as int), absolute),
            "."@ == dot(),
            ".."@ == dot_dot(),
        decreases parts@.len() - i,
    {
        let segment = parts[i].as_str();
        let ghost before = segments.deep_view();
        assert(all.take(i as int + 1).drop_last() =~= all.take(i as int));
        if segment.is_empty() || same(segment, ".") {
        } else if same(segment, "..") {
            if segments.len() > 0 && !same(segments[segments.len() - 1].as_str(), "..") {
                segments.pop();
                assert(segments.deep_view() =~= before.drop_last());
            } else if !absolute {
                append_one(&mut segments, owned(segment));
            }
        } else {
            append_one(&mut segments, owned(segment));
        }
        i = i + 1;
    }
    assert(all.take(i as int) =~= all);
    let rest = joined(&segments, "/");
    if absolute {
        concat("/", rest.as_str())
    } else {
        rest
    }
}

/// A segment that normalization leaves where it is.
pub open spec fn plain_segment(s: Seq<char>) -> bool {
    s.len() > 0 && s != dot() && s != dot_dot() && first(s, '/') == s.len() && first(s, '\\')
        == s.len()
}

/// Segments that normalization leaves as they are: `..` only in front, and only
/// on a relative path.
pub open spec fn clean(segments: Seq<Seq<char>>, absolute: bool) -> bool {
    forall|i: int|
        0 <= i < segments.len() ==> {
            ||| plain_segment(#[trigger] segments[i])
            ||| (segments[i] == dot_dot() && !absolute && forall|j: int|
                0 <= j < i ==> segments[j] == dot_dot())
        }
}

proof fn first_absent(s: Seq<char>, c: char)
    requires
        forall|i: int| 0 <= i < s.len() ==> s[i] != c,
    ensures
        first(s, c) == s.len(),
    decreases s.len(),
{
    if s.len() > 0 {
        first_absent(s.skip(1), c);
    }
}

proof fn resolve_clean(segments: Seq<Seq<char>>, absolute: bool)
    requires
        forall|i: int|
            0 <= i < segments.len() ==> first(#[trigger] segments[i], '/') == segments[i].len()
                && first(segments[i], '\\') == segments[i].len(),
    ensures
        clean(resolve(segments, absolute), absolute),
    decreases segments.len(),
{
    if segments.len() > 0 {
        let head = segments.drop_last();
        assert forall|i: int| 0 <= i < head.len() implies first(#[trigger] head[i], '/')
            == head[i].len() && first(head[i], '\\') == head[i].len() by {
            assert(head[i] == segments[i]);
        }
        resolve_clean(head, absolute);
        let before = resolve(head, absolute);
        let segment = segments.last();
        assert(segment == segments[segments.len() - 1]);
        let after = next_segment(before, segment, absolute);
        assert forall|i: int| 0 <= i < after.len() implies {
            ||| plain_segment(#[trigger] after[i])
            ||| (after[i] == dot_dot() && !absolute && forall|j: int|
                0 <= j < i ==> after[j] == dot_dot())
        } by {
            if i < before.len() {
                assert(after[i] == before[i]);
                if !plain_segment(before[i]) {
                    assert forall|j: int| 0 <= j < i implies after[j] == dot_dot() by {
                        assert(after[j] == before[j]);
                    }
                }
            } else if segment == dot_dot() {
                assert forall|j: int| 0 <= j < i implies after[j] == dot_dot() by {
                    assert(after[j] == before[j]);
                    if before.len() > 0 {
                        let k = before.len() - 1;
                        assert(before[k] == dot_dot());
                        assert(!plain_segment(before[k]));
                    }
                }
            }
        }
    }
}

proof fn clean_resolves_to_itself(segments: Seq<Seq<char>>, absolute: bool)
    requires
        clean(segments, absolute),
    ensures
        resolve(segments, absolute) == segments,
    decreases segments.len(),
{
    if segments.len() > 0 {
        let head = segments.drop_last();
        assert(clean(head, absolute)) by {
            assert forall|i: int| 0 <= i < head.len() implies {
                ||| plain_segment(#[trigger] head[i])
                ||| (head[i] == dot_dot() && !absolute && forall|j: int|
                    0 <= j < i ==> head[j] == dot_dot())
            } by {
                assert(head[i] == segments[i]);
            }
        }
        clean_resolves_to_itself(head, absolute);
        let last = segments[segments.len() - 1];
        if !plain_segment(last) {
            if head.len() > 0 {
                assert(segments[segments.len() - 2] == dot_dot());
                assert(head.last() == dot_dot());
            }
        }
        assert(head.push(last) =~= segments);
    }
}

proof fn first_of_concat(a: Seq<char>, b: Seq<char>, c: char)
    requires
        first(a, c) == a.len(),
    ensures
        first(a + b, c) == a.len() + first(b, c),
    decreases a.len(),
{
    if a.len() == 0 {
        assert(a + b =~= b);
    } else {
        first_props(a, c);
        assert((a + b).skip(1) =~= a.skip(1) + b);
        assert(a[0] != c);
        first_of_concat(a.skip(1), b, c);
    }
}

proof fn split_single(a: Seq<char>, c: char)
    requires
        first(a, c) == a.len(),
    ensures
        split(a, c) == seq![a],
{
}

proof fn split_front(a: Seq<char>, b: Seq<char>, c: char)
    requires
        first(a, c) == a.len(),
    ensures
        split(a + seq![c] + b, c) == seq![a] + split(b, c),
{
    let s = a + seq![c] + b;
    first_of_concat(a, seq![c] + b, c);
    assert(a + (seq![c] + b) =~= s);
    assert((seq![c] + b)[0] == c);
    assert(s.take(a.len() as int) =~= a);
    assert(s.skip(a.len() as int + 1) =~= b);
}

proof fn split_back(a: Seq<char>, b: Seq<char>, c: char)
    requires
        first(b, c) == b.len(),
    ensures
        split(a + seq![c] + b, c) == split(a, c).push(b),
    decreases a.len(),
{
    let s = a + seq![c] + b;
    let i = first(a, c);
    first_props(a, c);
    if i < a.len() {
        let head = a.take(i);
        let rest = a.skip(i + 1);
        assert(a =~= head + seq![c] + rest);
        first_prefix_absent(a, c);
        split_front(head, rest + seq![c] + b, c);
        assert(s =~= head + seq![c] + (rest + seq![c] + b));
        split_front(head, rest, c);
        split_back(rest, b, c);
        assert(seq![head] + split(rest, c).push(b) =~= (seq![head] + split(rest, c)).push(b));
    } else {
        split_front(a, b, c);
        split_single(a, c);
        split_single(b, c);
        assert(seq![a] + seq![b] =~= seq![a].push(b));
    }
}

proof fn first_prefix_absent(a: Seq<char>, c: char)
    ensures
        first(a.take(first(a, c)), c) == first(a, c),
{
    first_props(a, c);
    let head = a.take(first(a, c));
    assert forall|j: int| 0 <= j < head.len() implies head[j] != c by {
        assert(a[j] != c);
    }
    first_absent(head, c);
}

/// Joining segments that hold no `/` and splitting again gives them back.
proof fn split_join(segments: Seq<Seq<char>>)
    requires
        segments.len() > 0,
        forall|i: int|
            0 <= i < segments.len() ==> first(#[trigger] segments[i], '/') == segments[i].len(),
    ensures
        split(join(segments, slash()), '/') == segments,
    decreases segments.len(),
{
    if segments.len() == 1 {
        split_single(segments[0], '/');
        assert(seq![segments[0]] =~= segments);
    } else {
        let head = segments.drop_last();
        assert forall|i: int| 0 <= i < head.len() implies first(#[trigger] head[i], '/')
            == head[i].len() by {
            assert(head[i] == segments[i]);
        }
        split_join(head);
        let tail = segments.last();
        assert(tail == segments[segments.len() - 1]);
        split_back(join(head, slash()), tail, '/');
        assert(slash() =~= seq!['/']);
        assert(head.push(tail) =~= segments);
    }
}

proof fn split_pieces_hold_no_separator(s: Seq<char>, c: char)
    ensures
        forall|i: int|
            0 <= i < split(s, c).len() ==> first(#[trigger] split(s, c)[i], c) == split(
                s,
                c,
            )[i].len(),
    decreases s.len(),
{
    let i = first(s, c);
    first_props(s, c);
    if i < s.len() {
        split_pieces_hold_no_separator(s.skip(i + 1), c);
        first_prefix_absent(s, c);
        let rest = split(s.skip(i + 1), c);
        assert forall|k: int| 0 <= k < split(s, c).len() implies first(
            #[trigger] split(s, c)[k],
            c,
        ) == split(s, c)[k].len() by {
            if k > 0 {
                assert(split(s, c)[k] == rest[k - 1]);
            }
        }
    }
}

proof fn split_pieces_are_parts(s: Seq<char>, c: char, other: char)
    requires
        forall|i: int| 0 <= i < s.len() ==> #[trigger] s[i] != other,
    ensures
        forall|i: int|
            0 <= i < split(s, c).len() ==> first(#[trigger] split(s, c)[i], other) == split(
                s,
                c,
            )[i].len(),
    decreases s.len(),
{
    let i = first(s, c);
    first_props(s, c);
    if i < s.len() {
        assert forall|k: int| 0 <= k < s.skip(i + 1).len() implies #[trigger] s.skip(i + 1)[k]
            != other by {
            assert(s[i + 1 + k] != other);
        }
        split_pieces_are_parts(s.skip(i + 1), c, other);
        let head = s.take(i);
        assert forall|k: int| 0 <= k < head.len() implies head[k] != other by {
            assert(s[k] != other);
        }
        first_absent(head, other);
        let rest = split(s.skip(i + 1), c);
        assert forall|k: int| 0 <= k < split(s, c).len() implies first(
            #[trigger] split(s, c)[k],
            other,
        ) == split(s, c)[k].len() by {
            if k > 0 {
                assert(split(s, c)[k] == rest[k - 1]);
            }
        }
    } else {
        first_absent(s, other);
    }
}

proof fn join_holds_no(segments: Seq<Seq<char>>, c: char)
    requires
        c != '/',
        forall|i: int|
            0 <= i < segments.len() ==> first(#[trigger] segments[i], c) == segments[i].len(),
    ensures
        forall|k: int|
            0 <= k < join(segments, slash()).len() ==> #[trigger] join(segments, slash())[k] != c,
    decreases segments.len(),
{
    if segments.len() == 1 {
        first_props(segments[0], c);
    } else if segments.len() > 1 {
        let head = segments.drop_last();
        assert forall|i: int| 0 <= i < head.len() implies first(#[trigger] head[i], c)
            == head[i].len() by {
            assert(head[i] == segments[i]);
        }
        join_holds_no(head, c);
        let tail = segments.last();
        assert(tail == segments[segments.len() - 1]);
        first_props(tail, c);
        let a = join(head, slash());
        let whole = join(segments, slash());
        assert(whole == a + slash() + tail);
        assert forall|k: int| 0 <= k < whole.len() implies #[trigger] whole[k] != c by {
            if k < a.len() {
                assert(whole[k] == a[k]);
            } else if k == a.len() {
                assert(whole[k] == '/');
            } else {
                assert(whole[k] == tail[k - a.len() - 1]);
            }
        }
    }
}

proof fn join_starts_with_segment(segments: Seq<Seq<char>>)
    requires
        segments.len() > 0,
        segments[0].len() > 0,
    ensures
        join(segments, slash()).len() > 0,
        join(segments, slash())[0] == segments[0][0],
    decreases segments.len(),
{
    if segments.len() > 1 {
        join_starts_with_segment(segments.drop_last());
    }
}

/// The segments of a path, behind the leading slash of an absolute one.
pub open spec fn segments_of(path: Seq<char>) -> Seq<Seq<char>> {
    let rest = if is_absolute(path) {
        path.skip(1)
    } else {
        path
    };
    if rest.len() == 0 {
        Seq::empty()
    } else {
        split(rest, '/')
    }
}

/// The normal form: a normalized path is absolute where the path was, in either
/// spelling, and is its segments with single slashes between them. No segment is
/// empty or `.`, none holds a backslash, and `..` stands only in front of a
/// relative path.
pub proof fn normalized_paths_are_clean(path: Seq<char>)
    ensures
        is_absolute(normalized(path)) <==> path.len() > 0 && (path[0] == '/' || path[0] == '\\'),
        clean(segments_of(normalized(path)), is_absolute(normalized(path))),
        normalized(path) == if is_absolute(normalized(path)) {
            slash() + join(segments_of(normalized(path)), slash())
        } else {
            join(segments_of(normalized(path)), slash())
        },
        forall|i: int|
            0 <= i < normalized(path).len() ==> #[trigger] normalized(path)[i] != '\\',
{
    let unified = replace_char(path, '\\', '/');
    let absolute = is_absolute(unified);
    assert forall|i: int| 0 <= i < unified.len() implies #[trigger] unified[i] != '\\' by {}
    split_pieces_hold_no_separator(unified, '/');
    split_pieces_are_parts(unified, '/', '\\');
    let segments = resolve(split(unified, '/'), absolute);
    resolve_clean(split(unified, '/'), absolute);
    let body = join(segments, slash());
    let form = normalized(path);
    assert forall|i: int| 0 <= i < segments.len() implies first(#[trigger] segments[i], '/')
        == segments[i].len() && first(segments[i], '\\') == segments[i].len()
        && segments[i].len() > 0 by {
        if !plain_segment(segments[i]) {
            assert(segments[i] == dot_dot());
            first_absent(dot_dot(), '/');
            first_absent(dot_dot(), '\\');
        }
    }
    join_holds_no(segments, '\\');
    if segments.len() > 0 {
        split_join(segments);
        join_starts_with_segment(segments);
        first_props(segments[0], '/');
    } else {
        assert(body =~= Seq::empty());
        assert(segments =~= Seq::empty());
    }
    assert(is_absolute(form) == absolute);
    if absolute {
        assert(form.skip(1) =~= body);
    }
    assert(segments_of(form) == segments);
}

/// Normalizing a normalized path changes nothing.
pub proof fn normalize_is_idempotent(path: Seq<char>)
    ensures
        normalized(normalized(path)) == normalized(path),
        replace_char(normalized(path), '\\', '/') == normalized(path),
{
    let unified = replace_char(path, '\\', '/');
    let absolute = is_absolute(unified);
    assert forall|i: int| 0 <= i < unified.len() implies #[trigger] unified[i] != '\\' by {}
    split_pieces_hold_no_separator(unified, '/');
    split_pieces_are_parts(unified, '/', '\\');
    let segments = resolve(split(unified, '/'), absolute);
    resolve_clean(split(unified, '/'), absolute);
    let body = join(segments, slash());
    let once = normalized(path);
    assert forall|i: int| 0 <= i < segments.len() implies first(#[trigger] segments[i], '/')
        == segments[i].len() && first(segments[i], '\\') == segments[i].len()
        && segments[i].len() > 0 by {
        if !plain_segment(segments[i]) {
            assert(segments[i] == dot_dot());
            first_absent(dot_dot(), '/');
            first_absent(dot_dot(), '\\');
        }
    }
    join_holds_no(segments, '\\');
    assert(replace_char(once, '\\', '/') =~= once);
    if segments.len() == 0 {
        if absolute {
            assert(once =~= slash());
            split_front(Seq::empty(), Seq::empty(), '/');
            split_single(Seq::empty(), '/');
            assert(Seq::<char>::empty() + seq!['/'] + Seq::<char>::empty() =~= once);
            let empty = Seq::<char>::empty();
            let parts = split(once, '/');
            assert(parts =~= seq![empty, empty]);
            assert(parts.drop_last() =~= seq![empty]);
            assert(seq![empty].drop_last() =~= Seq::<Seq<char>>::empty());
            assert(resolve(Seq::<Seq<char>>::empty(), true) =~= Seq::<Seq<char>>::empty());
            assert(resolve(seq![empty], true) =~= Seq::<Seq<char>>::empty());
            assert(resolve(parts, true) =~= Seq::<Seq<char>>::empty());
        } else {
            assert(once =~= Seq::<char>::empty());
            split_single(once, '/');
            let parts = split(once, '/');
            assert(parts.drop_last() =~= Seq::<Seq<char>>::empty());
            assert(resolve(Seq::<Seq<char>>::empty(), false) =~= Seq::<Seq<char>>::empty());
            assert(resolve(parts, false) =~= Seq::<Seq<char>>::empty());
        }
    } else {
        split_join(segments);
        clean_resolves_to_itself(segments, absolute);
        join_starts_with_segment(segments);
        first_props(segments[0], '/');
        if absolute {
            let empty = Seq::<char>::empty();
            split_front(empty, body, '/');
            assert(empty + seq!['/'] + body =~= once);
            let parts = split(once, '/');
            assert(parts == seq![empty] + segments);
            leading_empty_vanishes(segments, absolute);
        } else {
            assert(once == body);
            assert(!is_absolute(once));
        }
    }
}

proof fn leading_empty_vanishes(segments: Seq<Seq<char>>, absolute: bool)
    ensures
        resolve(seq![Seq::<char>::empty()] + segments, absolute) == resolve(segments, absolute),
    decreases segments.len(),
{
    let empty = Seq::<char>::empty();
    let parts = seq![empty] + segments;
    if segments.len() == 0 {
        assert(parts.drop_last() =~= Seq::<Seq<char>>::empty());
        assert(resolve(Seq::<Seq<char>>::empty(), absolute) =~= Seq::<Seq<char>>::empty());
    } else {
        leading_empty_vanishes(segments.drop_last(), absolute);
        assert(parts.drop_last() =~= seq![empty] + segments.drop_last());
    }
}

// ---------------------------------------------------------------------------
// Mapping
// ---------------------------------------------------------------------------

/// A directory with the slash that separates it from what lies in it. The root
/// is that slash already.
pub open spec fn opened(directory: Seq<char>) -> Seq<char> {
    if directory == slash() {
        directory
    } else {
        directory + slash()
    }
}

/// `path` without the directory `prefix`, where `path` lies in it.
pub open spec fn strip_dir(path: Seq<char>, prefix: Seq<char>) -> Option<Seq<char>> {
    if prefix.len() == 0 {
        None
    } else if path == prefix {
        Some(Seq::empty())
    } else {
        strip_prefix(path, opened(prefix))
    }
}

fn strip_dir_prefix(path: &str, prefix: &str) -> (r: Option<String>)
    ensures
        r.deep_view() == strip_dir(path@, prefix@),
{
    if prefix.is_empty() {
        return None;
    }
    if same(path, prefix) {
        return Some(String::new());
    }
    proof {
        reveal_strlit("/");
        assert("/"@ =~= slash());
    }
    if same(prefix, "/") {
        return without_prefix(path, prefix);
    }
    let dir = concat(prefix, "/");
    without_prefix(path, dir.as_str())
}

/// Without trailing slashes, except that the root stays the root.
pub open spec fn without_trailing_slash(path: Seq<char>) -> Seq<char> {
    let trimmed = drop_trailing(path, '/');
    if trimmed.len() == 0 && is_absolute(path) {
        slash()
    } else {
        trimmed
    }
}

fn trim_trailing_slash(path: &str) -> (r: String)
    ensures
        r@ == without_trailing_slash(path@),
{
    let trimmed = without_trailing(path, '/');
    proof {
        reveal_strlit("/");
        assert("/"@ =~= slash());
        if is_absolute(path@) {
            assert(path@.take(1) =~= slash());
        } else if path@.len() > 0 {
            assert(path@.take(1)[0] == path@[0]);
        }
    }
    if trimmed.as_str().is_empty() && begins(path, "/") {
        owned("/")
    } else {
        trimmed
    }
}

pub open spec fn directory_of(path: Seq<char>) -> Seq<char> {
    without_trailing_slash(normalized(path))
}

/// The directories of the list that name something.
pub open spec fn directories(list: Seq<Seq<char>>) -> Seq<Seq<char>>
    decreases list.len(),
{
    if list.len() == 0 {
        list
    } else {
        let head = directories(list.drop_last());
        let dir = directory_of(list.last());
        if dir.len() == 0 {
            head
        } else {
            head.push(dir)
        }
    }
}

/// `path` without the first of the prefixes whose directory it lies in.
pub open spec fn strip_first(path: Seq<char>, prefixes: Seq<Seq<char>>) -> Seq<char>
    decreases prefixes.len(),
{
    if prefixes.len() == 0 {
        path
    } else {
        match strip_dir(path, prefixes[0]) {
            Some(rest) => rest,
            None => strip_first(path, prefixes.skip(1)),
        }
    }
}

/// The content of a [`PathMapper`].
pub struct MapperView {
    pub source_root: Option<Seq<char>>,
    pub strip_prefixes: Seq<Seq<char>>,
}

impl MapperView {
    pub open spec fn is_noop(self) -> bool {
        self.source_root is None && self.strip_prefixes.len() == 0
    }

    /// The path under the source root.
    pub open spec fn under_root(self, path: Seq<char>) -> Seq<char> {
        let clean = normalized(path);
        match self.source_root {
            Some(root) => match strip_dir(clean, root) {
                Some(rest) => rest,
                None => clean,
            },
            None => clean,
        }
    }

    /// The path under the source root, without the first prefix that it lies
    /// in. Where nothing was asked for, the path as it is.
    pub open spec fn map(self, path: Seq<char>) -> Seq<char> {
        if self.is_noop() {
            path
        } else {
            strip_first(self.under_root(path), self.strip_prefixes)
        }
    }
}

/// Rewrites file paths against a source root and prefixes to strip.
#[derive(Debug)]
pub struct PathMapper {
    source_root: Option<String>,
    strip_prefixes: Vec<String>,
}

impl View for PathMapper {
    type V = MapperView;

    closed spec fn view(&self) -> MapperView {
        MapperView {
            source_root: self.source_root.deep_view(),
            strip_prefixes: self.strip_prefixes.deep_view(),
        }
    }
}

impl Default for PathMapper {
    fn default() -> (r: Self)
        ensures
            r@.is_noop(),
    {
        PathMapper { source_root: None, strip_prefixes: Vec::new() }
    }
}

impl PathMapper {
    pub fn new(source_root: Option<&str>, strip_prefixes: &[String]) -> (r: Self)
        ensures
            r@.source_root == match source_root {
                Some(root) => Some(directory_of(root@)),
                None => None,
            },
            r@.strip_prefixes == directories(strip_prefixes@.map_values(|p: String| p@)),
    {
        let ghost all = strip_prefixes@.map_values(|p: String| p@);
        let root = match source_root {
            Some(root) => Some(trim_trailing_slash(normalize(root).as_str())),
            None => None,
        };
        let mut prefixes: Vec<String> = Vec::new();
        let mut i: usize = 0;
        assert(all.take(0) =~= Seq::empty());
        assert(prefixes.deep_view() =~= Seq::empty());
        while i < strip_prefixes.len()
            invariant
                i <= strip_prefixes@.len(),
                all == strip_prefixes@.map_values(|p: String| p@),
                prefixes.deep_view() == directories(all.take(i as int)),
            decreases strip_prefixes@.len() - i,
        {
            let dir = trim_trailing_slash(normalize(strip_prefixes[i].as_str()).as_str());
            assert(all.take(i as int + 1).drop_last() =~= all.take(i as int));
            if !dir.as_str().is_empty() {
                append_one(&mut prefixes, dir);
            }
            i = i + 1;
        }
        assert(all.take(i as int) =~= all);
        PathMapper { source_root: root, strip_prefixes: prefixes }
    }

    /// Whether mapping is the identity, so that callers can skip the walk.
    pub fn is_noop(&self) -> (r: bool)
        ensures
            r == self@.is_noop(),
    {
        self.source_root.is_none() && self.strip_prefixes.len() == 0
    }

    pub fn map(&self, path: &str) -> (r: String)
        ensures
            r@ == self@.map(path@),
    {
        if self.is_noop() {
            return owned(path);
        }
        let mut current = normalize(path);
        if let Some(root) = &self.source_root {
            if let Some(rest) = strip_dir_prefix(current.as_str(), root.as_str()) {
                current = rest;
            }
        }
        let ghost all = self.strip_prefixes.deep_view();
        let mut i: usize = 0;
        assert(all.skip(0) =~= all);
        while i < self.strip_prefixes.len()
            invariant
                i <= self.strip_prefixes@.len(),
                all == self.strip_prefixes.deep_view(),
                self@.map(path@) == strip_first(current@, all.skip(i as int)),
            decreases self.strip_prefixes@.len() - i,
        {
            assert(all.skip(i as int).skip(1) =~= all.skip(i as int + 1));
            assert(all.skip(i as int)[0] == all[i as int]);
            if let Some(rest) = strip_dir_prefix(
                current.as_str(),
                self.strip_prefixes[i].as_str(),
            ) {
                return rest;
            }
            i = i + 1;
        }
        current
    }
}

/// A prefix is stripped on a segment boundary only: what is taken away is the
/// whole path, or the prefix and the slash behind it; of the root, its slash.
pub proof fn stripping_respects_segments(path: Seq<char>, prefix: Seq<char>)
    ensures
        match strip_dir(path, prefix) {
            Some(rest) => (path == prefix && rest.len() == 0) || path == opened(prefix) + rest,
            None => prefix.len() == 0 || (path != prefix && !starts_with(path, opened(prefix))),
        },
        prefix == slash() && is_absolute(path) ==> strip_dir(path, prefix) == Some(path.skip(1)),
{
    let dir = opened(prefix);
    if prefix.len() > 0 && path != prefix && starts_with(path, dir) {
        assert(path =~= path.take(dir.len() as int) + path.skip(dir.len() as int));
    }
    if prefix == slash() && is_absolute(path) {
        assert(path.take(1) =~= slash());
        assert(slash().skip(1) =~= Seq::empty());
    }
}

/// Mapping where nothing was asked for is the identity.
pub proof fn noop_mapping_is_the_identity(mapper: MapperView, path: Seq<char>)
    ensures
        mapper.is_noop() ==> mapper.map(path) == path,
{
}

/// A path that lies under the source root becomes relative to it: an absolute
/// path under `/` is left without its slash.
pub proof fn paths_under_the_root_become_relative(root: Seq<char>, path: Seq<char>)
    requires
        root.len() > 0,
        starts_with(normalized(path), opened(root)),
        normalized(path) != root,
    ensures
        (MapperView { source_root: Some(root), strip_prefixes: Seq::empty() }).map(path)
            == normalized(path).skip(opened(root).len() as int),
{
}

/// The first prefix that matches decides; those behind it play no part.
pub proof fn first_matching_prefix_wins(
    path: Seq<char>,
    before: Seq<Seq<char>>,
    prefix: Seq<char>,
    after: Seq<Seq<char>>,
)
    requires
        forall|i: int| 0 <= i < before.len() ==> strip_dir(path, #[trigger] before[i]) is None,
        strip_dir(path, prefix) is Some,
    ensures
        Some(strip_first(path, before.push(prefix) + after)) == strip_dir(path, prefix),
    decreases before.len(),
{
    let all = before.push(prefix) + after;
    if before.len() > 0 {
        assert(all[0] == before[0]);
        assert(all.skip(1) =~= before.skip(1).push(prefix) + after);
        assert forall|i: int| 0 <= i < before.skip(1).len() implies strip_dir(
            path,
            #[trigger] before.skip(1)[i],
        ) is None by {
            assert(before.skip(1)[i] == before[i + 1]);
        }
        first_matching_prefix_wins(path, before.skip(1), prefix, after);
    } else {
        assert(all[0] == prefix);
    }
}

} // verus!
