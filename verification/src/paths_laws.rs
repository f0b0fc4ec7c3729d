//! What normalizing paths promises.

use vstd::prelude::*;

use crate::paths::{
    directories, directory_of, dot, is_absolute, normalized, resolve, slash, strip_dir,
    without_trailing_slash,
};
use crate::text::{drop_trailing, replace_char, strip_prefix};

verus! {

/// An empty segment and a dot lead nowhere, a name leads into what it names.
pub proof fn names_lead_down(segments: Seq<Seq<char>>, name: Seq<char>, absolute: bool)
    ensures
        resolve(segments.push(Seq::empty()), absolute) == resolve(segments, absolute),
        resolve(segments.push(seq!['.']), absolute) == resolve(segments, absolute),
        name.len() > 0 && name != seq!['.'] && name != seq!['.', '.'] ==> resolve(
            segments.push(name),
            absolute,
        ) == resolve(segments, absolute).push(name),
{
    assert(segments.push(Seq::empty()).drop_last() =~= segments);
    assert(segments.push(seq!['.']).drop_last() =~= segments);
    assert(segments.push(name).drop_last() =~= segments);
}

/// Two dots lead out of the name before them. At the root they lead nowhere, and
/// from where a relative path begins they stay.
pub proof fn two_dots_lead_up(segments: Seq<Seq<char>>, name: Seq<char>, absolute: bool)
    requires
        name.len() > 0,
        name != seq!['.'],
        name != seq!['.', '.'],
    ensures
        resolve(segments.push(name).push(seq!['.', '.']), absolute) == resolve(segments, absolute),
        absolute && resolve(segments, absolute).len() == 0 ==> resolve(
            segments.push(seq!['.', '.']),
            absolute,
        ).len() == 0,
        !absolute && resolve(segments, absolute).len() == 0 ==> resolve(
            segments.push(seq!['.', '.']),
            absolute,
        ) == seq![seq!['.', '.']],
{
    names_lead_down(segments, name, absolute);
    let up = seq!['.', '.'];
    assert(up[0] == '.' && up.len() == 2);
    assert(segments.push(name).push(up).drop_last() =~= segments.push(name));
    assert(segments.push(up).drop_last() =~= segments);
    assert(resolve(segments, absolute).push(name).drop_last() =~= resolve(segments, absolute));
    assert(up != dot()) by {
        assert(dot().len() == 1);
    }
    if !absolute && resolve(segments, absolute).len() == 0 {
        assert(resolve(segments, absolute).push(up) =~= seq![up]);
    }
}

/// A backslash counts as a slash, and a path that begins with one stays absolute.
pub proof fn backslashes_are_slashes(path: Seq<char>)
    ensures
        normalized(replace_char(path, '\\', '/')) == normalized(path),
        path.len() > 0 && (path[0] == '/' || path[0] == '\\') ==> normalized(path).len() > 0
            && normalized(path)[0] == '/',
{
    let unified = replace_char(path, '\\', '/');
    assert(replace_char(unified, '\\', '/') =~= unified);
    if path.len() > 0 && (path[0] == '/' || path[0] == '\\') {
        assert(unified[0] == '/');
    }
}

/// A directory is taken off a path exactly where the path is in it, and what stays
/// is the path inside the directory.
pub proof fn directories_are_taken_off_whole(directory: Seq<char>, inside: Seq<char>)
    requires
        directory.len() > 0,
        directory != seq!['/'],
    ensures
        strip_dir(directory, directory) == Some(Seq::<char>::empty()),
        strip_dir(directory + seq!['/'] + inside, directory) == Some(inside),
        strip_dir(inside, Seq::empty()) is None,
        inside.len() > 0 && inside[0] != '/' ==> strip_dir(directory + inside, directory) is None,
{
    let path = directory + seq!['/'] + inside;
    let prefix = directory + slash();
    assert(directory != slash());
    assert(path.take(prefix.len() as int) =~= prefix);
    assert(path.skip(prefix.len() as int) =~= inside);
    assert(path.len() > directory.len());
    if inside.len() > 0 && inside[0] != '/' {
        let other = directory + inside;
        assert(other.len() > directory.len());
        if strip_prefix(other, prefix) is Some {
            assert(other.take(prefix.len() as int)[directory.len() as int] == '/');
            assert(other[directory.len() as int] == inside[0]);
        }
    }
}

/// A slash at the end of a directory says nothing, and the root stays the root.
pub proof fn directories_end_without_a_slash(path: Seq<char>)
    ensures
        without_trailing_slash(seq!['/']) == seq!['/'],
        path.len() > 0 && path.last() != '/' ==> without_trailing_slash(path) == path
            && without_trailing_slash(path.push('/')) == path,
{
    let root = seq!['/'];
    assert(root.drop_last() =~= Seq::empty());
    assert(drop_trailing(root.drop_last(), '/') =~= Seq::empty());
    assert(drop_trailing(root, '/') =~= Seq::empty());
    assert(is_absolute(root));
    if path.len() > 0 && path.last() != '/' {
        assert(path.push('/').drop_last() =~= path);
        assert(drop_trailing(path, '/') == path);
        assert(drop_trailing(path.push('/'), '/') == drop_trailing(path, '/'));
    }
}

/// The prefixes to strip are those that were given, as directories and in their
/// order, but for the empty ones.
pub proof fn prefixes_keep_their_order(list: Seq<Seq<char>>, path: Seq<char>)
    ensures
        directories(Seq::empty()).len() == 0,
        directories(list.push(path)) == if directory_of(path).len() == 0 {
            directories(list)
        } else {
            directories(list).push(directory_of(path))
        },
{
    assert(list.push(path).drop_last() =~= list);
}

} // verus!
