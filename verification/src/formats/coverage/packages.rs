//! The packages of a coverage report: its files by where they lie.

use vstd::prelude::*;

use crate::model::coverage::{
    directory_part, package_name, FileCoverage, FileCoverageView,
};
use crate::order::{peers, same_peers_sort_alike, sorted};
use crate::text::{lex_lt_total, owned, same};
use crate::value::{append_one, empty_list, flat, with_all_new, Value};

verus! {

/// The files of one place.
pub struct Package {
    pub name: String,
    pub files: Vec<FileCoverage>,
}

/// The content of a [`Package`].
pub struct PackageView {
    pub name: Seq<char>,
    pub files: Seq<FileCoverageView>,
}

impl DeepView for Package {
    type V = PackageView;

    open spec fn deep_view(&self) -> PackageView {
        PackageView { name: self.name.deep_view(), files: self.files.deep_view() }
    }
}

/// The position of the package of this name, or the length.
pub open spec fn package_at(packages: Seq<PackageView>, name: Seq<char>) -> int
    decreases packages.len(),
{
    if packages.len() == 0 || packages[0].name == name {
        0
    } else {
        1 + package_at(packages.skip(1), name)
    }
}

/// The packages with one more file: behind the other files of its package, or in
/// a package of its own behind the other packages.
pub open spec fn with_file(
    packages: Seq<PackageView>,
    name: Seq<char>,
    file: FileCoverageView,
) -> Seq<PackageView> {
    let at = package_at(packages, name);
    if at < packages.len() {
        packages.update(
            at,
            PackageView { files: packages[at].files.push(file), ..packages[at] },
        )
    } else {
        packages.push(PackageView { name, files: seq![file] })
    }
}

/// The files by name, in the order in which the names come up.
pub open spec fn packages_by(
    files: Seq<FileCoverageView>,
    name: spec_fn(FileCoverageView) -> Seq<char>,
) -> Seq<PackageView>
    decreases files.len(),
{
    if files.len() == 0 {
        Seq::empty()
    } else {
        with_file(packages_by(files.drop_last(), name), name(files.last()), files.last())
    }
}

/// The dotted name of the directory of a file.
pub open spec fn dotted() -> spec_fn(FileCoverageView) -> Seq<char> {
    |file: FileCoverageView| package_name(file.path)
}

/// The directory of a file.
pub open spec fn placed() -> spec_fn(FileCoverageView) -> Seq<char> {
    |file: FileCoverageView| directory_part(file.path)
}

/// The files of the packages, one package behind the other.
pub open spec fn gathered(packages: Seq<PackageView>) -> Seq<FileCoverageView> {
    flat(packages, |p: PackageView| p.files)
}

fn find_package(packages: &Vec<Package>, name: &str) -> (r: usize)
    ensures
        r <= packages@.len(),
        r == package_at(packages.deep_view(), name@),
{
    let ghost all = packages.deep_view();
    let mut at: usize = 0;
    assert(all.skip(0) =~= all);
    while at < packages.len() && !same(packages[at].name.as_str(), name)
        invariant
            at <= packages@.len(),
            all == packages.deep_view(),
            package_at(all, name@) == at + package_at(all.skip(at as int), name@),
        decreases packages@.len() - at,
    {
        assert(all.skip(at as int)[0] == all[at as int]);
        assert(all.skip(at as int).skip(1) =~= all.skip(at as int + 1));
        at = at + 1;
    }
    proof {
        if at < packages@.len() {
            assert(all.skip(at as int)[0] == all[at as int]);
        }
    }
    at
}

fn add_file(packages: &mut Vec<Package>, name: String, file: FileCoverage)
    ensures
        final(packages).deep_view() == with_file(
            old(packages).deep_view(),
            name@,
            file.deep_view(),
        ),
{
    let at = find_package(packages, name.as_str());
    let ghost before = packages.deep_view();
    if at < packages.len() {
        append_one(&mut packages[at].files, file);
        assert(packages.deep_view() =~= with_file(before, name@, file.deep_view()));
    } else {
        let mut files: Vec<FileCoverage> = empty_list();
        append_one(&mut files, file);
        packages.push(Package { name, files });
        assert(files.deep_view() =~= seq![file.deep_view()]);
        assert(packages.deep_view() =~= with_file(before, name@, file.deep_view()));
    }
}

fn group<F: Fn(&FileCoverage) -> String>(
    files: &Vec<FileCoverage>,
    f: F,
    Ghost(name): Ghost<spec_fn(FileCoverageView) -> Seq<char>>,
) -> (r: Vec<Package>)
    requires
        forall|file: &FileCoverage| call_requires(f, (file,)),
        forall|file: &FileCoverage, y: String| #[trigger]
            call_ensures(f, (file,), y) ==> y@ == name(file.deep_view()),
    ensures
        r.deep_view() == packages_by(files.deep_view(), name),
{
    let ghost all = files.deep_view();
    let mut packages: Vec<Package> = Vec::new();
    let mut i: usize = 0;
    assert(all.take(0) =~= Seq::empty());
    assert(packages.deep_view() =~= Seq::empty());
    while i < files.len()
        invariant
            i <= files@.len(),
            all == files.deep_view(),
            packages.deep_view() == packages_by(all.take(i as int), name),
            forall|file: &FileCoverage| call_requires(f, (file,)),
            forall|file: &FileCoverage, y: String| #[trigger]
                call_ensures(f, (file,), y) ==> y@ == name(file.deep_view()),
        decreases files@.len() - i,
    {
        assert(all.take(i as int + 1).drop_last() =~= all.take(i as int));
        assert(all[i as int] == files[i as int].deep_view());
        let own = f(&files[i]);
        add_file(&mut packages, own, files[i].copy());
        i = i + 1;
    }
    assert(all.take(i as int) =~= all);
    packages
}

/// The files by the dotted name of their directory.
pub fn by_package(files: &Vec<FileCoverage>) -> (r: Vec<Package>)
    ensures
        r.deep_view() == packages_by(files.deep_view(), dotted()),
{
    group(
        files,
        |file: &FileCoverage| -> (y: String)
            ensures
                y@ == package_name(file.path@)
            { file.package() },
        Ghost(dotted()),
    )
}

/// The files by their directory.
pub fn by_directory(files: &Vec<FileCoverage>) -> (r: Vec<Package>)
    ensures
        r.deep_view() == packages_by(files.deep_view(), placed()),
{
    group(
        files,
        |file: &FileCoverage| -> (y: String)
            ensures
                y@ == directory_part(file.path@)
            { owned(file.directory()) },
        Ghost(placed()),
    )
}

// ---------------------------------------------------------------------------
// Laws
// ---------------------------------------------------------------------------

proof fn package_at_props(packages: Seq<PackageView>, name: Seq<char>)
    ensures
        0 <= package_at(packages, name) <= packages.len(),
        package_at(packages, name) < packages.len() ==> packages[package_at(
            packages,
            name,
        )].name == name,
        forall|i: int|
            0 <= i < package_at(packages, name) ==> (#[trigger] packages[i]).name != name,
    decreases packages.len(),
{
    if packages.len() > 0 && packages[0].name != name {
        let rest = packages.skip(1);
        package_at_props(rest, name);
        assert forall|i: int| 0 <= i < package_at(packages, name) implies (
        #[trigger] packages[i]).name != name by {
            if i > 0 {
                assert(rest[i - 1] == packages[i]);
            }
        }
    }
}

/// The names of the packages, in their order.
pub open spec fn names_of(packages: Seq<PackageView>) -> Seq<Seq<char>> {
    packages.map_values(|p: PackageView| p.name)
}

/// There is one package for each name that the files have, in the order in which
/// the names come up: no name has two.
pub proof fn each_name_has_one_package(
    files: Seq<FileCoverageView>,
    name: spec_fn(FileCoverageView) -> Seq<char>,
)
    ensures
        names_of(packages_by(files, name)) == with_all_new(
            Seq::empty(),
            files.map_values(name),
        ),
        forall|i: int, j: int|
            0 <= i < j < packages_by(files, name).len() ==> (#[trigger] packages_by(
                files,
                name,
            )[i]).name != (#[trigger] packages_by(files, name)[j]).name,
    decreases files.len(),
{
    let all = packages_by(files, name);
    if files.len() == 0 {
        assert(names_of(all) =~= Seq::empty());
        assert(files.map_values(name) =~= Seq::empty());
    } else {
        let head = files.drop_last();
        let before = packages_by(head, name);
        let own = name(files.last());
        each_name_has_one_package(head, name);
        package_at_props(before, own);
        let at = package_at(before, own);
        assert(files.map_values(name).drop_last() =~= head.map_values(name));
        let names = names_of(before);
        if at < before.len() {
            assert(names[at] == own);
            assert(names_of(all) =~= names);
        } else {
            assert(!names.contains(own)) by {
                if names.contains(own) {
                    let i = choose|i: int| 0 <= i < names.len() && names[i] == own;
                    assert(before[i].name == own);
                }
            }
            assert(names_of(all) =~= names.push(own));
        }
        assert forall|i: int, j: int| 0 <= i < j < all.len() implies (#[trigger] all[i]).name != (
        #[trigger] all[j]).name by {
            if j < before.len() {
                assert(all[i].name == before[i].name && all[j].name == before[j].name);
            } else {
                assert(all[i] == before[i]);
            }
        }
    }
}

/// A package holds all the files of its name, and no others, in their order.
pub proof fn packages_hold_all_their_files(
    files: Seq<FileCoverageView>,
    name: spec_fn(FileCoverageView) -> Seq<char>,
)
    ensures
        forall|i: int|
            0 <= i < packages_by(files, name).len() ==> (#[trigger] packages_by(
                files,
                name,
            )[i]).files == files.filter(
                |f: FileCoverageView| name(f) == packages_by(files, name)[i].name,
            ),
    decreases files.len(),
{
    reveal(Seq::filter);
    let all = packages_by(files, name);
    if files.len() > 0 {
        let head = files.drop_last();
        let before = packages_by(head, name);
        let own = name(files.last());
        packages_hold_all_their_files(head, name);
        package_at_props(before, own);
        each_name_has_one_package(head, name);
        let at = package_at(before, own);
        assert forall|i: int| 0 <= i < all.len() implies (#[trigger] all[i]).files
            == files.filter(|f: FileCoverageView| name(f) == all[i].name) by {
            let mine = |f: FileCoverageView| name(f) == all[i].name;
            if i < before.len() {
                let theirs = |f: FileCoverageView| name(f) == before[i].name;
                assert(before[i].files == head.filter(theirs));
                assert(mine =~= theirs);
                assert(i == at || before[i].name != own) by {
                    if i != at && before[i].name == own {
                        if i < at {
                            assert(false);
                        } else {
                            assert(before[at].name != before[i].name);
                        }
                    }
                }
            } else {
                assert(i == at);
                no_file_has_the_name(head, name, own);
                assert(head.filter(mine) == Seq::<FileCoverageView>::empty());
                assert(all[i].files =~= seq![files.last()]);
                assert(Seq::<FileCoverageView>::empty().push(files.last()) =~= seq![files.last()]);
            }
        }
    }
}

proof fn no_file_has_the_name(
    files: Seq<FileCoverageView>,
    name: spec_fn(FileCoverageView) -> Seq<char>,
    own: Seq<char>,
)
    requires
        package_at(packages_by(files, name), own) == packages_by(files, name).len(),
    ensures
        files.filter(|f: FileCoverageView| name(f) == own) == Seq::<FileCoverageView>::empty(),
    decreases files.len(),
{
    reveal(Seq::filter);
    if files.len() > 0 {
        let head = files.drop_last();
        let before = packages_by(head, name);
        let all = packages_by(files, name);
        let last = name(files.last());
        package_at_props(all, own);
        package_at_props(before, own);
        package_at_props(before, last);
        let at = package_at(before, own);
        if at < before.len() {
            assert(all[at].name == own);
        }
        no_file_has_the_name(head, name, own);
        let k = package_at(before, last);
        assert(all[k].name == last);
    } else {
        assert(files =~= Seq::empty());
    }
}

proof fn flat_around(packages: Seq<PackageView>, at: int)
    requires
        0 <= at < packages.len(),
    ensures
        gathered(packages) == gathered(packages.take(at)) + packages[at].files + gathered(
            packages.skip(at + 1),
        ),
    decreases packages.len(),
{
    let rest = packages.skip(at + 1);
    if at == packages.len() - 1 {
        assert(rest =~= Seq::empty());
        assert(packages.drop_last() =~= packages.take(at));
        assert(gathered(packages) =~= gathered(packages.take(at)) + packages[at].files + gathered(
            rest,
        ));
    } else {
        let head = packages.drop_last();
        flat_around(head, at);
        assert(head.take(at) =~= packages.take(at));
        assert(head.skip(at + 1) =~= rest.drop_last());
        assert(rest.last() == packages.last());
        assert(gathered(packages) =~= gathered(packages.take(at)) + packages[at].files + gathered(
            rest,
        ));
    }
}

/// One more file stands somewhere among the others; none of its name stands
/// behind it.
proof fn a_file_joins(
    files: Seq<FileCoverageView>,
    name: spec_fn(FileCoverageView) -> Seq<char>,
) -> (at: int)
    requires
        files.len() > 0,
    ensures
        0 <= at <= gathered(packages_by(files.drop_last(), name)).len(),
        gathered(packages_by(files, name)) == gathered(
            packages_by(files.drop_last(), name),
        ).insert(at, files.last()),
        forall|i: int|
            at <= i < gathered(packages_by(files.drop_last(), name)).len() ==> name(
                #[trigger] gathered(packages_by(files.drop_last(), name))[i],
            ) != name(files.last()),
{
    let head = files.drop_last();
    let before = packages_by(head, name);
    let all = packages_by(files, name);
    let file = files.last();
    let own = name(file);
    let k = package_at(before, own);
    package_at_props(before, own);
    if k < before.len() {
        flat_around(before, k);
        flat_around(all, k);
        assert(all.take(k) =~= before.take(k));
        assert(all.skip(k + 1) =~= before.skip(k + 1));
        let a = gathered(before.take(k));
        let b = before[k].files;
        let c = gathered(before.skip(k + 1));
        assert(gathered(all) =~= (a + b + c).insert((a.len() + b.len()) as int, file));
        assert forall|i: int| a.len() + b.len() <= i < (a + b + c).len() implies name(
            #[trigger] (a + b + c)[i],
        ) != own by {
            let rest = before.skip(k + 1);
            each_name_has_one_package(head, name);
            assert forall|j: int| 0 <= j < rest.len() implies (#[trigger] rest[j]).name != own
                && named(rest[j], name) by {
                assert(rest[j] == before[j + k + 1]);
                assert(before[k].name != before[j + k + 1].name);
                packages_are_named(head, name, j + k + 1);
            }
            gathered_lie_apart(rest, name, own, i - a.len() - b.len());
        }
        (a.len() + b.len()) as int
    } else {
        assert(all.drop_last() =~= before);
        assert(gathered(all) =~= gathered(before).insert(
            gathered(before).len() as int,
            file,
        ));
        gathered(before).len() as int
    }
}

/// The files of a package have its name.
spec fn named(package: PackageView, name: spec_fn(FileCoverageView) -> Seq<char>) -> bool {
    forall|i: int| 0 <= i < package.files.len() ==> name(#[trigger] package.files[i])
        == package.name
}

proof fn packages_are_named(
    files: Seq<FileCoverageView>,
    name: spec_fn(FileCoverageView) -> Seq<char>,
    i: int,
)
    requires
        0 <= i < packages_by(files, name).len(),
    ensures
        named(packages_by(files, name)[i], name),
    decreases files.len(),
{
    let head = files.drop_last();
    let before = packages_by(head, name);
    package_at_props(before, name(files.last()));
    if i < before.len() {
        packages_are_named(head, name, i);
    }
}

proof fn gathered_lie_apart(
    packages: Seq<PackageView>,
    name: spec_fn(FileCoverageView) -> Seq<char>,
    own: Seq<char>,
    i: int,
)
    requires
        forall|j: int|
            0 <= j < packages.len() ==> (#[trigger] packages[j]).name != own && named(
                packages[j],
                name,
            ),
        0 <= i < gathered(packages).len(),
    ensures
        name(gathered(packages)[i]) != own,
    decreases packages.len(),
{
    if packages.len() > 0 {
        let head = packages.drop_last();
        let last = packages[packages.len() - 1];
        if i < gathered(head).len() {
            assert forall|j: int| 0 <= j < head.len() implies (#[trigger] head[j]).name != own
                && named(head[j], name) by {
                assert(head[j] == packages[j]);
            }
            gathered_lie_apart(head, name, own, i);
        } else {
            assert(gathered(packages)[i] == last.files[i - gathered(head).len()]);
        }
    }
}

/// Grouping neither adds nor loses a file.
pub proof fn grouping_keeps_the_files(
    files: Seq<FileCoverageView>,
    name: spec_fn(FileCoverageView) -> Seq<char>,
)
    ensures
        gathered(packages_by(files, name)).to_multiset() == files.to_multiset(),
    decreases files.len(),
{
    broadcast use vstd::seq_lib::group_to_multiset_ensures;

    if files.len() > 0 {
        let head = files.drop_last();
        grouping_keeps_the_files(head, name);
        let at = a_file_joins(files, name);
        assert(files =~= head.push(files.last()));
        assert(files.to_multiset() =~= head.to_multiset().insert(files.last()));
        assert(gathered(packages_by(files, name)).to_multiset() =~= head.to_multiset().insert(
            files.last(),
        ));
    } else {
        assert(files =~= Seq::empty());
        assert(gathered(packages_by(files, name)) =~= Seq::empty());
    }
}

/// What holds of every file holds of every file of a package.
pub(crate) proof fn packages_are_of_the_files(
    files: Seq<FileCoverageView>,
    name: spec_fn(FileCoverageView) -> Seq<char>,
    ok: spec_fn(FileCoverageView) -> bool,
)
    requires
        forall|i: int| 0 <= i < files.len() ==> ok(#[trigger] files[i]),
    ensures
        forall|k: int, i: int|
            0 <= k < packages_by(files, name).len() && 0 <= i < packages_by(
                files,
                name,
            )[k].files.len() ==> ok(#[trigger] packages_by(files, name)[k].files[i]) && name(
                packages_by(files, name)[k].files[i],
            ) == packages_by(files, name)[k].name,
        forall|k: int|
            0 <= k < packages_by(files, name).len() ==> (#[trigger] packages_by(
                files,
                name,
            )[k]).files.len() > 0,
    decreases files.len(),
{
    if files.len() > 0 {
        let head = files.drop_last();
        let before = packages_by(head, name);
        let all = packages_by(files, name);
        assert forall|i: int| 0 <= i < head.len() implies ok(#[trigger] head[i]) by {
            assert(head[i] == files[i]);
        }
        packages_are_of_the_files(head, name, ok);
        package_at_props(before, name(files.last()));
        let at = package_at(before, name(files.last()));
        assert(ok(files[files.len() - 1]));
        assert forall|k: int, i: int|
            0 <= k < all.len() && 0 <= i < all[k].files.len() implies ok(
            #[trigger] all[k].files[i],
        ) && name(all[k].files[i]) == all[k].name by {
            if k < before.len() && i < before[k].files.len() {
                assert(all[k].files[i] == before[k].files[i]);
            }
        }
        assert forall|k: int| 0 <= k < all.len() implies (#[trigger] all[k]).files.len() > 0 by {
            if k < before.len() {
                assert(before[k].files.len() > 0);
            }
        }
    }
}

/// Files whose paths differ are gathered as files whose paths differ.
pub(crate) proof fn different_files_stay_different(
    files: Seq<FileCoverageView>,
    name: spec_fn(FileCoverageView) -> Seq<char>,
)
    requires
        forall|i: int, j: int|
            0 <= i < j < files.len() ==> (#[trigger] files[i]).path != (#[trigger] files[j]).path,
    ensures
        forall|i: int, j: int|
            0 <= i < j < gathered(packages_by(files, name)).len() ==> (#[trigger] gathered(
                packages_by(files, name),
            )[i]).path != (#[trigger] gathered(packages_by(files, name))[j]).path,
    decreases files.len(),
{
    if files.len() > 0 {
        let head = files.drop_last();
        let file = files.last();
        assert forall|i: int, j: int| 0 <= i < j < head.len() implies (#[trigger] head[i]).path != (
        #[trigger] head[j]).path by {
            assert(head[i] == files[i] && head[j] == files[j]);
        }
        different_files_stay_different(head, name);
        grouping_keeps_the_files(head, name);
        let before = gathered(packages_by(head, name));
        let all = gathered(packages_by(files, name));
        let at = a_file_joins(files, name);
        assert forall|i: int| 0 <= i < before.len() implies (#[trigger] before[i]).path
            != file.path by {
            before.to_multiset_ensures();
            head.to_multiset_ensures();
            assert(before.contains(before[i]));
            assert(head.to_multiset().count(before[i]) > 0);
            let j = choose|j: int| 0 <= j < head.len() && head[j] == before[i];
            assert(files[j].path != files[files.len() - 1].path);
        }
        assert forall|i: int, j: int| 0 <= i < j < all.len() implies (#[trigger] all[i]).path != (
        #[trigger] all[j]).path by {
            let x = if i < at {
                i
            } else {
                i - 1
            };
            let y = if j < at {
                j
            } else {
                j - 1
            };
            if i == at {
                assert(all[j] == before[y]);
            } else if j == at {
                assert(all[i] == before[x]);
            } else {
                assert(all[i] == before[x] && all[j] == before[y]);
            }
        }
    }
}

proof fn peers_of_parts(a: Seq<FileCoverageView>, b: Seq<FileCoverageView>, pivot: FileCoverageView)
    ensures
        peers::<FileCoverage>(a + b, pivot) == peers::<FileCoverage>(a, pivot) + peers::<
            FileCoverage,
        >(b, pivot),
    decreases b.len(),
{
    if b.len() == 0 {
        assert(a + b =~= a);
        assert(peers::<FileCoverage>(a, pivot) + b =~= peers::<FileCoverage>(a, pivot));
    } else {
        peers_of_parts(a, b.drop_last(), pivot);
        assert((a + b).drop_last() =~= a + b.drop_last());
        assert((a + b).last() == b.last());
        assert(peers::<FileCoverage>(a + b, pivot) =~= peers::<FileCoverage>(a, pivot) + peers::<
            FileCoverage,
        >(b, pivot));
    }
}

proof fn no_peers(s: Seq<FileCoverageView>, pivot: FileCoverageView)
    requires
        forall|i: int| 0 <= i < s.len() ==> (#[trigger] s[i]).path != pivot.path,
    ensures
        peers::<FileCoverage>(s, pivot) == Seq::<FileCoverageView>::empty(),
    decreases s.len(),
{
    if s.len() > 0 {
        let head = s.drop_last();
        assert forall|i: int| 0 <= i < head.len() implies (#[trigger] head[i]).path
            != pivot.path by {
            assert(head[i] == s[i]);
        }
        no_peers(head, pivot);
        assert(s[s.len() - 1].path != pivot.path);
        lex_lt_total(s.last().path, pivot.path);
    } else {
        assert(s =~= Seq::empty());
    }
}

/// Files of the same path keep their order, whatever becomes of what they hold.
proof fn grouping_keeps_peers(
    files: Seq<FileCoverageView>,
    name: spec_fn(FileCoverageView) -> Seq<char>,
    keep: spec_fn(FileCoverageView) -> FileCoverageView,
    pivot: FileCoverageView,
)
    requires
        forall|f: FileCoverageView| (#[trigger] keep(f)).path == f.path,
        forall|f: FileCoverageView, g: FileCoverageView|
            f.path == g.path ==> #[trigger] name(f) == #[trigger] name(g),
    ensures
        peers::<FileCoverage>(gathered(packages_by(files, name)).map_values(keep), pivot)
            == peers::<FileCoverage>(files.map_values(keep), pivot),
    decreases files.len(),
{
    let all = gathered(packages_by(files, name));
    if files.len() == 0 {
        assert(all.map_values(keep) =~= files.map_values(keep));
    } else {
        let head = files.drop_last();
        let file = files.last();
        let before = gathered(packages_by(head, name));
        grouping_keeps_peers(head, name, keep, pivot);
        let at = a_file_joins(files, name);
        let a = before.take(at).map_values(keep);
        let b = before.skip(at).map_values(keep);
        let one = seq![keep(file)];
        assert(before.map_values(keep) =~= a + b);
        assert(all.map_values(keep) =~= a + one + b);
        assert(files.map_values(keep) =~= head.map_values(keep) + one);
        peers_of_parts(a, b, pivot);
        peers_of_parts(a + one, b, pivot);
        peers_of_parts(a, one, pivot);
        peers_of_parts(head.map_values(keep), one, pivot);
        assert(one.drop_last() =~= Seq::empty());
        let pa = peers::<FileCoverage>(a, pivot);
        let pb = peers::<FileCoverage>(b, pivot);
        let po = peers::<FileCoverage>(one, pivot);
        if file.path == pivot.path {
            assert forall|i: int| 0 <= i < b.len() implies (#[trigger] b[i]).path
                != pivot.path by {
                assert(b[i] == keep(before[i + at]));
                assert(name(before[i + at]) != name(file));
            }
            no_peers(b, pivot);
            assert(pa + po + pb =~= pa + pb + po);
        } else {
            assert forall|i: int| 0 <= i < one.len() implies (#[trigger] one[i]).path
                != pivot.path by {}
            no_peers(one, pivot);
            assert(pa + po + pb =~= pa + pb + po);
        }
    }
}

/// Grouping is forgotten by sorting, whatever becomes of what the files hold.
pub(crate) proof fn grouped_files_sort_alike(
    files: Seq<FileCoverageView>,
    name: spec_fn(FileCoverageView) -> Seq<char>,
    keep: spec_fn(FileCoverageView) -> FileCoverageView,
)
    requires
        forall|f: FileCoverageView| (#[trigger] keep(f)).path == f.path,
        forall|f: FileCoverageView, g: FileCoverageView|
            f.path == g.path ==> #[trigger] name(f) == #[trigger] name(g),
    ensures
        sorted::<FileCoverage>(gathered(packages_by(files, name)).map_values(keep)) == sorted::<
            FileCoverage,
        >(files.map_values(keep)),
{
    let a = gathered(packages_by(files, name)).map_values(keep);
    let b = files.map_values(keep);
    assert forall|pivot: FileCoverageView| #[trigger]
        peers::<FileCoverage>(a, pivot) == peers::<FileCoverage>(b, pivot) by {
        grouping_keeps_peers(files, name, keep, pivot);
    }
    same_peers_sort_alike::<FileCoverage>(a, b);
}

} // verus!
