//! Laws of finding videos.

use vstd::prelude::*;

use crate::laws::steps::{
    lemma_places, lemma_sorted_holds, same_paths, the_order_of_finding_makes_no_difference,
};
use crate::paths::{holds, is_sorted_set, steps, Step};
use crate::pipeline::{hidden, is_video, videos_at, PathEntry};

verus! {

/// Whatever is found at the paths that the user gave is a video by its extension.
pub proof fn only_videos_are_found(list: Seq<PathEntry>, recursive: bool, k: int)
    requires
        0 <= k < videos_at(list, recursive).len(),
    ensures
        is_video(videos_at(list, recursive)[k]),
    decreases list.len(),
{
    if list.len() > 0 {
        let before = videos_at(list.drop_last(), recursive);
        if k < before.len() {
            only_videos_are_found(list.drop_last(), recursive, k);
        } else {
            let entry = list.last();
            match entry {
                PathEntry::Dir { path, entries } => {
                    lemma_among(entry, entries.len() as nat, recursive, k - before.len());
                },
                _ => {},
            }
        }
    }
}

proof fn lemma_inside(entry: PathEntry, recursive: bool, k: int)
    requires
        0 <= k < entry.videos_inside(recursive).len(),
    ensures
        is_video(entry.videos_inside(recursive)[k]),
    decreases entry, entry.width() + 2,
{
    match entry {
        PathEntry::Dir { path, entries } => {
            lemma_among(entry, entries.len() as nat, recursive, k);
        },
        _ => {},
    }
}

proof fn lemma_among(entry: PathEntry, n: nat, recursive: bool, k: int)
    requires
        0 <= k < entry.videos_among(n, recursive).len(),
    ensures
        is_video(entry.videos_among(n, recursive)[k]),
    decreases entry, n + 1,
{
    match entry {
        PathEntry::Dir { path, entries } => {
            if 0 < n <= entries.len() {
                let before = entry.videos_among((n - 1) as nat, recursive);
                if k < before.len() {
                    lemma_among(entry, (n - 1) as nat, recursive, k);
                } else {
                    lemma_inside(entries[n - 1], recursive, k - before.len());
                }
            }
        },
        _ => {},
    }
}

/// What is found in a row of lists is found in one of them.
proof fn lemma_contains_both(a: Seq<Seq<char>>, b: Seq<Seq<char>>, x: Seq<char>)
    ensures
        (a + b).contains(x) <==> a.contains(x) || b.contains(x),
{
    if (a + b).contains(x) {
        let i = choose|i: int| 0 <= i < (a + b).len() && (a + b)[i] == x;
        if i < a.len() {
            assert(a[i] == x);
        } else {
            assert(b[i - a.len()] == x);
        }
    }
    if a.contains(x) {
        let i = choose|i: int| 0 <= i < a.len() && a[i] == x;
        assert((a + b)[i] == x);
    }
    if b.contains(x) {
        let i = choose|i: int| 0 <= i < b.len() && b[i] == x;
        assert((a + b)[a.len() + i] == x);
    }
}

/// A video is found just where it is found at one of the paths.
proof fn lemma_found_at(list: Seq<PathEntry>, recursive: bool, x: Seq<char>)
    ensures
        videos_at(list, recursive).contains(x) <==> exists|i: int|
            0 <= i < list.len() && (#[trigger] list[i]).videos(recursive).contains(x),
    decreases list.len(),
{
    if list.len() > 0 {
        let front = list.drop_last();
        lemma_found_at(front, recursive, x);
        lemma_contains_both(videos_at(front, recursive), list.last().videos(recursive), x);
        if videos_at(front, recursive).contains(x) {
            let i = choose|i: int|
                0 <= i < front.len() && (#[trigger] front[i]).videos(recursive).contains(x);
            assert(list[i].videos(recursive).contains(x));
        }
        if list.last().videos(recursive).contains(x) {
            assert(list[list.len() - 1].videos(recursive).contains(x));
        }
        if exists|i: int|
            0 <= i < list.len() && (#[trigger] list[i]).videos(recursive).contains(x) {
            let i = choose|i: int|
                0 <= i < list.len() && (#[trigger] list[i]).videos(recursive).contains(x);
            if i < front.len() {
                assert(front[i].videos(recursive).contains(x));
            }
        }
    }
}

/// Lists that hold each other's texts hold the same paths.
proof fn lemma_same_texts(a: Seq<Seq<char>>, b: Seq<Seq<char>>)
    requires
        forall|x: Seq<char>| #[trigger] a.contains(x) ==> b.contains(x),
    ensures
        forall|path: Seq<Step>| #[trigger] holds(a, path) ==> holds(b, path),
{
    assert forall|path: Seq<Step>| #[trigger] holds(a, path) implies holds(b, path) by {
        let j = choose|j: int| 0 <= j < a.len() && steps(#[trigger] a[j]) == path;
        assert(a.contains(a[j]));
        assert(b.contains(a[j]));
        let k = choose|k: int| 0 <= k < b.len() && b[k] == a[j];
        assert(steps(b[k]) == path);
    }
}

/// Whether every entry of the one list is in the other.
pub open spec fn all_in(a: Seq<PathEntry>, b: Seq<PathEntry>) -> bool {
    forall|i: int| 0 <= i < a.len() ==> b.contains(#[trigger] a[i])
}

proof fn lemma_all_in(a: Seq<PathEntry>, b: Seq<PathEntry>, recursive: bool)
    requires
        all_in(a, b),
    ensures
        forall|path: Seq<Step>| #[trigger]
            holds(videos_at(a, recursive), path) ==> holds(videos_at(b, recursive), path),
{
    assert forall|x: Seq<char>| #[trigger] videos_at(a, recursive).contains(x) implies videos_at(
        b,
        recursive,
    ).contains(x) by {
        lemma_found_at(a, recursive, x);
        lemma_found_at(b, recursive, x);
        let i = choose|i: int|
            0 <= i < a.len() && (#[trigger] a[i]).videos(recursive).contains(x);
        assert(b.contains(a[i]));
        let j = choose|j: int| 0 <= j < b.len() && b[j] == a[i];
        assert(b[j].videos(recursive).contains(x));
    }
    lemma_same_texts(videos_at(a, recursive), videos_at(b, recursive));
}

/// To give the paths in another order, or some of them more than once, changes
/// nothing of what is found: `r` and `other_r` are what a scan gives for them.
pub proof fn scans_do_not_depend_on_the_order(
    paths: Seq<PathEntry>,
    other: Seq<PathEntry>,
    recursive: bool,
    r: Seq<Seq<char>>,
    other_r: Seq<Seq<char>>,
)
    requires
        all_in(paths, other),
        all_in(other, paths),
        is_sorted_set(r, videos_at(paths, recursive)),
        is_sorted_set(other_r, videos_at(other, recursive)),
    ensures
        r.len() == other_r.len(),
        forall|i: int| 0 <= i < r.len() ==> steps(#[trigger] r[i]) == steps(other_r[i]),
{
    lemma_all_in(paths, other, recursive);
    lemma_all_in(other, paths, recursive);
    let a = videos_at(paths, recursive);
    let b = videos_at(other, recursive);
    assert(same_paths(a, b)) by {
        assert forall|path: Seq<Step>| #[trigger] holds(a, path) <==> holds(b, path) by {
            if holds(b, path) {
                assert(holds(a, path));
            }
        }
    }
    the_order_of_finding_makes_no_difference(r, a, other_r, b);
}

/// What is found in a directory itself is also found where the directories in it
/// are looked into.
proof fn lemma_one_level(entry: PathEntry, n: nat, x: Seq<char>)
    requires
        entry.videos_among(n, false).contains(x),
    ensures
        entry.videos_among(n, true).contains(x),
    decreases n,
{
    match entry {
        PathEntry::Dir { path, entries } => {
            if 0 < n <= entries.len() {
                let m = (n - 1) as nat;
                let last = entries[n - 1];
                lemma_contains_both(entry.videos_among(m, false), last.videos_inside(false), x);
                lemma_contains_both(entry.videos_among(m, true), last.videos_inside(true), x);
                if entry.videos_among(m, false).contains(x) {
                    lemma_one_level(entry, m, x);
                } else {
                    match last {
                        PathEntry::Dir { path: _, entries: _ } => {},
                        _ => {},
                    }
                }
            }
        },
        _ => {},
    }
}

/// The videos of one level are among those of all levels: `flat` is what a scan
/// gives without the directories below, `deep` what it gives with them.
pub proof fn one_level_is_part_of_all_levels(
    paths: Seq<PathEntry>,
    flat: Seq<Seq<char>>,
    deep: Seq<Seq<char>>,
    i: int,
)
    requires
        is_sorted_set(flat, videos_at(paths, false)),
        is_sorted_set(deep, videos_at(paths, true)),
        0 <= i < flat.len(),
    ensures
        holds(deep, steps(flat[i])),
{
    let a = videos_at(paths, false);
    let b = videos_at(paths, true);
    assert forall|x: Seq<char>| #[trigger] a.contains(x) implies b.contains(x) by {
        lemma_found_at(paths, false, x);
        lemma_found_at(paths, true, x);
        let k = choose|k: int|
            0 <= k < paths.len() && (#[trigger] paths[k]).videos(false).contains(x);
        match paths[k] {
            PathEntry::Dir { path, entries } => {
                lemma_one_level(paths[k], entries.len() as nat, x);
            },
            _ => {},
        }
        assert(paths[k].videos(true).contains(x));
    }
    lemma_same_texts(a, b);
    lemma_sorted_holds(flat, a);
    lemma_sorted_holds(deep, b);
    let path = steps(flat[i]);
    assert(holds(flat, path));
    assert(holds(a, path));
    assert(holds(b, path));
    assert(holds(deep, path));
}

/// Whether one entry lies in the other, which is a directory.
pub open spec fn lies_in(inner: PathEntry, outer: PathEntry) -> bool {
    outer matches PathEntry::Dir { path, entries } && entries@.contains(inner)
}

/// Whether the entries lead down from a directory to a file: each lies in the one
/// before it, and none that is on the way, nor the file, is hidden. The directory
/// that the way begins with may be.
pub open spec fn leads_down(way: Seq<PathEntry>) -> bool {
    &&& way.len() >= 2
    &&& way.last() !is Dir
    &&& forall|k: int|
        1 <= k < way.len() ==> lies_in(#[trigger] way[k], way[k - 1]) && !hidden(way[k].path())
}

/// Whether a video is at one of the given paths, or at the end of a way down from
/// one: of any length, or straight in the given directory.
pub open spec fn is_reached(given: Seq<PathEntry>, recursive: bool, video: Seq<char>) -> bool {
    is_video(video) && ({
        ||| exists|i: int|
            0 <= i < given.len() && (#[trigger] given[i] matches PathEntry::File(p) && p@ == video)
        ||| exists|way: Seq<PathEntry>| #[trigger]
            leads_down(way) && given.contains(way[0]) && way.last().path() == video && (recursive
                || way.len() == 2)
    })
}

/// The rest of a way leads down, where it is long enough.
proof fn lemma_further(way: Seq<PathEntry>)
    requires
        leads_down(way),
        way.len() > 2,
    ensures
        leads_down(way.skip(1)),
        way.skip(1).last() == way.last(),
        way.skip(1)[0] == way[1],
        way[1] is Dir,
{
    let rest = way.skip(1);
    assert forall|k: int| 1 <= k < rest.len() implies lies_in(#[trigger] rest[k], rest[k - 1])
        && !hidden(rest[k].path()) by {
        assert(rest[k] == way[k + 1] && rest[k - 1] == way[k + 1 - 1]);
    }
    assert(lies_in(way[2], way[2 - 1]));
}

/// What is found in an entry of a directory is found among all of them.
proof fn lemma_found_among(entry: PathEntry, n: nat, recursive: bool, x: Seq<char>)
    requires
        entry matches PathEntry::Dir { path, entries } && n <= entries.len(),
    ensures
        entry.videos_among(n, recursive).contains(x) <==> exists|i: int|
            0 <= i < n && (#[trigger] entry->entries[i]).videos_inside(recursive).contains(x),
    decreases n,
{
    let entries = entry->entries;
    if n > 0 {
        let m = (n - 1) as nat;
        lemma_found_among(entry, m, recursive, x);
        lemma_contains_both(
            entry.videos_among(m, recursive),
            entries[n - 1].videos_inside(recursive),
            x,
        );
        if exists|i: int|
            0 <= i < n && (#[trigger] entries[i]).videos_inside(recursive).contains(x) {
            let i = choose|i: int|
                0 <= i < n && (#[trigger] entries[i]).videos_inside(recursive).contains(x);
            if i < m {
                assert(entries[i].videos_inside(recursive).contains(x));
            }
        }
        if entry.videos_among(m, recursive).contains(x) {
            let i = choose|i: int|
                0 <= i < m && (#[trigger] entries[i]).videos_inside(recursive).contains(x);
            assert(0 <= i < n && entries[i].videos_inside(recursive).contains(x));
        }
        if entries[n - 1].videos_inside(recursive).contains(x) {
            assert(0 <= n - 1 < n);
        }
    }
}

/// The end of a way down is found in the directory that it begins with.
proof fn lemma_way_found(way: Seq<PathEntry>, recursive: bool)
    requires
        leads_down(way),
        is_video(way.last().path()),
        recursive || way.len() == 2,
    ensures
        way[0].videos(recursive).contains(way.last().path()),
    decreases way.len(),
{
    let x = way.last().path();
    assert(lies_in(way[1], way[1 - 1]));
    let entries = way[0]->entries;
    let i = choose|i: int| 0 <= i < entries@.len() && entries@[i] == way[1];
    assert(entries[i] == way[1]);
    if way.len() == 2 {
        assert(way[1].videos_inside(recursive) == seq![x]);
        assert(seq![x][0] == x);
    } else {
        lemma_further(way);
        lemma_way_found(way.skip(1), recursive);
        assert(way[1].videos_inside(recursive) == way[1].videos(recursive));
    }
    assert(entries[i].videos_inside(recursive).contains(x));
    lemma_found_among(way[0], entries.len() as nat, recursive, x);
}

/// To whatever is found in a directory a way leads down from it.
proof fn lemma_found_way(entry: PathEntry, recursive: bool, x: Seq<char>) -> (way: Seq<PathEntry>)
    requires
        entry is Dir,
        entry.videos(recursive).contains(x),
    ensures
        leads_down(way),
        way[0] == entry,
        way.last().path() == x,
        is_video(x),
        recursive || way.len() == 2,
    decreases entry,
{
    let entries = entry->entries;
    lemma_found_among(entry, entries.len() as nat, recursive, x);
    let i = choose|i: int|
        0 <= i < entries.len() && (#[trigger] entries[i]).videos_inside(recursive).contains(x);
    let inner = entries[i];
    assert(entries@[i] == inner);
    assert(lies_in(inner, entry));
    match inner {
        PathEntry::Dir { path, entries: _ } => {
            assert(decreases_to!(entry => inner));
            let rest = lemma_found_way(inner, recursive, x);
            let way = seq![entry] + rest;
            assert forall|k: int| 1 <= k < way.len() implies lies_in(#[trigger] way[k], way[k - 1])
                && !hidden(way[k].path()) by {
                if k > 1 {
                    assert(way[k] == rest[k - 1] && way[k - 1] == rest[k - 1 - 1]);
                }
            }
            assert(way.last() == rest.last());
            way
        },
        _ => {
            assert(inner.videos_inside(recursive) == seq![inner.path()]);
            let way = seq![entry, inner];
            assert(leads_down(way));
            way
        },
    }
}

/// A file is found just where its extension is that of a video, and it was given
/// itself, or a way leads down to it from a directory that was given: a chain of
/// entries of any length, none of them hidden. Without the directories below, the
/// way is no longer than from the given directory to what lies in it.
pub proof fn videos_are_found_just_where_a_way_leads(
    given: Seq<PathEntry>,
    recursive: bool,
    video: Seq<char>,
)
    ensures
        videos_at(given, recursive).contains(video) <==> is_reached(given, recursive, video),
{
    lemma_found_at(given, recursive, video);
    if videos_at(given, recursive).contains(video) {
        let i = choose|i: int|
            0 <= i < given.len() && (#[trigger] given[i]).videos(recursive).contains(video);
        match given[i] {
            PathEntry::Dir { path, entries } => {
                let way = lemma_found_way(given[i], recursive, video);
                assert(leads_down(way) && given.contains(way[0]));
            },
            _ => {},
        }
    }
    if is_reached(given, recursive, video) {
        if exists|i: int|
            0 <= i < given.len() && (#[trigger] given[i] matches PathEntry::File(p) && p@ == video) {
            let i = choose|i: int|
                0 <= i < given.len() && (#[trigger] given[i] matches PathEntry::File(p) && p@
                    == video);
            assert(given[i].videos(recursive) == seq![video]);
            assert(seq![video][0] == video);
            assert(given[i].videos(recursive).contains(video));
        } else {
            let way = choose|way: Seq<PathEntry>| #[trigger]
                leads_down(way) && given.contains(way[0]) && way.last().path() == video && (
                recursive || way.len() == 2);
            lemma_way_found(way, recursive);
            let i = choose|i: int| 0 <= i < given.len() && given[i] == way[0];
            assert(given[i].videos(recursive).contains(video));
        }
    }
}

/// What a scan gives holds each video that is reached, and nothing else; each once,
/// whatever ways lead to it.
pub proof fn scans_give_what_is_reached(
    given: Seq<PathEntry>,
    recursive: bool,
    r: Seq<Seq<char>>,
    path: Seq<Step>,
)
    requires
        is_sorted_set(r, videos_at(given, recursive)),
    ensures
        holds(r, path) <==> exists|video: Seq<char>| #[trigger]
            is_reached(given, recursive, video) && steps(video) == path,
        forall|i: int, j: int|
            0 <= i < r.len() && 0 <= j < r.len() && steps(#[trigger] r[i]) == steps(
                #[trigger] r[j],
            ) ==> i == j,
{
    let all = videos_at(given, recursive);
    assert forall|i: int, j: int|
        0 <= i < r.len() && 0 <= j < r.len() && steps(#[trigger] r[i]) == steps(
            #[trigger] r[j],
        ) implies i == j by {
        lemma_places(r, i, j);
        lemma_places(r, j, i);
    }
    lemma_sorted_holds(r, all);
    if holds(r, path) {
        assert(holds(all, path));
        let j = choose|j: int| 0 <= j < all.len() && steps(#[trigger] all[j]) == path;
        videos_are_found_just_where_a_way_leads(given, recursive, all[j]);
        assert(all.contains(all[j]));
        assert(is_reached(given, recursive, all[j]));
    }
    if exists|video: Seq<char>| #[trigger]
        is_reached(given, recursive, video) && steps(video) == path {
        let video = choose|video: Seq<char>| #[trigger]
            is_reached(given, recursive, video) && steps(video) == path;
        videos_are_found_just_where_a_way_leads(given, recursive, video);
        let j = choose|j: int| 0 <= j < all.len() && all[j] == video;
        assert(steps(all[j]) == path);
        assert(holds(all, path));
    }
}

} // verus!
