//! Laws of where outputs and the files of needle go.

use vstd::prelude::*;

use crate::laws::steps::last_step_is_the_file_name;
use crate::paths::{
    drive_len, extended, extension_in, extension_of, file_name_of, file_stem_of, has_drive,
    is_server, is_windows, joined_name, last_name, last_point, lemma_last_point, lemma_name_from,
    lemma_name_range, lemma_without_tail, name_end, name_from, name_start, parent_of, separates,
    stem_in, steps, without_tail,
};
use crate::pipeline::{is_video, output_for, spare_output, video_extensions};
use crate::skipfile::sidecars;
use crate::text::{lower_text, lowered};

verus! {

/// Whether a text can be the name of a file on every system: it has no separator
/// in it and is not `.` or `..`.
pub open spec fn is_plain_name(n: Seq<char>) -> bool {
    &&& n.len() > 0
    &&& forall|i: int| 0 <= i < n.len() ==> #[trigger] n[i] != '/' && n[i] != '\\'
    &&& n != "."@
    &&& n != ".."@
}

/// Where the last name begins that has nothing behind it: nowhere in the name
/// stands a separator, and before it stands one, or the least place.
proof fn lemma_name_from_is(p: Seq<char>, windows: bool, least: int, at: int)
    requires
        0 <= least <= at <= p.len(),
        forall|i: int| at <= i < p.len() ==> !separates(#[trigger] p[i], windows),
        at > least ==> separates(p[at - 1], windows),
    ensures
        name_from(p, windows, least) == at,
    decreases p.len(),
{
    if at < p.len() {
        assert(!separates(p[p.len() - 1], windows));
        let q = p.drop_last();
        assert(forall|i: int| at <= i < q.len() ==> q[i] == p[i]);
        lemma_name_from_is(q, windows, least, at);
    }
}

/// A path that is made of a front and a name ends in that name.
pub proof fn lemma_ends_in(p: Seq<char>, front: Seq<char>, n: Seq<char>)
    requires
        p == front + n,
        n.len() > 0,
        n != "."@,
        n != ".."@,
        forall|i: int| 0 <= i < n.len() ==> !separates(#[trigger] n[i], is_windows(p)),
        front.len() >= drive_len(p),
        front.len() > drive_len(p) ==> separates(front.last(), is_windows(p)),
    ensures
        name_start(p) == front.len(),
        name_end(p) == p.len(),
        last_name(p) == n,
        file_name_of(p) == (if is_server(front) {
            None
        } else {
            Some(n)
        }),
{
    let w = is_windows(p);
    assert(p.last() == n.last());
    assert(!separates(n[n.len() - 1], w));
    assert(without_tail(p, w) == p) by {
        if p.len() > 1 && p.last() == '.' && separates(p[p.len() - 2], w) {
            if n.len() > 1 {
                assert(p[p.len() - 2] == n[n.len() - 2]);
            } else {
                reveal_strlit(".");
                assert(n =~= "."@);
            }
        }
    }
    assert forall|i: int| front.len() <= i < p.len() implies !separates(#[trigger] p[i], w) by {
        assert(p[i] == n[i - front.len()]);
    }
    if front.len() > drive_len(p) {
        assert(p[front.len() - 1] == front.last());
    }
    lemma_name_from_is(p, w, drive_len(p), front.len() as int);
    assert(last_name(p) =~= n);
    assert(p.take(name_start(p)) =~= front);
}

/// Whether a text is a letter and a colon: a drive that no separator follows yet.
pub open spec fn is_bare_drive(p: Seq<char>) -> bool {
    p.len() == 2 && p[1] == ':' && has_drive(p.push('/'))
}

/// The file of a name in a directory has that name, even where the name looks like
/// a drive. (In the place of a machine there are shares, and no files.)
pub proof fn joined_paths_end_in_the_name(dir: Seq<char>, name: Seq<char>)
    requires
        is_plain_name(name),
        !is_bare_drive(dir),
    ensures
        last_name(joined_name(dir, name)) == name,
        file_name_of(joined_name(dir, name)) == (if is_server(
            joined_name(dir, name).take(joined_name(dir, name).len() - name.len()),
        ) {
            None
        } else {
            Some(name)
        }),
{
    reveal_strlit("/");
    reveal_strlit("\\");
    let p = joined_name(dir, name);
    let front = p.take(p.len() - name.len());
    assert(p =~= front + name);
    assert(forall|i: int| 0 <= i < dir.len() ==> p[i] == dir[i]);
    assert(name[0] != '\\' && name[0] != '/');
    if dir.len() == 0 {
        assert(p =~= name);
        if name.len() > 2 {
            assert(name[2] != '/' && name[2] != '\\');
        }
    } else if dir.len() == 1 {
        assert(dir[0] == '/' || dir[0] == '\\' || p[1] == '/');
    } else if dir.len() == 2 {
        assert(dir.push('/')[0] == dir[0] && dir.push('/')[1] == dir[1]);
        assert(!has_drive(p));
    }
    assert(has_drive(p) == has_drive(dir));
    assert(is_windows(p) == is_windows(dir));
    assert forall|i: int| 0 <= i < name.len() implies !separates(
        #[trigger] name[i],
        is_windows(p),
    ) by {
        assert(name[i] != '/' && name[i] != '\\');
    }
    if front.len() > drive_len(p) {
        assert(front.last() == p[front.len() - 1]);
    }
    lemma_ends_in(p, front, name);
}

/// The last point of a name with an extension behind it.
pub proof fn lemma_last_point_is(n: Seq<char>, at: int)
    requires
        0 <= at < n.len(),
        n[at] == '.',
        forall|i: int| at < i < n.len() ==> #[trigger] n[i] != '.',
    ensures
        last_point(n) == at,
    decreases n.len(),
{
    if at < n.len() - 1 {
        assert(n[n.len() - 1] != '.');
        let q = n.drop_last();
        assert(forall|i: int| at < i < q.len() ==> q[i] == n[i]);
        lemma_last_point_is(q, at);
    }
}

/// The name of an output.
pub open spec fn output_name(input: Seq<char>, suffix: Seq<char>) -> Seq<char> {
    (match file_stem_of(input) {
        Some(s) => s,
        None => "output"@,
    }) + suffix + "."@ + (match extension_of(input) {
        Some(e) => e,
        None => "mkv"@,
    })
}

/// The parts of a file name: something before the extension, and no point in it.
proof fn lemma_name_parts(name: Seq<char>)
    requires
        name.len() > 0,
    ensures
        stem_in(name).len() > 0,
        extension_in(name) matches Some(e) ==> forall|i: int|
            0 <= i < e.len() ==> #[trigger] e[i] != '.',
{
    lemma_last_point(name);
    if let Some(e) = extension_in(name) {
        assert forall|i: int| 0 <= i < e.len() implies #[trigger] e[i] != '.' by {
            assert(e[i] == name[last_point(name) + 1 + i]);
        }
    }
}

/// What a name with a suffix and an extension behind it is made of.
proof fn lemma_suffixed(stem: Seq<char>, suffix: Seq<char>, ext: Seq<char>)
    requires
        stem.len() > 0,
        forall|i: int| 0 <= i < ext.len() ==> #[trigger] ext[i] != '.',
    ensures
        stem_in(stem + suffix + "."@ + ext) == stem + suffix,
        extension_in(stem + suffix + "."@ + ext) == Some(ext),
{
    reveal_strlit(".");
    let n = stem + suffix + "."@ + ext;
    let at = (stem + suffix).len() as int;
    assert(n[at] == '.');
    assert forall|i: int| at < i < n.len() implies #[trigger] n[i] != '.' by {
        assert(n[i] == ext[i - at - 1]);
    }
    lemma_last_point_is(n, at);
    assert(n.take(at) =~= stem + suffix);
    assert(n.skip(at + 1) =~= ext);
}

/// The stem and the extension of an output's name.
proof fn lemma_output_name(input: Seq<char>, suffix: Seq<char>)
    ensures
        extension_in(output_name(input, suffix)) == Some(
            match extension_of(input) {
                Some(e) => e,
                None => "mkv"@,
            },
        ),
        suffix.len() > 0 ==> file_name_of(input) != Some(output_name(input, suffix)),
{
    reveal_strlit("mkv");
    reveal_strlit("output");
    if let Some(name) = file_name_of(input) {
        lemma_name_parts(name);
    }
    let stem = match file_stem_of(input) {
        Some(s) => s,
        None => "output"@,
    };
    let ext = match extension_of(input) {
        Some(e) => e,
        None => "mkv"@,
    };
    lemma_suffixed(stem, suffix, ext);
    if suffix.len() > 0 && file_name_of(input) == Some(output_name(input, suffix)) {
        assert(stem_in(output_name(input, suffix)) == stem);
        assert((stem + suffix).len() == stem.len());
    }
}

/// An output has the extension of its input, so that everything in it fits into
/// the new file; `mkv` where the input has none. And it is never called like the
/// input, where there is a suffix.
pub proof fn outputs_keep_the_container(input: Seq<char>, out_dir: Seq<char>, suffix: Seq<char>)
    requires
        is_plain_name(output_name(input, suffix)),
        !is_bare_drive(out_dir),
        file_name_of(output_for(input, out_dir, suffix)) is Some,
    ensures
        file_name_of(output_for(input, out_dir, suffix)) == Some(output_name(input, suffix)),
        extension_of(output_for(input, out_dir, suffix)) == Some(
            match extension_of(input) {
                Some(e) => e,
                None => "mkv"@,
            },
        ),
        suffix.len() > 0 ==> file_name_of(output_for(input, out_dir, suffix)) != file_name_of(
            input,
        ),
{
    let n = output_name(input, suffix);
    assert(output_for(input, out_dir, suffix) == joined_name(out_dir, n));
    assert(file_name_of(joined_name(out_dir, n)) == Some(n)) by {
        joined_paths_end_in_the_name(out_dir, n);
    }
    lemma_output_name(input, suffix);
}

/// The front of a path and a name in place of its last one. It is a path of the
/// same kind.
proof fn lemma_renamed(p: Seq<char>, n: Seq<char>)
    requires
        last_name(p).len() > 0,
        n.len() > 2,
        forall|i: int| 0 <= i < n.len() ==> #[trigger] n[i] != '/',
        is_windows(p) ==> forall|i: int| 0 <= i < n.len() ==> #[trigger] n[i] != '\\',
        name_start(p) == 0 ==> !is_windows(n),
    ensures
        last_name(p.take(name_start(p)) + n) == n,
        name_start(p.take(name_start(p)) + n) == name_start(p),
        is_windows(p.take(name_start(p)) + n) == is_windows(p),
        has_drive(p.take(name_start(p)) + n) == has_drive(p),
        file_name_of(p) is Some ==> file_name_of(p.take(name_start(p)) + n) == Some(n),
{
    let w = is_windows(p);
    lemma_name_range(p);
    lemma_front(p);
    let at = name_start(p);
    let front = p.take(at);
    let q = front + n;
    reveal_strlit(".");
    reveal_strlit("..");
    assert(forall|i: int| 0 <= i < at ==> q[i] == p[i]);
    if at == 0 {
        assert(!has_drive(p));
        assert(!separates(p[0], w));
        assert(q =~= n);
    } else {
        assert(at > drive_len(p)) by {
            if has_drive(p) && at == 2 {
                assert(separates(p[2], w));
            }
        }
        assert(separates(p[at - 1], w));
        assert(has_drive(q) == has_drive(p)) by {
            if at == 1 {
                assert(p[0] == '/' || p[0] == '\\');
            } else if at == 2 {
                assert(p[1] == '/' || p[1] == '\\');
            }
        }
    }
    assert(is_windows(q) == w);
    assert forall|i: int| 0 <= i < n.len() implies !separates(#[trigger] n[i], is_windows(q)) by {}
    if front.len() > drive_len(q) {
        assert(front.last() == p[at - 1]);
    }
    assert(n != "."@ && n != ".."@);
    lemma_ends_in(q, front, n);
}

/// Before the last name stands a separator, and in it none.
pub proof fn lemma_front(p: Seq<char>)
    requires
        last_name(p).len() > 0,
    ensures
        name_start(p) > drive_len(p) ==> separates(p[name_start(p) - 1], is_windows(p)),
        forall|i: int|
            name_start(p) <= i < name_end(p) ==> !separates(#[trigger] p[i], is_windows(p)),
{
    let w = is_windows(p);
    lemma_without_tail(p, w);
    lemma_name_range(p);
    let q = without_tail(p, w);
    lemma_name_from(q, w, drive_len(p));
    assert(forall|i: int| 0 <= i < q.len() ==> q[i] == p[i]);
}

/// A name of which the front is that of another, and the rest has no separators,
/// can stand in its place.
proof fn lemma_stem_renamed(p: Seq<char>, rest: Seq<char>)
    requires
        last_name(p).len() > 0,
        rest.len() > 1,
        rest[0] != ':',
        rest[0] != '\\',
        forall|i: int| 0 <= i < rest.len() ==> #[trigger] rest[i] != '/',
        is_windows(p) ==> forall|i: int| 0 <= i < rest.len() ==> #[trigger] rest[i] != '\\',
        stem_in(last_name(p)).len() + rest.len() > 2,
    ensures
        ({
            let n = stem_in(last_name(p)) + rest;
            let q = p.take(name_start(p)) + n;
            &&& last_name(q) == n
            &&& name_start(q) == name_start(p)
            &&& is_windows(q) == is_windows(p)
            &&& has_drive(q) == has_drive(p)
            &&& file_name_of(p) is Some ==> file_name_of(q) == Some(n)
        }),
{
    let name = last_name(p);
    let stem = stem_in(name);
    lemma_last_point(name);
    lemma_name_range(p);
    lemma_front(p);
    let n = stem + rest;
    assert(forall|i: int| 0 <= i < stem.len() ==> n[i] == name[i]);
    assert forall|i: int| 0 <= i < n.len() implies (#[trigger] n[i] != '/') && (is_windows(p)
        ==> n[i] != '\\') by {
        if i < stem.len() {
            assert(name[i] == p[name_start(p) + i]);
        } else {
            assert(n[i] == rest[i - stem.len()]);
        }
    }
    if name_start(p) == 0 {
        assert(!is_windows(n)) by {
            assert(stem.len() > 0);
            assert(n[0] == name[0] && name[0] == p[0]);
            assert(!separates(p[0], is_windows(p)));
            assert(n[2] != '/');
            if stem.len() > 2 {
                assert(n[1] == name[1] && name[1] == p[1]);
                assert(n[2] == name[2] && name[2] == p[2]);
            } else if stem.len() == 2 {
                assert(n[2] == rest[0]);
            } else {
                assert(n[1] == rest[0]);
            }
        }
    }
    lemma_renamed(p, n);
}

/// The output beside an input has another name.
pub proof fn lemma_spare_output(input: Seq<char>)
    requires
        last_name(input).len() > 0,
    ensures
        last_name(spare_output(input)).len() > 2,
        last_name(spare_output(input)) != last_name(input),
{
    reveal_strlit(".");
    reveal_strlit("mkv");
    reveal_strlit("_trimmed");
    let name = last_name(input);
    let stem = stem_in(name);
    let ext = match extension_in(name) {
        Some(e) => e,
        None => "mkv"@,
    };
    let rest = "_trimmed"@ + "."@ + ext;
    lemma_last_point(name);
    lemma_name_range(input);
    lemma_front(input);
    assert forall|i: int| 0 <= i < rest.len() implies (#[trigger] rest[i] != '/') && (is_windows(
        input,
    ) ==> rest[i] != '\\') by {
        if i >= 9 {
            assert(rest[i] == ext[i - 9]);
            if extension_in(name) is Some {
                let at = last_point(name) + 1 + (i - 9);
                assert(ext[i - 9] == name[at]);
                assert(name[at] == input[name_start(input) + at]);
            }
        }
    }
    lemma_stem_renamed(input, rest);
    assert(spare_output(input) =~= input.take(name_start(input)) + (stem + rest));
    assert((stem + rest).len() > name.len());
}

/// A file of needle beside a video is called like the video, with needle's
/// extension.
pub proof fn lemma_extended(p: Seq<char>, ext: Seq<char>)
    requires
        file_name_of(p) is Some,
        ext.len() > 1,
        forall|i: int| 0 <= i < ext.len() ==> #[trigger] ext[i] != '/' && ext[i] != '\\',
    ensures
        file_name_of(extended(p, ext)) == Some(stem_in(file_name_of(p)->0) + "."@ + ext),
        parent_of(extended(p, ext)) == parent_of(p),
{
    reveal_strlit(".");
    let stem = stem_in(file_name_of(p)->0);
    let rest = "."@ + ext;
    assert forall|i: int| 0 <= i < rest.len() implies #[trigger] rest[i] != '/' && rest[i]
        != '\\' by {
        if i > 0 {
            assert(rest[i] == ext[i - 1]);
        }
    }
    lemma_stem_renamed(p, rest);
    assert(extended(p, ext) =~= p.take(name_start(p)) + (stem + rest));
    assert(stem + rest =~= stem + "."@ + ext);
    let q = extended(p, ext);
    lemma_name_range(p);
    assert(q.take(name_start(q)) =~= p.take(name_start(p)));
}

/// The files that needle may leave beside a video lie in its directory, and no two
/// of them are the same.
pub proof fn sidecars_lie_beside_the_video(video: Seq<char>, i: int, j: int)
    requires
        file_name_of(video) is Some,
        0 <= i < j < 3,
    ensures
        parent_of(sidecars(video)[i]) == parent_of(video),
        parent_of(sidecars(video)[j]) == parent_of(video),
        file_name_of(sidecars(video)[i]) != file_name_of(sidecars(video)[j]),
        steps(sidecars(video)[i]) != steps(sidecars(video)[j]),
{
    reveal_strlit(".");
    reveal_strlit("needle.bin");
    reveal_strlit("needle.dat");
    reveal_strlit("needle.skip.json");
    lemma_extended(video, "needle.bin"@);
    lemma_extended(video, "needle.dat"@);
    lemma_extended(video, "needle.skip.json"@);
    let stem = stem_in(file_name_of(video)->0);
    let a = stem + "."@ + "needle.bin"@;
    let b = stem + "."@ + "needle.dat"@;
    let c = stem + "."@ + "needle.skip.json"@;
    let at = stem.len() as int + 8;
    assert(a[at] == 'b' && b[at] == 'd');
    assert(a.len() != c.len() && b.len() != c.len());
    last_step_is_the_file_name(sidecars(video)[i]);
    last_step_is_the_file_name(sidecars(video)[j]);
}

/// What needle leaves beside a video is never taken for a video itself, and is
/// never called like the video.
pub proof fn sidecars_are_no_videos(video: Seq<char>, i: int)
    requires
        file_name_of(video) is Some,
        0 <= i < 3,
    ensures
        !is_video(sidecars(video)[i]),
        file_name_of(sidecars(video)[i]) != file_name_of(video),
{
    reveal_strlit(".");
    reveal_strlit("needle.bin");
    reveal_strlit("needle.dat");
    reveal_strlit("needle.skip.json");
    reveal_strlit("mp4");
    reveal_strlit("mkv");
    reveal_strlit("avi");
    reveal_strlit("mov");
    reveal_strlit("m4v");
    reveal_strlit("webm");
    reveal_strlit("ts");
    reveal_strlit("wmv");
    reveal_strlit("flv");
    reveal_strlit("mpg");
    reveal_strlit("mpeg");
    let ext = if i == 0 {
        "needle.bin"@
    } else if i == 1 {
        "needle.dat"@
    } else {
        "needle.skip.json"@
    };
    let from = if i == 2 {
        12int
    } else {
        7int
    };
    assert(ext[from - 1] == '.');
    assert(sidecars(video)[i] == extended(video, ext));
    lemma_extended(video, ext);
    let name = file_name_of(video)->0;
    let stem = stem_in(name);
    lemma_last_point(name);
    let n = stem + "."@ + ext;
    assert(n != name) by {
        if n == name {
            assert(n[stem.len() as int] == '.');
            assert(n[stem.len() + from] == '.');
        }
    }
    let at = stem.len() + from;
    assert(n[at] == ext[from - 1]);
    assert forall|k: int| at < k < n.len() implies #[trigger] n[k] != '.' by {
        assert(n[k] == ext[k - stem.len() - 1]);
    }
    lemma_last_point_is(n, at);
    let e = n.skip(at + 1);
    assert(e =~= ext.skip(from));
    let low = lower_text(e);
    assert(low.len() == e.len());
    assert(low[0] == lowered(ext[from]));
    assert(low[1] == lowered(ext[from + 1]));
    assert(low[2] == lowered(ext[from + 2]));
    assert(!video_extensions().contains(low)) by {
        if video_extensions().contains(low) {
            let k = choose|k: int|
                0 <= k < video_extensions().len() && video_extensions()[k] == low;
            assert(k == 0 || k == 1 || k == 2 || k == 3 || k == 4 || k == 5 || k == 6 || k == 7
                || k == 8 || k == 9 || k == 10);
        }
    }
}

} // verus!
