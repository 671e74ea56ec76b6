//! File paths as text.
//!
//! A path is kept as the text that the user or the system gave. Its names are
//! separated by `/`; in a Windows path by `/` or `\`. A path is a Windows path
//! where it begins with a drive and a separator (`C:\`, `C:/`), or with a `\`. In
//! every other path, `\` and `:` are characters like others. So the same text
//! means the same path on every system. Whoever takes a path from the system
//! writes it in that way: a Windows path as a whole one, and a path of another
//! system that begins like a Windows path with `./` in front.

use vstd::prelude::*;

use crate::text::{
    chars_of, copy_chars, lower_chars, lower_text, pieces, replace_char, replaced, same_chars,
    split_chars, text_of, texts,
};

verus! {

/// Whether the text begins with a drive: an ASCII letter and a colon, and a
/// separator behind them.
pub open spec fn has_drive(p: Seq<char>) -> bool {
    &&& p.len() >= 3
    &&& p[1] == ':'
    &&& ('a' <= p[0] && p[0] <= 'z') || ('A' <= p[0] && p[0] <= 'Z')
    &&& p[2] == '/' || p[2] == '\\'
}

/// Whether the text is a Windows path.
pub open spec fn is_windows(p: Seq<char>) -> bool {
    has_drive(p) || (p.len() > 0 && p[0] == '\\')
}

/// How many characters the drive in front takes.
pub open spec fn drive_len(p: Seq<char>) -> int {
    if has_drive(p) {
        2
    } else {
        0
    }
}

/// Whether a character separates the names of a path.
pub open spec fn separates(c: char, windows: bool) -> bool {
    c == '/' || (windows && c == '\\')
}

/// The path without what stands behind its last name: separators, and `.`
/// where it is a name of its own.
pub open spec fn without_tail(p: Seq<char>, windows: bool) -> Seq<char>
    decreases p.len(),
{
    if p.len() > 0 && separates(p.last(), windows) {
        without_tail(p.drop_last(), windows)
    } else if p.len() > 1 && p.last() == '.' && separates(p[p.len() - 2], windows) {
        without_tail(p.drop_last(), windows)
    } else {
        p
    }
}

/// Where the last name of a path begins that has nothing behind it.
pub open spec fn name_from(p: Seq<char>, windows: bool, least: int) -> int
    decreases p.len(),
{
    if p.len() == 0 || p.len() <= least || separates(p.last(), windows) {
        p.len() as int
    } else {
        name_from(p.drop_last(), windows, least)
    }
}

/// Where the last name of the path begins.
pub open spec fn name_start(p: Seq<char>) -> int {
    let q = without_tail(p, is_windows(p));
    if q.len() <= drive_len(p) {
        q.len() as int
    } else {
        name_from(q, is_windows(p), drive_len(p))
    }
}

/// Where the last name of the path ends.
pub open spec fn name_end(p: Seq<char>) -> int {
    without_tail(p, is_windows(p)).len() as int
}

/// The last name of the path, whatever it is.
pub open spec fn last_name(p: Seq<char>) -> Seq<char> {
    p.subrange(name_start(p), name_end(p))
}

/// Whether the text goes on, from the `k`th character, with one name and a
/// separator, and then ends.
pub open spec fn ends_in_name(front: Seq<char>, k: int) -> bool {
    &&& front.len() > k + 1
    &&& separates(front.last(), true)
    &&& forall|i: int| k <= i < front.len() - 1 ==> !separates(#[trigger] front[i], true)
}

/// Whether the text begins as a path to another machine that is taken as it is
/// written.
pub open spec fn is_verbatim(front: Seq<char>) -> bool {
    front.len() >= 8 && front.take(8) == "\\\\?\\UNC\\"@
}

/// Whether the text is the beginning of a path to another machine: `\\server\`, or
/// `\\?\UNC\`, or `\\?\UNC\server\`. What follows is a machine or a share of it,
/// and no file.
pub open spec fn is_server(front: Seq<char>) -> bool {
    ||| (front.len() > 1 && front[0] == '\\' && separates(front[1], true) && ends_in_name(front, 2))
    ||| (is_verbatim(front) && (front.len() == 8 || ends_in_name(front, 8)))
}

/// The name of the file that the path leads to: the last name, unless it is
/// `.` or `..` or that of a share, or there is none.
pub open spec fn file_name_of(p: Seq<char>) -> Option<Seq<char>> {
    let n = last_name(p);
    if n.len() == 0 || n == "."@ || n == ".."@ || is_server(p.take(name_start(p))) {
        None
    } else {
        Some(n)
    }
}

/// Where the last point of a name stands; -1 where there is none.
pub open spec fn last_point(n: Seq<char>) -> int
    decreases n.len(),
{
    if n.len() == 0 {
        -1
    } else if n.last() == '.' {
        n.len() - 1
    } else {
        last_point(n.drop_last())
    }
}

/// A file name up to its last point; all of it where that point comes first or
/// there is none.
pub open spec fn stem_in(n: Seq<char>) -> Seq<char> {
    if last_point(n) > 0 {
        n.take(last_point(n))
    } else {
        n
    }
}

/// What follows the last point of a file name, unless that point comes first.
pub open spec fn extension_in(n: Seq<char>) -> Option<Seq<char>> {
    if last_point(n) > 0 {
        Some(n.skip(last_point(n) + 1))
    } else {
        None
    }
}

/// The file name of the path without its extension.
pub open spec fn file_stem_of(p: Seq<char>) -> Option<Seq<char>> {
    match file_name_of(p) {
        Some(n) => Some(stem_in(n)),
        None => None,
    }
}

/// The extension of the path's file name.
pub open spec fn extension_of(p: Seq<char>) -> Option<Seq<char>> {
    match file_name_of(p) {
        Some(n) => extension_in(n),
        None => None,
    }
}

/// The path with the extension of its file name replaced; a path that leads to
/// no file name stays as it is.
pub open spec fn extended(p: Seq<char>, ext: Seq<char>) -> Seq<char> {
    match file_name_of(p) {
        Some(n) => p.take(name_start(p)) + stem_in(n) + if ext.len() > 0 {
            "."@ + ext
        } else {
            Seq::empty()
        },
        None => p,
    }
}

/// The path without its last name. None for a path without names, and for a share.
pub open spec fn parent_of(p: Seq<char>) -> Option<Seq<char>> {
    if last_name(p).len() == 0 || is_server(p.take(name_start(p))) {
        None
    } else {
        let front = p.take(name_start(p));
        let cut = without_tail(front, is_windows(p));
        if cut.len() <= drive_len(p) && front.len() > drive_len(p) {
            Some(front.take(drive_len(p) + 1))
        } else {
            Some(cut)
        }
    }
}

/// Whether the path stands for itself and cannot be continued from another one.
pub open spec fn is_absolute(p: Seq<char>) -> bool {
    has_drive(p) || (p.len() > 0 && separates(p[0], is_windows(p)))
}

/// The file of that name in a directory, whatever the name looks like.
pub open spec fn joined_name(dir: Seq<char>, name: Seq<char>) -> Seq<char> {
    if dir.len() == 0 || separates(dir.last(), is_windows(dir)) {
        dir + name
    } else if is_windows(dir) {
        dir + "\\"@ + name
    } else {
        dir + "/"@ + name
    }
}

/// The path `rest`, taken from `dir`.
pub open spec fn joined_path(dir: Seq<char>, rest: Seq<char>) -> Seq<char> {
    if is_absolute(rest) {
        rest
    } else {
        joined_name(dir, rest)
    }
}

/// Whether the text begins with a drive.
fn drive(p: &[char]) -> (r: bool)
    ensures
        r == has_drive(p@),
{
    p.len() >= 3 && p[1] == ':' && (('a' <= p[0] && p[0] <= 'z') || ('A' <= p[0] && p[0] <= 'Z'))
        && (p[2] == '/' || p[2] == '\\')
}

/// Whether the text is a Windows path.
fn windows(p: &[char]) -> (r: bool)
    ensures
        r == is_windows(p@),
{
    drive(p) || (p.len() > 0 && p[0] == '\\')
}

/// Whether a character separates the names of a path.
fn separator(c: char, windows: bool) -> (r: bool)
    ensures
        r == separates(c, windows),
{
    c == '/' || (windows && c == '\\')
}

/// What is left without the tail is the front of the path.
pub proof fn lemma_without_tail(p: Seq<char>, windows: bool)
    ensures
        without_tail(p, windows).len() <= p.len(),
        without_tail(p, windows) == p.take(without_tail(p, windows).len() as int),
        without_tail(without_tail(p, windows), windows) == without_tail(p, windows),
    decreases p.len(),
{
    let q = without_tail(p, windows);
    if q != p {
        lemma_without_tail(p.drop_last(), windows);
        assert(p.drop_last().take(q.len() as int) =~= p.take(q.len() as int));
    } else {
        assert(p.take(p.len() as int) =~= p);
    }
}

fn tail_from(p: &[char], windows: bool) -> (r: usize)
    ensures
        r == without_tail(p@, windows).len(),
        r <= p@.len(),
{
    let mut n: usize = p.len();
    assert(p@.take(n as int) =~= p@);
    while n > 0 && (separator(p[n - 1], windows) || (n > 1 && p[n - 1] == '.' && separator(
        p[n - 2],
        windows,
    )))
        invariant
            n <= p@.len(),
            without_tail(p@.take(n as int), windows) == without_tail(p@, windows),
        decreases n,
    {
        assert(p@.take(n as int).drop_last() =~= p@.take(n - 1));
        n -= 1;
    }
    n
}

/// Before the place where the last name begins stands a separator, unless it is
/// the least place, and behind it stands none.
pub proof fn lemma_name_from(p: Seq<char>, windows: bool, least: int)
    requires
        0 <= least <= p.len(),
    ensures
        least <= name_from(p, windows, least) <= p.len(),
        name_from(p, windows, least) > least ==> separates(
            p[name_from(p, windows, least) - 1],
            windows,
        ),
        forall|i: int|
            name_from(p, windows, least) <= i < p.len() ==> !separates(#[trigger] p[i], windows),
    decreases p.len(),
{
    if p.len() == 0 || p.len() <= least || separates(p.last(), windows) {
    } else {
        let q = p.drop_last();
        lemma_name_from(q, windows, least);
        assert(forall|i: int| 0 <= i < q.len() ==> q[i] == p[i]);
    }
}

/// The last name lies within the path, behind its drive.
pub proof fn lemma_name_range(p: Seq<char>)
    ensures
        0 <= name_start(p) <= name_end(p) <= p.len(),
        last_name(p).len() > 0 ==> drive_len(p) <= name_start(p) < name_end(p),
{
    let w = is_windows(p);
    lemma_without_tail(p, w);
    let q = without_tail(p, w);
    if q.len() > drive_len(p) {
        lemma_name_from(q, w, drive_len(p));
    }
}

/// Where the last name of the path begins and ends.
fn name_range(p: &[char]) -> (r: (usize, usize))
    ensures
        r.0 == name_start(p@),
        r.1 == name_end(p@),
        r.0 <= r.1 <= p@.len(),
{
    let w = windows(p);
    let least: usize = if drive(p) {
        2
    } else {
        0
    };
    let end = tail_from(p, w);
    let ghost q = without_tail(p@, w);
    proof {
        lemma_without_tail(p@, w);
        lemma_name_range(p@);
    }
    if end <= least {
        return (end, end);
    }
    let mut from: usize = end;
    while from > least && !separator(p[from - 1], w)
        invariant
            w == is_windows(p@),
            least == drive_len(p@),
            least <= from <= end <= p@.len(),
            name_from(p@.take(from as int), w, least as int) == name_from(q, w, least as int),
        decreases from,
    {
        assert(p@.take(from as int).drop_last() =~= p@.take(from - 1));
        from -= 1;
    }
    (from, end)
}

/// Whether the text goes on with one name and a separator.
fn name_ends(front: &[char], k: usize) -> (r: bool)
    requires
        k <= front@.len(),
    ensures
        r == ends_in_name(front@, k as int),
{
    let n: usize = front.len();
    if n - k < 2 || !separator(front[n - 1], true) {
        return false;
    }
    let mut i: usize = k;
    while i < n - 1
        invariant
            n == front@.len(),
            k <= i <= n - 1,
            forall|j: int| k <= j < i ==> !separates(#[trigger] front@[j], true),
        decreases n - i,
    {
        if separator(front[i], true) {
            assert(separates(front@[i as int], true));
            return false;
        }
        i += 1;
    }
    true
}

/// Whether the text is the beginning of a path to another machine.
fn server(front: &[char]) -> (r: bool)
    ensures
        r == is_server(front@),
{
    if front.len() > 1 && front[0] == '\\' && separator(front[1], true) && name_ends(front, 2) {
        return true;
    }
    if front.len() < 8 {
        return false;
    }
    let first = vstd::slice::slice_subrange(front, 0, 8);
    assert(first@ =~= front@.take(8));
    same_chars(first, chars_of("\\\\?\\UNC\\").as_slice()) && (front.len() == 8 || name_ends(
        front,
        8,
    ))
}

/// The name of the file that the path leads to.
pub fn file_name(path: &str) -> (r: Option<String>)
    ensures
        r is Some <==> file_name_of(path@) is Some,
        r matches Some(n) ==> file_name_of(path@) == Some(n@),
{
    let p = chars_of(path);
    let (from, to) = name_range(p.as_slice());
    let n = vstd::slice::slice_subrange(p.as_slice(), from, to);
    let front = vstd::slice::slice_subrange(p.as_slice(), 0, from);
    assert(front@ =~= path@.take(name_start(path@)));
    if n.len() == 0 || same_chars(n, chars_of(".").as_slice()) || same_chars(
        n,
        chars_of("..").as_slice(),
    ) || server(front) {
        None
    } else {
        Some(text_of(n))
    }
}

/// What `last_point` means: a point stands there, and none behind it.
pub proof fn lemma_last_point(n: Seq<char>)
    ensures
        -1 <= last_point(n) < n.len(),
        last_point(n) >= 0 ==> n[last_point(n)] == '.',
        forall|i: int| last_point(n) < i < n.len() ==> #[trigger] n[i] != '.',
    decreases n.len(),
{
    if n.len() > 0 && n.last() != '.' {
        lemma_last_point(n.drop_last());
        assert(forall|i: int| 0 <= i < n.len() - 1 ==> n.drop_last()[i] == n[i]);
    }
}

/// The place of the last point, counted from one; zero where there is none.
fn point_place(n: &[char]) -> (r: usize)
    ensures
        r == last_point(n@) + 1,
        r <= n@.len(),
{
    let mut i: usize = n.len();
    assert(n@.take(i as int) =~= n@);
    while i > 0 && n[i - 1] != '.'
        invariant
            i <= n@.len(),
            last_point(n@.take(i as int)) == last_point(n@),
        decreases i,
    {
        assert(n@.take(i as int).drop_last() =~= n@.take(i - 1));
        i -= 1;
    }
    i
}

/// The file name of the path without its extension.
pub fn file_stem(path: &str) -> (r: Option<String>)
    ensures
        r is Some <==> file_stem_of(path@) is Some,
        r matches Some(s) ==> file_stem_of(path@) == Some(s@),
{
    match file_name(path) {
        Some(name) => {
            let n = chars_of(name.as_str());
            let place = point_place(n.as_slice());
            if place > 1 {
                let s = vstd::slice::slice_subrange(n.as_slice(), 0, place - 1);
                assert(s@ =~= n@.take(place - 1));
                Some(text_of(s))
            } else {
                Some(name)
            }
        },
        None => None,
    }
}

/// The extension of the path's file name.
pub fn extension(path: &str) -> (r: Option<String>)
    ensures
        r is Some <==> extension_of(path@) is Some,
        r matches Some(e) ==> extension_of(path@) == Some(e@),
{
    match file_name(path) {
        Some(name) => {
            let n = chars_of(name.as_str());
            let place = point_place(n.as_slice());
            if place > 1 {
                let e = vstd::slice::slice_subrange(n.as_slice(), place, n.len());
                assert(e@ =~= n@.skip(place as int));
                Some(text_of(e))
            } else {
                None
            }
        },
        None => None,
    }
}

/// The path with the extension of its file name replaced.
pub fn with_extension(path: &str, ext: &str) -> (r: String)
    ensures
        r@ == extended(path@, ext@),
{
    match file_stem(path) {
        Some(stem) => {
            let p = chars_of(path);
            let (from, _to) = name_range(p.as_slice());
            let front = vstd::slice::slice_subrange(p.as_slice(), 0, from);
            assert(front@ =~= path@.take(name_start(path@)));
            let mut s = text_of(front);
            s.append(stem.as_str());
            if !ext.is_empty() {
                s.append(".");
                s.append(ext);
                assert(s@ =~= front@ + stem@ + ("."@ + ext@));
            } else {
                assert(s@ =~= front@ + stem@ + Seq::<char>::empty());
            }
            s
        },
        None => path.to_string(),
    }
}

/// The path with a suffix behind the stem of its last name. A name without an
/// extension gets `mkv`.
pub fn name_beside(path: &str, suffix: &str) -> (r: String)
    ensures
        r@ == path@.take(name_start(path@)) + stem_in(last_name(path@)) + suffix@ + "."@ + (
        match extension_in(last_name(path@)) {
            Some(e) => e,
            None => "mkv"@,
        }),
{
    let p = chars_of(path);
    let (from, to) = name_range(p.as_slice());
    let front = vstd::slice::slice_subrange(p.as_slice(), 0, from);
    assert(front@ =~= path@.take(name_start(path@)));
    let n = vstd::slice::slice_subrange(p.as_slice(), from, to);
    let place = point_place(n);
    let mut s = text_of(front);
    if place > 1 {
        let stem = vstd::slice::slice_subrange(n, 0, place - 1);
        assert(stem@ =~= n@.take(place - 1));
        let ext = vstd::slice::slice_subrange(n, place, n.len());
        assert(ext@ =~= n@.skip(place as int));
        s.append(text_of(stem).as_str());
        s.append(suffix);
        s.append(".");
        s.append(text_of(ext).as_str());
    } else {
        s.append(text_of(n).as_str());
        s.append(suffix);
        s.append(".");
        s.append("mkv");
    }
    s
}

/// The path without its last name.
pub fn parent(path: &str) -> (r: Option<String>)
    ensures
        r is Some <==> parent_of(path@) is Some,
        r matches Some(d) ==> parent_of(path@) == Some(d@),
{
    let p = chars_of(path);
    let (from, to) = name_range(p.as_slice());
    let front = vstd::slice::slice_subrange(p.as_slice(), 0, from);
    assert(front@ =~= path@.take(name_start(path@)));
    if from == to || server(front) {
        return None;
    }
    let w = windows(p.as_slice());
    let least: usize = if drive(p.as_slice()) {
        2
    } else {
        0
    };
    let cut = tail_from(front, w);
    proof {
        lemma_without_tail(front@, w);
    }
    if cut <= least && from > least {
        let root = vstd::slice::slice_subrange(front, 0, least + 1);
        assert(root@ =~= front@.take(least + 1));
        Some(text_of(root))
    } else {
        let dir = vstd::slice::slice_subrange(front, 0, cut);
        assert(dir@ =~= front@.take(cut as int));
        Some(text_of(dir))
    }
}

/// The file of that name in a directory, whatever the name looks like.
pub fn join_name(dir: &str, name: &str) -> (r: String)
    ensures
        r@ == joined_name(dir@, name@),
{
    let d = chars_of(dir);
    let mut s = dir.to_string();
    let w = windows(d.as_slice());
    if d.len() == 0 || separator(d[d.len() - 1], w) {
    } else if w {
        s.append("\\");
    } else {
        s.append("/");
    }
    s.append(name);
    s
}

/// The path `rest`, taken from `dir`.
pub fn join(dir: &str, rest: &str) -> (r: String)
    ensures
        r@ == joined_path(dir@, rest@),
{
    let p = chars_of(rest);
    if drive(p.as_slice()) || (p.len() > 0 && separator(p[0], windows(p.as_slice()))) {
        return rest.to_string();
    }
    join_name(dir, rest)
}

/// A step of a path: its kind, by which steps are ordered first, and its text.
pub type Step = (nat, Seq<char>);

/// The kinds of steps: a drive, the root, the directory one is in (only where the
/// path begins with it), the directory above, a name.
pub const DRIVE: u8 = 0;

pub const ROOT: u8 = 1;

pub const HERE: u8 = 2;

pub const ABOVE: u8 = 3;

pub const NAME: u8 = 4;

/// The steps that the pieces between the separators stand for. Empty pieces and
/// `.` stand for none.
pub open spec fn named(list: Seq<Seq<char>>) -> Seq<Step>
    decreases list.len(),
{
    if list.len() == 0 {
        Seq::empty()
    } else if list.last().len() == 0 || list.last() == "."@ {
        named(list.drop_last())
    } else if list.last() == ".."@ {
        named(list.drop_last()).push((ABOVE as nat, Seq::empty()))
    } else {
        named(list.drop_last()).push((NAME as nat, list.last()))
    }
}

/// The steps of a path. Two paths with the same steps are the same path: it makes
/// no difference how many separators stand in a row.
pub open spec fn steps(p: Seq<char>) -> Seq<Step> {
    let rest = p.skip(drive_len(p));
    let flat = if is_windows(p) {
        replaced(rest, '\\', "/"@)
    } else {
        rest
    };
    let list = pieces(flat, '/');
    let drive = if has_drive(p) {
        seq![(DRIVE as nat, lower_text(p.take(2)))]
    } else {
        Seq::empty()
    };
    let start = if flat.len() > 0 && flat[0] == '/' {
        seq![(ROOT as nat, Seq::empty())]
    } else if list.len() > 0 && list[0] == "."@ {
        seq![(HERE as nat, Seq::empty())]
    } else {
        Seq::empty()
    };
    drive + start + named(list)
}

/// The view of a step.
pub open spec fn step_view(s: (u8, Vec<char>)) -> Step {
    (s.0 as nat, s.1@)
}

/// The views of steps.
pub open spec fn steps_view(s: Seq<(u8, Vec<char>)>) -> Seq<Step> {
    s.map_values(|v: (u8, Vec<char>)| step_view(v))
}

fn add_step(list: &mut Vec<(u8, Vec<char>)>, kind: u8, text: Vec<char>)
    ensures
        steps_view(final(list)@) == steps_view(old(list)@).push((kind as nat, text@)),
{
    let ghost before = list@;
    list.push((kind, text));
    assert(steps_view(list@) =~= steps_view(before).push((kind as nat, text@)));
}

/// The steps of a path.
fn path_steps(path: &str) -> (r: Vec<(u8, Vec<char>)>)
    ensures
        steps_view(r@) == steps(path@),
{
    let p = chars_of(path);
    let mut out: Vec<(u8, Vec<char>)> = Vec::new();
    assert(steps_view(out@) =~= Seq::<Step>::empty());
    let has = drive(p.as_slice());
    let from: usize = if has {
        2
    } else {
        0
    };
    let rest = vstd::slice::slice_subrange(p.as_slice(), from, p.len());
    assert(rest@ =~= path@.skip(drive_len(path@)));
    let flat = if windows(p.as_slice()) {
        replace_char(rest, '\\', chars_of("/").as_slice())
    } else {
        copy_chars(rest)
    };
    let list = split_chars(flat.as_slice(), '/');
    let ghost view = list@.map_values(|v: Vec<char>| v@);
    let dot = chars_of(".");
    let dots = chars_of("..");
    if has {
        let d = vstd::slice::slice_subrange(p.as_slice(), 0, 2);
        assert(d@ =~= path@.take(2));
        add_step(&mut out, DRIVE, lower_chars(d));
    }
    let ghost front = steps_view(out@);
    if flat.len() > 0 && flat[0] == '/' {
        add_step(&mut out, ROOT, Vec::new());
    } else if list.len() > 0 && same_chars(list[0].as_slice(), dot.as_slice()) {
        add_step(&mut out, HERE, Vec::new());
    }
    let ghost begun = steps_view(out@);
    let ghost start = if flat@.len() > 0 && flat@[0] == '/' {
        seq![(ROOT as nat, Seq::empty())]
    } else if view.len() > 0 && view[0] == "."@ {
        seq![(HERE as nat, Seq::empty())]
    } else {
        Seq::<Step>::empty()
    };
    assert(begun =~= front + start);
    let mut i: usize = 0;
    assert(begun + named(view.take(0)) =~= begun);
    while i < list.len()
        invariant
            i <= list@.len(),
            view == list@.map_values(|v: Vec<char>| v@),
            dot@ == "."@,
            dots@ == ".."@,
            steps_view(out@) == begun + named(view.take(i as int)),
        decreases list@.len() - i,
    {
        let piece = list[i].as_slice();
        assert(view.take(i + 1).drop_last() =~= view.take(i as int));
        assert(view.take(i + 1).last() == piece@);
        if piece.len() == 0 || same_chars(piece, dot.as_slice()) {
        } else if same_chars(piece, dots.as_slice()) {
            add_step(&mut out, ABOVE, Vec::new());
        } else {
            add_step(&mut out, NAME, copy_chars(piece));
        }
        i += 1;
        assert(steps_view(out@) =~= begun + named(view.take(i as int)));
    }
    assert(view.take(view.len() as int) =~= view);
    assert(begun + named(view) =~= steps(path@));
    out
}

/// Whether two texts are the same path.
pub fn same_path(a: &str, b: &str) -> (r: bool)
    ensures
        r == (steps(a@) == steps(b@)),
{
    let x = path_steps(a);
    let y = path_steps(b);
    if x.len() != y.len() {
        assert(steps(a@).len() != steps(b@).len());
        return false;
    }
    let mut i: usize = 0;
    while i < x.len()
        invariant
            x@.len() == y@.len(),
            i <= x@.len(),
            steps_view(x@) == steps(a@),
            steps_view(y@) == steps(b@),
            forall|j: int| 0 <= j < i ==> steps(a@)[j] == steps(b@)[j],
        decreases x@.len() - i,
    {
        let same = x[i].0 == y[i].0 && same_chars(x[i].1.as_slice(), y[i].1.as_slice());
        assert(steps(a@)[i as int] == step_view(x@[i as int]));
        assert(steps(b@)[i as int] == step_view(y@[i as int]));
        if !same {
            assert(steps(a@)[i as int] != steps(b@)[i as int]);
            return false;
        }
        i += 1;
    }
    assert(steps(a@) =~= steps(b@));
    true
}

/// Whether a list holds the path with these steps.
pub open spec fn holds(list: Seq<Seq<char>>, path: Seq<Step>) -> bool {
    exists|j: int| 0 <= j < list.len() && steps(#[trigger] list[j]) == path
}

/// Whether no two of the texts are the same path.
pub open spec fn no_path_twice(list: Seq<Seq<char>>) -> bool {
    forall|i: int, j: int|
        0 <= i < j < list.len() ==> steps(#[trigger] list[i]) != steps(#[trigger] list[j])
}

/// Whether a list holds a path.
pub fn holds_path(list: &[String], path: &str) -> (r: bool)
    ensures
        r == holds(texts(list@), steps(path@)),
{
    let mut i: usize = 0;
    while i < list.len()
        invariant
            i <= list@.len(),
            forall|k: int| 0 <= k < i ==> steps(#[trigger] texts(list@)[k]) != steps(path@),
        decreases list@.len() - i,
    {
        if same_path(list[i].as_str(), path) {
            assert(steps(texts(list@)[i as int]) == steps(path@));
            return true;
        }
        i += 1;
    }
    false
}

/// Whether one text comes before the other in the order of a dictionary.
pub open spec fn text_before(a: Seq<char>, b: Seq<char>) -> bool
    decreases a.len(),
{
    if b.len() == 0 {
        false
    } else if a.len() == 0 {
        true
    } else if a[0] == b[0] {
        text_before(a.drop_first(), b.drop_first())
    } else {
        a[0] < b[0]
    }
}

/// Whether one step comes before the other: by kind, and names by their text.
pub open spec fn step_before(a: Step, b: Step) -> bool {
    a.0 < b.0 || (a.0 == b.0 && text_before(a.1, b.1))
}

/// Whether one path comes before the other, step by step.
pub open spec fn steps_before(a: Seq<Step>, b: Seq<Step>) -> bool
    decreases a.len(),
{
    if b.len() == 0 {
        false
    } else if a.len() == 0 {
        true
    } else if a[0] == b[0] {
        steps_before(a.drop_first(), b.drop_first())
    } else {
        step_before(a[0], b[0])
    }
}

/// Whether one path comes before the other.
pub open spec fn path_before(a: Seq<char>, b: Seq<char>) -> bool {
    steps_before(steps(a), steps(b))
}

proof fn lemma_text_order(a: Seq<char>, b: Seq<char>)
    ensures
        a == b || text_before(a, b) || text_before(b, a),
        !(text_before(a, b) && text_before(b, a)),
        a == b ==> !text_before(a, b),
    decreases a.len(),
{
    if a.len() > 0 && b.len() > 0 && a[0] == b[0] {
        lemma_text_order(a.drop_first(), b.drop_first());
        assert(a =~= seq![a[0]] + a.drop_first());
        assert(b =~= seq![b[0]] + b.drop_first());
    } else if a.len() == 0 && b.len() == 0 {
        assert(a =~= b);
    }
}

proof fn lemma_text_chain(a: Seq<char>, b: Seq<char>, c: Seq<char>)
    requires
        text_before(a, b),
        text_before(b, c),
    ensures
        text_before(a, c),
    decreases a.len(),
{
    if a.len() > 0 && b.len() > 0 && c.len() > 0 && a[0] == b[0] && b[0] == c[0] {
        lemma_text_chain(a.drop_first(), b.drop_first(), c.drop_first());
    }
}

/// Of two paths that are not the same one comes before the other, and only one.
pub proof fn lemma_steps_order(a: Seq<Step>, b: Seq<Step>)
    ensures
        a == b || steps_before(a, b) || steps_before(b, a),
        !(steps_before(a, b) && steps_before(b, a)),
        a == b ==> !steps_before(a, b),
    decreases a.len(),
{
    if a.len() > 0 && b.len() > 0 {
        if a[0] == b[0] {
            lemma_steps_order(a.drop_first(), b.drop_first());
            assert(a =~= seq![a[0]] + a.drop_first());
            assert(b =~= seq![b[0]] + b.drop_first());
        } else {
            lemma_text_order(a[0].1, b[0].1);
        }
    } else if a.len() == 0 && b.len() == 0 {
        assert(a =~= b);
    }
}

/// What comes before a path comes before all that come behind it.
pub proof fn lemma_steps_chain(a: Seq<Step>, b: Seq<Step>, c: Seq<Step>)
    requires
        steps_before(a, b),
        steps_before(b, c),
    ensures
        steps_before(a, c),
    decreases a.len(),
{
    if a.len() > 0 && b.len() > 0 && c.len() > 0 {
        if a[0] == b[0] && b[0] == c[0] {
            lemma_steps_chain(a.drop_first(), b.drop_first(), c.drop_first());
        } else if a[0] != b[0] && b[0] != c[0] {
            lemma_text_order(a[0].1, b[0].1);
            lemma_text_order(a[0].1, c[0].1);
            if a[0].0 == b[0].0 && b[0].0 == c[0].0 {
                lemma_text_chain(a[0].1, b[0].1, c[0].1);
            }
        }
    }
}

/// How two things stand in an order.
#[derive(Debug, Clone, Copy, PartialEq, Eq, Structural)]
pub enum Relation {
    Before,
    Same,
    After,
}

fn relate_text(a: &[char], b: &[char]) -> (r: Relation)
    ensures
        r is Before <==> text_before(a@, b@),
        r is Same <==> a@ == b@,
        r is After <==> text_before(b@, a@),
{
    let mut i: usize = 0;
    assert(a@.skip(0) =~= a@);
    assert(b@.skip(0) =~= b@);
    proof {
        lemma_text_order(a@, b@);
    }
    while i < a.len() && i < b.len() && a[i] == b[i]
        invariant
            i <= a@.len(),
            i <= b@.len(),
            a@.take(i as int) == b@.take(i as int),
            text_before(a@.skip(i as int), b@.skip(i as int)) == text_before(a@, b@),
            text_before(b@.skip(i as int), a@.skip(i as int)) == text_before(b@, a@),
        decreases a@.len() - i,
    {
        assert(a@.skip(i as int).drop_first() =~= a@.skip(i + 1));
        assert(b@.skip(i as int).drop_first() =~= b@.skip(i + 1));
        assert(a@.take(i + 1) =~= a@.take(i as int).push(a@[i as int]));
        assert(b@.take(i + 1) =~= b@.take(i as int).push(b@[i as int]));
        i += 1;
    }
    if i == a.len() && i == b.len() {
        assert(a@ =~= a@.take(i as int));
        assert(b@ =~= b@.take(i as int));
        Relation::Same
    } else if i == a.len() {
        Relation::Before
    } else if i == b.len() {
        Relation::After
    } else {
        let x = a[i];
        let y = b[i];
        if x < y {
            Relation::Before
        } else {
            Relation::After
        }
    }
}

fn relate_steps(a: &[(u8, Vec<char>)], b: &[(u8, Vec<char>)]) -> (r: Relation)
    ensures
        r is Before <==> steps_before(steps_view(a@), steps_view(b@)),
        r is Same <==> steps_view(a@) == steps_view(b@),
        r is After <==> steps_before(steps_view(b@), steps_view(a@)),
{
    let ghost x = steps_view(a@);
    let ghost y = steps_view(b@);
    let mut i: usize = 0;
    assert(x.skip(0) =~= x);
    assert(y.skip(0) =~= y);
    proof {
        lemma_steps_order(x, y);
    }
    while i < a.len() && i < b.len()
        invariant
            i <= a@.len(),
            i <= b@.len(),
            x == steps_view(a@),
            y == steps_view(b@),
            x == y || steps_before(x, y) || steps_before(y, x),
            !(steps_before(x, y) && steps_before(y, x)),
            x == y ==> !steps_before(x, y),
            x.take(i as int) == y.take(i as int),
            steps_before(x.skip(i as int), y.skip(i as int)) == steps_before(x, y),
            steps_before(y.skip(i as int), x.skip(i as int)) == steps_before(y, x),
        decreases a@.len() - i,
    {
        assert(x.skip(i as int)[0] == step_view(a@[i as int]));
        assert(y.skip(i as int)[0] == step_view(b@[i as int]));
        let kind_a: u8 = a[i].0;
        let kind_b: u8 = b[i].0;
        if kind_a < kind_b {
            return Relation::Before;
        }
        if kind_b < kind_a {
            return Relation::After;
        }
        let r = relate_text(a[i].1.as_slice(), b[i].1.as_slice());
        match r {
            Relation::Same => {},
            _ => {
                proof {
                    lemma_text_order(a@[i as int].1@, b@[i as int].1@);
                }
                return r;
            },
        }
        assert(x.skip(i as int).drop_first() =~= x.skip(i + 1));
        assert(y.skip(i as int).drop_first() =~= y.skip(i + 1));
        assert(x.take(i + 1) =~= x.take(i as int).push(x[i as int]));
        assert(y.take(i + 1) =~= y.take(i as int).push(y[i as int]));
        i += 1;
    }
    if i == a.len() && i == b.len() {
        assert(x =~= x.take(i as int));
        assert(y =~= y.take(i as int));
        Relation::Same
    } else if i == a.len() {
        Relation::Before
    } else {
        Relation::After
    }
}

/// How two paths stand in their order.
pub fn relate_paths(a: &str, b: &str) -> (r: Relation)
    ensures
        r is Before <==> path_before(a@, b@),
        r is Same <==> steps(a@) == steps(b@),
        r is After <==> path_before(b@, a@),
{
    relate_steps(&path_steps(a), &path_steps(b))
}

/// Whether every path of the list comes before those behind it. So no path is
/// in it twice.
pub open spec fn ascending(list: Seq<Seq<char>>) -> bool {
    forall|i: int, j: int|
        0 <= i < j < list.len() ==> path_before(#[trigger] list[i], #[trigger] list[j])
}

/// The first spelling of each path of the list: those texts that no earlier text
/// is the same path as.
pub open spec fn is_first_spelling(list: Seq<Seq<char>>, i: int) -> bool {
    0 <= i < list.len() && forall|j: int| 0 <= j < i ==> steps(#[trigger] list[j]) != steps(list[i])
}

/// Whether `r` holds each path of the list once, in the spelling that comes
/// first, and nothing else, in order.
pub open spec fn is_sorted_set(r: Seq<Seq<char>>, list: Seq<Seq<char>>) -> bool {
    &&& ascending(r)
    &&& forall|k: int|
        0 <= k < r.len() ==> exists|i: int| #[trigger]
            is_first_spelling(list, i) && list[i] == #[trigger] r[k]
    &&& forall|i: int| #[trigger] is_first_spelling(list, i) ==> r.contains(list[i])
}

/// The paths of a list in order, each once.
pub fn sort_paths(list: &[String]) -> (r: Vec<String>)
    ensures
        is_sorted_set(texts(r@), texts(list@)),
{
    let mut out: Vec<String> = Vec::new();
    let mut i: usize = 0;
    while i < list.len()
        invariant
            i <= list@.len(),
            is_sorted_set(texts(out@), texts(list@).take(i as int)),
        decreases list@.len() - i,
    {
        insert_path(&mut out, &list[i], Ghost(texts(list@).take(i as int)));
        assert(texts(list@).take(i as int).push(list@[i as int]@) =~= texts(list@).take(i + 1));
        i += 1;
    }
    assert(texts(list@).take(i as int) =~= texts(list@));
    out
}

/// With a text more, the texts before it are first spellings as they were.
proof fn lemma_first_spellings(list: Seq<Seq<char>>, p: Seq<char>)
    ensures
        forall|i: int|
            0 <= i < list.len() ==> (is_first_spelling(list, i) <==> #[trigger] is_first_spelling(
                list.push(p),
                i,
            )),
{
    let more = list.push(p);
    assert forall|i: int| 0 <= i < list.len() implies (is_first_spelling(list, i)
        <==> #[trigger] is_first_spelling(more, i)) by {
        assert(forall|j: int| 0 <= j <= i ==> more[j] == list[j]);
        if is_first_spelling(more, i) {
            assert forall|j: int| 0 <= j < i implies steps(#[trigger] list[j]) != steps(list[i]) by {
                assert(steps(more[j]) != steps(more[i]));
            }
        }
    }
}

/// Each path of a list has a first spelling.
pub proof fn lemma_first_exists(list: Seq<Seq<char>>, j: int) -> (i: int)
    requires
        0 <= j < list.len(),
    ensures
        is_first_spelling(list, i),
        steps(list[i]) == steps(list[j]),
    decreases j,
{
    if is_first_spelling(list, j) {
        j
    } else {
        let k = choose|k: int| 0 <= k < j && steps(#[trigger] list[k]) == steps(list[j]);
        lemma_first_exists(list, k)
    }
}

/// A path that is among those in order changes nothing.
proof fn lemma_known(before: Seq<Seq<char>>, list: Seq<Seq<char>>, p: Seq<char>, at: int)
    requires
        is_sorted_set(before, list),
        0 <= at < before.len(),
        steps(before[at]) == steps(p),
    ensures
        is_sorted_set(before, list.push(p)),
{
    let more = list.push(p);
    lemma_first_spellings(list, p);
    assert forall|k: int| 0 <= k < before.len() implies exists|i: int| #[trigger]
        is_first_spelling(more, i) && more[i] == #[trigger] before[k] by {
        let i = choose|i: int| #[trigger] is_first_spelling(list, i) && list[i] == before[k];
        assert(is_first_spelling(more, i) && more[i] == before[k]);
    }
    assert forall|i: int| #[trigger] is_first_spelling(more, i) implies before.contains(
        more[i],
    ) by {
        if i == list.len() {
            let n = choose|n: int| #[trigger] is_first_spelling(list, n) && list[n] == before[at];
            assert(steps(more[n]) != steps(more[i]));
        } else {
            assert(is_first_spelling(list, i));
        }
    }
}

/// A path that is not among those in order has its place between them.
proof fn lemma_new(before: Seq<Seq<char>>, list: Seq<Seq<char>>, p: Seq<char>, at: int)
    requires
        is_sorted_set(before, list),
        0 <= at <= before.len(),
        forall|k: int| 0 <= k < at ==> path_before(#[trigger] before[k], p),
        at < before.len() ==> path_before(p, before[at]),
    ensures
        is_sorted_set(before.insert(at, p), list.push(p)),
{
    let more = list.push(p);
    let r = before.insert(at, p);
    lemma_first_spellings(list, p);
    assert forall|k: int| at <= k < before.len() implies path_before(p, #[trigger] before[k]) by {
        if k > at {
            assert(path_before(before[at], before[k]));
            lemma_steps_chain(steps(p), steps(before[at]), steps(before[k]));
        }
    }
    assert(forall|k: int| 0 <= k < at ==> r[k] == before[k]);
    assert(forall|k: int| at < k < r.len() ==> r[k] == before[k - 1]);
    assert forall|i: int, j: int| 0 <= i < j < r.len() implies path_before(
        #[trigger] r[i],
        #[trigger] r[j],
    ) by {}
    assert(is_first_spelling(more, list.len() as int)) by {
        assert forall|j: int| 0 <= j < list.len() implies steps(#[trigger] more[j]) != steps(
            more[list.len() as int],
        ) by {
            if steps(list[j]) == steps(p) {
                let i = lemma_first_exists(list, j);
                assert(before.contains(list[i]));
                let k = choose|k: int| 0 <= k < before.len() && before[k] == list[i];
                lemma_steps_order(steps(before[k]), steps(p));
                assert(path_before(before[k], p) || path_before(p, before[k]));
            }
        }
    }
    assert(r[at] == p);
    assert forall|k: int| 0 <= k < r.len() implies exists|i: int| #[trigger]
        is_first_spelling(more, i) && more[i] == #[trigger] r[k] by {
        if k == at {
            assert(more[list.len() as int] == r[k]);
        } else {
            let b = if k < at {
                k
            } else {
                k - 1
            };
            let i = choose|i: int| #[trigger] is_first_spelling(list, i) && list[i] == before[b];
            assert(is_first_spelling(more, i) && more[i] == r[k]);
        }
    }
    assert forall|i: int| #[trigger] is_first_spelling(more, i) implies r.contains(more[i]) by {
        if i < list.len() {
            assert(is_first_spelling(list, i));
            let k = choose|k: int| 0 <= k < before.len() && before[k] == list[i];
            assert(r[if k < at {
                k
            } else {
                k + 1
            }] == more[i]);
        }
    }
}

/// Adds a path to those in order, unless it is among them.
fn insert_path(out: &mut Vec<String>, path: &String, Ghost(list): Ghost<Seq<Seq<char>>>)
    requires
        is_sorted_set(texts(old(out)@), list),
    ensures
        is_sorted_set(texts(final(out)@), list.push(path@)),
{
    let ghost before = texts(out@);
    let ghost p = path@;
    let mut at: usize = 0;
    while at < out.len()
        invariant
            at <= out@.len(),
            before == texts(out@),
            p == path@,
            is_sorted_set(before, list),
            forall|k: int| 0 <= k < at ==> path_before(#[trigger] before[k], p),
        ensures
            at < out@.len() ==> path_before(p, before[at as int]),
        decreases out@.len() - at,
    {
        let r = relate_paths(out[at].as_str(), path.as_str());
        assert(before[at as int] == out@[at as int]@);
        match r {
            Relation::Before => {},
            Relation::Same => {
                proof {
                    lemma_known(before, list, p, at as int);
                }
                return;
            },
            Relation::After => {
                break;
            },
        }
        at += 1;
    }
    assert(at < out@.len() ==> path_before(p, before[at as int]));
    out.insert(at, path.clone());
    assert(texts(out@) =~= before.insert(at as int, p));
    proof {
        lemma_new(before, list, p, at as int);
    }
}

} // verus!
