//! Laws of names and texts: what a file is by its name, and how texts are taken
//! apart and put together.

use vstd::prelude::*;

use crate::laws::paths::{
    is_bare_drive, is_plain_name, joined_paths_end_in_the_name, lemma_ends_in, lemma_extended,
    lemma_last_point_is,
};
use crate::laws::times::{lemma_pieces_split, lemma_pieces_whole};
use crate::paths::{
    extended, extension_in, file_name_of, is_first_spelling, is_server, is_sorted_set, is_windows,
    joined_name, last_name, last_point, lemma_last_point, name_start, named, parent_of, path_before,
    separates, stem_in, step_before, steps, steps_before, text_before, without_tail, Step,
};
use crate::pipeline::{hidden, is_video, output_for, planned_output, spare_output, video_extensions};
use crate::show::{short_version_of, words};
use crate::skipfile::sidecars;
use crate::text::{
    joined, lower_text, lowered, occurs, pieces, trimmed, trimmed_back, trimmed_front, white,
};

verus! {

/// Whether a character does not stand in a text.
pub open spec fn is_without(s: Seq<char>, c: char) -> bool {
    forall|i: int| 0 <= i < s.len() ==> #[trigger] s[i] != c
}

/// The extension of a name is what follows its last point, and the stem what comes
/// before it.
pub proof fn extensions_follow_the_last_point(stem: Seq<char>, ext: Seq<char>)
    requires
        stem.len() > 0,
        is_without(ext, '.'),
    ensures
        extension_in(stem + seq!['.'] + ext) == Some(ext),
        stem_in(stem + seq!['.'] + ext) == stem,
{
    let n = stem + seq!['.'] + ext;
    let at = stem.len() as int;
    assert(n[at] == '.');
    assert forall|i: int| at < i < n.len() implies #[trigger] n[i] != '.' by {
        assert(n[i] == ext[i - at - 1]);
    }
    lemma_last_point_is(n, at);
    assert(n.skip(at + 1) =~= ext);
    assert(n.take(at) =~= stem);
}

/// A name without a point, or with one in front only, has no extension: all of it
/// is the stem.
pub proof fn names_without_a_point_have_no_extension(n: Seq<char>)
    requires
        n.len() > 0,
        is_without(n.drop_first(), '.'),
    ensures
        extension_in(n) is None,
        stem_in(n) == n,
{
    lemma_last_point(n);
    let at = last_point(n);
    if at > 0 {
        assert(n.drop_first()[at - 1] == n[at]);
    }
}

/// Whether an extension is that of a video.
pub open spec fn is_video_extension(e: Seq<char>) -> bool {
    ||| e == seq!['m', 'p', '4']
    ||| e == seq!['m', 'k', 'v']
    ||| e == seq!['a', 'v', 'i']
    ||| e == seq!['m', 'o', 'v']
    ||| e == seq!['m', '4', 'v']
    ||| e == seq!['w', 'e', 'b', 'm']
    ||| e == seq!['t', 's']
    ||| e == seq!['w', 'm', 'v']
    ||| e == seq!['f', 'l', 'v']
    ||| e == seq!['m', 'p', 'g']
    ||| e == seq!['m', 'p', 'e', 'g']
}

proof fn lemma_video_extensions(e: Seq<char>)
    ensures
        video_extensions().contains(e) <==> is_video_extension(e),
{
    reveal_strlit("mp4");
    reveal_strlit("mkv");
    reveal_strlit("avi");
    reveal_strlit("mov");
    reveal_strlit("m4v");
    reveal_strlit("webm");
    reveal_strlit("ts");
    reveal_strlit("wmv");
    reveal_strlit("flv");
    reveal_strlit("mpg");
    reveal_strlit("mpeg");
    let all = video_extensions();
    assert(all[0] =~= seq!['m', 'p', '4']);
    assert(all[1] =~= seq!['m', 'k', 'v']);
    assert(all[2] =~= seq!['a', 'v', 'i']);
    assert(all[3] =~= seq!['m', 'o', 'v']);
    assert(all[4] =~= seq!['m', '4', 'v']);
    assert(all[5] =~= seq!['w', 'e', 'b', 'm']);
    assert(all[6] =~= seq!['t', 's']);
    assert(all[7] =~= seq!['w', 'm', 'v']);
    assert(all[8] =~= seq!['f', 'l', 'v']);
    assert(all[9] =~= seq!['m', 'p', 'g']);
    assert(all[10] =~= seq!['m', 'p', 'e', 'g']);
    if all.contains(e) {
        let k = choose|k: int| 0 <= k < all.len() && all[k] == e;
        assert(k == 0 || k == 1 || k == 2 || k == 3 || k == 4 || k == 5 || k == 6 || k == 7 || k
            == 8 || k == 9 || k == 10);
    }
}

/// Whether two texts differ in nothing but in upper and lower case.
pub open spec fn differ_in_case(a: Seq<char>, b: Seq<char>) -> bool {
    &&& a.len() == b.len()
    &&& forall|i: int|
        0 <= i < a.len() ==> #[trigger] a[i] == b[i] || ('A' <= a[i] <= 'Z' && b[i] as int == a[i] as int
            + 32)
}

/// Whether a text has no upper case letters.
pub open spec fn is_lower(s: Seq<char>) -> bool {
    forall|i: int| 0 <= i < s.len() ==> !('A' <= #[trigger] s[i] <= 'Z')
}

/// A file is a video just where what follows the last point of its name is one of
/// the extensions of videos, in upper or lower case; a name without one is none.
pub proof fn videos_are_told_by_their_extension(
    path: Seq<char>,
    stem: Seq<char>,
    ext: Seq<char>,
    low: Seq<char>,
)
    requires
        file_name_of(path) == Some(stem + seq!['.'] + ext),
        stem.len() > 0,
        is_without(ext, '.'),
        differ_in_case(ext, low),
        is_lower(low),
    ensures
        is_video(path) <==> is_video_extension(low),
{
    extensions_follow_the_last_point(stem, ext);
    assert forall|i: int| 0 <= i < ext.len() implies #[trigger] lower_text(ext)[i] == low[i] by {
        let c = ext[i];
        let d = low[i];
        assert(c == d || ('A' <= c <= 'Z' && d as int == c as int + 32));
        assert(!('A' <= d <= 'Z'));
        assert(lowered(c) == d);
    }
    assert(lower_text(ext) =~= low);
    lemma_video_extensions(low);
}

/// What has no file name, or a name without an extension, is no video.
pub proof fn files_without_extension_are_no_videos(path: Seq<char>)
    requires
        file_name_of(path) matches Some(n) ==> is_without(n.drop_first(), '.'),
    ensures
        !is_video(path),
{
    if let Some(n) = file_name_of(path) {
        names_without_a_point_have_no_extension(n);
    }
}

/// What is hidden has a name that begins with a point.
pub proof fn hidden_names_begin_with_a_point(dir: Seq<char>, name: Seq<char>)
    requires
        is_plain_name(name),
        !is_bare_drive(dir),
        file_name_of(joined_name(dir, name)) is Some,
    ensures
        hidden(joined_name(dir, name)) <==> name[0] == '.',
{
    joined_paths_end_in_the_name(dir, name);
}

/// An output is called like its input, with the suffix before the extension.
pub proof fn outputs_are_called_like_their_inputs(
    input: Seq<char>,
    out_dir: Seq<char>,
    suffix: Seq<char>,
    stem: Seq<char>,
    ext: Seq<char>,
)
    requires
        file_name_of(input) == Some(stem + seq!['.'] + ext),
        stem.len() > 0,
        is_without(ext, '.'),
    ensures
        output_for(input, out_dir, suffix) == joined_name(
            out_dir,
            stem + suffix + seq!['.'] + ext,
        ),
{
    reveal_strlit(".");
    assert("."@ =~= seq!['.']);
    extensions_follow_the_last_point(stem, ext);
}

/// A file of needle beside a video has the name of the video, with needle's
/// extension in place of its own.
pub proof fn extensions_are_replaced(path: Seq<char>, stem: Seq<char>, old_ext: Seq<char>, ext: Seq<char>)
    requires
        file_name_of(path) == Some(stem + seq!['.'] + old_ext),
        stem.len() > 0,
        is_without(old_ext, '.'),
        ext.len() > 1,
        forall|i: int| 0 <= i < ext.len() ==> #[trigger] ext[i] != '/' && ext[i] != '\\',
    ensures
        file_name_of(extended(path, ext)) == Some(stem + seq!['.'] + ext),
        parent_of(extended(path, ext)) == parent_of(path),
{
    reveal_strlit(".");
    assert("."@ =~= seq!['.']);
    extensions_follow_the_last_point(stem, old_ext);
    lemma_extended(path, ext);
}

/// Whether one text comes before the other in a dictionary: they agree up to some
/// place, where the one ends or has the smaller character.
pub open spec fn comes_first(a: Seq<char>, b: Seq<char>, k: int) -> bool {
    &&& 0 <= k <= a.len() && k < b.len()
    &&& forall|i: int| 0 <= i < k ==> #[trigger] a[i] == b[i]
    &&& k == a.len() || a[k] < b[k]
}

/// The order of names is that of a dictionary.
pub proof fn names_are_ordered_as_in_a_dictionary(a: Seq<char>, b: Seq<char>)
    ensures
        text_before(a, b) <==> exists|k: int| #[trigger] comes_first(a, b, k),
    decreases a.len(),
{
    if b.len() > 0 && a.len() > 0 && a[0] == b[0] {
        let c = a.drop_first();
        let d = b.drop_first();
        names_are_ordered_as_in_a_dictionary(c, d);
        if text_before(c, d) {
            let k = choose|k: int| #[trigger] comes_first(c, d, k);
            assert forall|i: int| 0 <= i < k + 1 implies #[trigger] a[i] == b[i] by {
                if i > 0 {
                    assert(c[i - 1] == d[i - 1]);
                }
            }
            assert(comes_first(a, b, k + 1));
        }
        if exists|k: int| #[trigger] comes_first(a, b, k) {
            let k = choose|k: int| #[trigger] comes_first(a, b, k);
            assert(k > 0);
            assert forall|i: int| 0 <= i < k - 1 implies #[trigger] c[i] == d[i] by {
                assert(a[i + 1] == b[i + 1]);
            }
            assert(comes_first(c, d, k - 1));
        }
    } else if b.len() > 0 {
        if text_before(a, b) {
            assert(comes_first(a, b, 0));
        }
        if exists|k: int| #[trigger] comes_first(a, b, k) {
            let k = choose|k: int| #[trigger] comes_first(a, b, k);
            if k > 0 {
                assert(a[0] == b[0]);
            }
        }
    }
}

/// Whether one path comes before the other: they agree up to some step, where the
/// one ends or has the smaller step.
pub open spec fn leads_first(a: Seq<Step>, b: Seq<Step>, k: int) -> bool {
    &&& 0 <= k <= a.len() && k < b.len()
    &&& forall|i: int| 0 <= i < k ==> #[trigger] a[i] == b[i]
    &&& k == a.len() || step_before(a[k], b[k])
}

/// Paths are ordered step by step, and not as their texts are: what is in a
/// directory stays together.
pub proof fn paths_are_ordered_step_by_step(a: Seq<Step>, b: Seq<Step>)
    ensures
        steps_before(a, b) <==> exists|k: int| #[trigger] leads_first(a, b, k),
    decreases a.len(),
{
    if b.len() > 0 && a.len() > 0 && a[0] == b[0] {
        let c = a.drop_first();
        let d = b.drop_first();
        paths_are_ordered_step_by_step(c, d);
        if steps_before(c, d) {
            let k = choose|k: int| #[trigger] leads_first(c, d, k);
            assert forall|i: int| 0 <= i < k + 1 implies #[trigger] a[i] == b[i] by {
                if i > 0 {
                    assert(c[i - 1] == d[i - 1]);
                }
            }
            assert(leads_first(a, b, k + 1));
        }
        if exists|k: int| #[trigger] leads_first(a, b, k) {
            let k = choose|k: int| #[trigger] leads_first(a, b, k);
            names_are_ordered_as_in_a_dictionary(a[0].1, b[0].1);
            assert(k > 0) by {
                if k == 0 {
                    let j = choose|j: int| #[trigger] comes_first(a[0].1, b[0].1, j);
                    assert(comes_first(a[0].1, b[0].1, j));
                }
            }
            assert forall|i: int| 0 <= i < k - 1 implies #[trigger] c[i] == d[i] by {
                assert(a[i + 1] == b[i + 1]);
            }
            assert(leads_first(c, d, k - 1));
        }
    } else if b.len() > 0 {
        if steps_before(a, b) {
            assert(leads_first(a, b, 0));
        }
        if exists|k: int| #[trigger] leads_first(a, b, k) {
            let k = choose|k: int| #[trigger] leads_first(a, b, k);
            if k > 0 {
                assert(a[0] == b[0]);
            }
        }
    }
}

/// Whether all of a text is white space.
pub open spec fn all_white(s: Seq<char>) -> bool {
    forall|i: int| 0 <= i < s.len() ==> white(#[trigger] s[i])
}

/// What is taken away around a text is white space, and all that there is of it.
pub proof fn only_space_is_trimmed(front: Seq<char>, s: Seq<char>, back: Seq<char>)
    requires
        all_white(front),
        all_white(back),
        s.len() > 0 ==> !white(s[0]) && !white(s.last()),
    ensures
        trimmed(front + s + back) == s,
{
    if s.len() == 0 {
        let t = front + s + back;
        assert forall|i: int| 0 <= i < t.len() implies white(#[trigger] t[i]) by {
            if i < front.len() {
                assert(t[i] == front[i]);
            } else {
                assert(t[i] == back[i - front.len()]);
            }
        }
        lemma_front_all(t);
        assert(trimmed(t) =~= s);
    } else {
        lemma_front_of(front, s + back);
        assert(front + s + back =~= front + (s + back));
        lemma_back_of(s, back);
    }
}

proof fn lemma_front_all(s: Seq<char>)
    requires
        all_white(s),
    ensures
        trimmed_front(s).len() == 0,
    decreases s.len(),
{
    if s.len() > 0 {
        assert(white(s[0]));
        let rest = s.drop_first();
        assert forall|i: int| 0 <= i < rest.len() implies white(#[trigger] rest[i]) by {
            assert(rest[i] == s[i + 1]);
        }
        lemma_front_all(rest);
    }
}

proof fn lemma_front_of(front: Seq<char>, s: Seq<char>)
    requires
        all_white(front),
        s.len() > 0,
        !white(s[0]),
    ensures
        trimmed_front(front + s) == s,
    decreases front.len(),
{
    let t = front + s;
    if front.len() > 0 {
        assert(t[0] == front[0] && white(front[0]));
        let rest = front.drop_first();
        assert forall|i: int| 0 <= i < rest.len() implies white(#[trigger] rest[i]) by {
            assert(rest[i] == front[i + 1]);
        }
        assert(t.drop_first() =~= rest + s);
        lemma_front_of(rest, s);
    } else {
        assert(t =~= s);
    }
}

proof fn lemma_back_of(s: Seq<char>, back: Seq<char>)
    requires
        all_white(back),
        s.len() > 0,
        !white(s.last()),
    ensures
        trimmed_back(s + back) == s,
    decreases back.len(),
{
    let t = s + back;
    if back.len() > 0 {
        assert(t.last() == back[back.len() - 1] && white(back[back.len() - 1]));
        let rest = back.drop_last();
        assert forall|i: int| 0 <= i < rest.len() implies white(#[trigger] rest[i]) by {
            assert(rest[i] == back[i]);
        }
        assert(t.drop_last() =~= s + rest);
        lemma_back_of(s, rest);
    } else {
        assert(t =~= s);
    }
}

/// Texts that are put in a row with a character between them are had back by
/// taking the row apart at that character, where it is in none of them.
pub proof fn what_is_joined_can_be_taken_apart(list: Seq<Seq<char>>, c: char)
    requires
        list.len() > 0,
        forall|i: int| 0 <= i < list.len() ==> is_without(#[trigger] list[i], c),
    ensures
        pieces(joined(list, seq![c]), c) == list,
    decreases list.len(),
{
    lemma_joined_front(list, seq![c]);
    assert(is_without(list[0], c));
    if list.len() == 1 {
        lemma_pieces_whole(list[0], c);
        assert(pieces(list[0], c) =~= list);
    } else {
        let rest = list.drop_first();
        assert forall|i: int| 0 <= i < rest.len() implies is_without(#[trigger] rest[i], c) by {
            assert(rest[i] == list[i + 1]);
        }
        what_is_joined_can_be_taken_apart(rest, c);
        lemma_pieces_split(list[0], joined(rest, seq![c]), c);
        assert(pieces(joined(list, seq![c]), c) =~= list);
    }
}

/// The row begins with the first text.
proof fn lemma_joined_front(list: Seq<Seq<char>>, sep: Seq<char>)
    requires
        list.len() > 0,
    ensures
        list.len() > 1 ==> joined(list, sep) == list[0] + sep + joined(list.drop_first(), sep),
    decreases list.len(),
{
    if list.len() == 2 {
        assert(joined(list.drop_last(), sep) == list[0]);
        assert(joined(list.drop_first(), sep) == list[1]);
    } else if list.len() > 2 {
        let front = list.drop_last();
        lemma_joined_front(front, sep);
        let rest = list.drop_first();
        assert(rest.drop_last() =~= front.drop_first());
        assert(rest.last() == list.last());
        assert(joined(list, sep) =~= list[0] + sep + joined(rest, sep));
    }
}

/// Whether a text is one word.
pub open spec fn is_word(s: Seq<char>) -> bool {
    s.len() > 0 && forall|i: int| 0 <= i < s.len() ==> !white(#[trigger] s[i])
}

/// A word behind white space, or alone, is the last of the words.
proof fn lemma_last_word(front: Seq<char>, word: Seq<char>)
    requires
        is_word(word),
        front.len() > 0 ==> white(front.last()),
    ensures
        words(front + word) == words(front).push(word),
    decreases word.len(),
{
    let s = front + word;
    let n = word.len() as int;
    assert(s.last() == word[n - 1]);
    assert(s.drop_last() =~= front + word.drop_last());
    if n == 1 {
        assert(s.drop_last() =~= front);
        if s.len() > 1 {
            assert(s[s.len() - 2] == front.last());
        }
        assert(word =~= seq![word[0]]);
    } else {
        let w = word.drop_last();
        assert forall|i: int| 0 <= i < w.len() implies !white(#[trigger] w[i]) by {
            assert(w[i] == word[i]);
        }
        lemma_last_word(front, w);
        assert(s[s.len() - 2] == word[n - 2]);
        assert(w.push(word[n - 1]) =~= word);
        let before = words(front).push(w);
        assert(before.drop_last() =~= words(front));
    }
}

/// White space behind a text makes no word.
proof fn lemma_space_behind(s: Seq<char>, space: Seq<char>)
    requires
        all_white(space),
    ensures
        words(s + space) == words(s),
    decreases space.len(),
{
    let t = s + space;
    if space.len() > 0 {
        assert(t.last() == space[space.len() - 1]);
        let rest = space.drop_last();
        assert forall|i: int| 0 <= i < rest.len() implies white(#[trigger] rest[i]) by {
            assert(rest[i] == space[i]);
        }
        assert(t.drop_last() =~= s + rest);
        lemma_space_behind(s, rest);
    } else {
        assert(t =~= s);
    }
}

/// The words of a text stay the first ones, whatever comes behind white space.
proof fn lemma_more_words(s: Seq<char>, more: Seq<char>)
    requires
        s.len() > 0,
        white(s.last()),
    ensures
        words(s + more).len() >= words(s).len(),
        forall|i: int| 0 <= i < words(s).len() ==> words(s + more)[i] == #[trigger] words(s)[i],
        more.len() > 0 && !white(more.last()) ==> words(s + more).len() > words(s).len(),
    decreases more.len(),
{
    let t = s + more;
    if more.len() == 0 {
        assert(t =~= s);
    } else {
        let rest = more.drop_last();
        assert(t.drop_last() =~= s + rest);
        assert(t.last() == more.last());
        lemma_more_words(s, rest);
        if more.len() == 1 {
            assert(t[t.len() - 2] == s.last());
        } else {
            assert(t[t.len() - 2] == rest.last());
        }
    }
}

/// The version is the third word of what a program says of itself, however much
/// white space stands between the words.
pub proof fn versions_are_third_words(
    first: Seq<char>,
    gap: Seq<char>,
    second: Seq<char>,
    other_gap: Seq<char>,
    third: Seq<char>,
    end: Seq<char>,
    rest: Seq<char>,
)
    requires
        is_word(first) && is_word(second) && is_word(third),
        gap.len() > 0 && all_white(gap),
        other_gap.len() > 0 && all_white(other_gap),
        all_white(end),
        rest.len() > 0 ==> end.len() > 0,
    ensures
        short_version_of(first + gap + second + other_gap + third + end + rest) == third,
{
    let none = Seq::<char>::empty();
    let a = first + gap;
    lemma_last_word(none, first);
    assert(none + first =~= first);
    lemma_space_behind(first, gap);
    assert(a.last() == gap[gap.len() - 1]);
    lemma_last_word(a, second);
    let b = a + second + other_gap;
    lemma_space_behind(a + second, other_gap);
    assert(b.last() == other_gap[other_gap.len() - 1]);
    lemma_last_word(b, third);
    let c = b + third + end;
    lemma_space_behind(b + third, end);
    assert(words(c).len() == 3 && words(c)[2] == third);
    if rest.len() > 0 {
        assert(c.last() == end[end.len() - 1]);
        lemma_more_words(c, rest);
        assert(words(c + rest)[2] == words(c)[2]);
    } else {
        assert(c + rest =~= c);
    }
}

/// The directory of a file is the one that its name was put behind.
pub proof fn files_lie_in_their_directory(dir: Seq<char>, name: Seq<char>)
    requires
        is_plain_name(name),
        dir.len() > 2,
        dir.last() != '/' && dir.last() != '\\' && dir.last() != '.',
        !is_server(joined_name(dir, name).take(dir.len() as int + 1)),
    ensures
        parent_of(joined_name(dir, name)) == Some(dir),
        file_name_of(joined_name(dir, name)) == Some(name),
{
    reveal_strlit("/");
    reveal_strlit("\\");
    let p = joined_name(dir, name);
    let w = is_windows(dir);
    let front = p.take(dir.len() as int + 1);
    assert(p =~= front + name);
    assert(forall|i: int| 0 <= i < dir.len() ==> p[i] == dir[i]);
    assert(is_windows(p) == w);
    assert(front.drop_last() =~= dir);
    assert(separates(front.last(), w));
    assert forall|i: int| 0 <= i < name.len() implies !separates(#[trigger] name[i], w) by {
        assert(name[i] != '/' && name[i] != '\\');
    }
    lemma_ends_in(p, front, name);
    assert(without_tail(dir, w) == dir);
    assert(without_tail(front, w) == without_tail(front.drop_last(), w));
}

/// The step that a piece between two separators makes: up, or to a name.
pub open spec fn step_to(n: Seq<char>) -> Step {
    if n == seq!['.', '.'] {
        (3nat, Seq::empty())
    } else {
        (4nat, n)
    }
}

/// Whether a piece between two separators makes a step at all.
pub open spec fn makes_a_step(n: Seq<char>) -> bool {
    n.len() > 0 && n != seq!['.']
}

proof fn lemma_named(list: Seq<Seq<char>>)
    ensures
        named(list) == list.filter(|n: Seq<char>| makes_a_step(n)).map_values(
            |n: Seq<char>| step_to(n),
        ),
    decreases list.len(),
{
    reveal(Seq::filter);
    reveal_strlit(".");
    reveal_strlit("..");
    assert("."@ =~= seq!['.']);
    assert(".."@ =~= seq!['.', '.']);
    let f = |n: Seq<char>| step_to(n);
    let p = |n: Seq<char>| makes_a_step(n);
    if list.len() > 0 {
        let front = list.drop_last();
        lemma_named(front);
        assert(front.filter(p).push(list.last()).map_values(f) =~= front.filter(p).map_values(
            f,
        ).push(step_to(list.last())));
    }
    assert(named(list) =~= list.filter(p).map_values(f));
}

/// The steps of a path are the names between its separators, in their order: it
/// makes no difference how many separators stand in a row, nor what leads nowhere.
pub proof fn steps_are_the_names_of_a_path(list: Seq<Seq<char>>)
    requires
        list.len() > 0,
        forall|i: int| 0 <= i < list.len() ==> is_without(#[trigger] list[i], '/'),
        makes_a_step(list[0]),
        !is_windows(joined(list, seq!['/'])),
    ensures
        steps(joined(list, seq!['/'])) == list.filter(|n: Seq<char>| makes_a_step(n)).map_values(
            |n: Seq<char>| step_to(n),
        ),
{
    reveal_strlit(".");
    assert("."@ =~= seq!['.']);
    let p = joined(list, seq!['/']);
    what_is_joined_can_be_taken_apart(list, '/');
    lemma_named(list);
    lemma_joined_front(list, seq!['/']);
    assert(p.skip(0) =~= p);
    assert(is_without(list[0], '/'));
    assert(p[0] == list[0][0]);
    let none = Seq::<Step>::empty();
    assert(none + none + named(list) =~= named(list));
}

/// A part occurs in a text just where the text is something, the part, and
/// something.
pub proof fn parts_occur_between_others(s: Seq<char>, part: Seq<char>)
    ensures
        occurs(s, part) <==> exists|a: Seq<char>, b: Seq<char>| #[trigger] (a + part + b) == s,
{
    if occurs(s, part) {
        let i = choose|i: int|
            0 <= i <= s.len() - part.len() && #[trigger] s.subrange(i, i + part.len()) == part;
        let a = s.take(i);
        let b = s.skip(i + part.len());
        assert(a + part + b =~= s) by {
            assert forall|k: int| 0 <= k < s.len() implies #[trigger] (a + part + b)[k] == s[k] by {
                if i <= k < i + part.len() {
                    assert(s.subrange(i, i + part.len())[k - i] == part[k - i]);
                }
            }
        }
    }
    if exists|a: Seq<char>, b: Seq<char>| #[trigger] (a + part + b) == s {
        let (a, b) = choose|a: Seq<char>, b: Seq<char>| #[trigger] (a + part + b) == s;
        let i = a.len() as int;
        assert(s.subrange(i, i + part.len()) =~= part);
    }
}

/// An output that would be its input is put beside it instead, under the name that
/// it has with the usual suffix. Otherwise it is where it is wanted.
pub proof fn outputs_are_where_they_are_wanted(
    input: Seq<char>,
    out_dir: Seq<char>,
    suffix: Seq<char>,
)
    ensures
        steps(output_for(input, out_dir, suffix)) != steps(input) ==> planned_output(
            input,
            out_dir,
            suffix,
        ) == output_for(input, out_dir, suffix),
        steps(output_for(input, out_dir, suffix)) == steps(input) ==> planned_output(
            input,
            out_dir,
            suffix,
        ) == spare_output(input),
{
}

/// The output beside an input is called like it, with the usual suffix before the
/// extension, and nothing before the name changes.
pub proof fn spare_outputs_are_called_like_their_inputs(
    input: Seq<char>,
    stem: Seq<char>,
    ext: Seq<char>,
)
    requires
        last_name(input) == stem + seq!['.'] + ext,
        stem.len() > 0,
        is_without(ext, '.'),
    ensures
        spare_output(input) == input.take(name_start(input)) + stem + "_trimmed"@ + seq!['.'] + ext,
{
    reveal_strlit(".");
    assert("."@ =~= seq!['.']);
    extensions_follow_the_last_point(stem, ext);
}

/// The files that needle may leave beside a video are these three.
pub proof fn sidecars_are_called_like_their_video(
    video: Seq<char>,
    stem: Seq<char>,
    ext: Seq<char>,
)
    requires
        file_name_of(video) == Some(stem + seq!['.'] + ext),
        stem.len() > 0,
        is_without(ext, '.'),
    ensures
        sidecars(video).len() == 3,
        file_name_of(sidecars(video)[0]) == Some(stem + seq!['.'] + "needle.bin"@),
        file_name_of(sidecars(video)[1]) == Some(stem + seq!['.'] + "needle.dat"@),
        file_name_of(sidecars(video)[2]) == Some(stem + seq!['.'] + "needle.skip.json"@),
{
    reveal_strlit("needle.bin");
    reveal_strlit("needle.dat");
    reveal_strlit("needle.skip.json");
    extensions_are_replaced(video, stem, ext, "needle.bin"@);
    extensions_are_replaced(video, stem, ext, "needle.dat"@);
    extensions_are_replaced(video, stem, ext, "needle.skip.json"@);
}

/// Paths that are sorted come one before the other, step by step. Of the spellings
/// of one path the first that was found stays.
pub proof fn sorted_paths_are_in_order(r: Seq<Seq<char>>, list: Seq<Seq<char>>, j: int, k: int)
    requires
        is_sorted_set(r, list),
        0 <= j < k < r.len(),
    ensures
        exists|at: int| #[trigger] leads_first(steps(r[j]), steps(r[k]), at),
        forall|i: int|
            0 <= i < list.len() && steps(#[trigger] list[i]) == steps(r[k]) && (forall|h: int|
                0 <= h < i ==> steps(#[trigger] list[h]) != steps(r[k])) ==> r[k] == list[i],
{
    assert(path_before(r[j], r[k]));
    paths_are_ordered_step_by_step(steps(r[j]), steps(r[k]));
    let first = choose|i: int| #[trigger] is_first_spelling(list, i) && list[i] == r[k];
    assert forall|i: int|
        0 <= i < list.len() && steps(#[trigger] list[i]) == steps(r[k]) && (forall|h: int|
            0 <= h < i ==> steps(#[trigger] list[h]) != steps(r[k])) implies r[k] == list[i] by {
        if i < first {
            assert(steps(list[i]) != steps(list[first]));
        }
        if first < i {
            assert(steps(list[first]) != steps(r[k]));
        }
    }
}

} // verus!
