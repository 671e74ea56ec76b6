//! Laws of paths that are the same.

use vstd::prelude::*;

use crate::laws::paths::lemma_spare_output;
use crate::paths::{
    ascending, drive_len, file_name_of, holds, is_first_spelling, is_sorted_set, is_windows,
    joined_name, last_name, lemma_first_exists, lemma_name_from, lemma_name_range,
    lemma_steps_order, lemma_without_tail, name_end, name_start, named, path_before, separates,
    steps, steps_before, without_tail, Step, ABOVE, NAME,
};
use crate::pipeline::{output_for, planned_output, spare_output};
use crate::text::{first_at, lemma_first_at, lemma_first_at_is, pieces, replaced};

verus! {

/// The path with every separator written as `/`.
spec fn flat(s: Seq<char>, windows: bool) -> Seq<char> {
    if windows {
        replaced(s, '\\', "/"@)
    } else {
        s
    }
}

proof fn lemma_flat(s: Seq<char>, windows: bool)
    ensures
        flat(s, windows).len() == s.len(),
        forall|i: int|
            0 <= i < s.len() ==> #[trigger] flat(s, windows)[i] == (if windows && s[i] == '\\' {
                '/'
            } else {
                s[i]
            }),
    decreases s.len(),
{
    reveal_strlit("/");
    if windows && s.len() > 0 {
        let t = s.drop_last();
        lemma_flat(t, windows);
        assert forall|i: int| 0 <= i < s.len() implies #[trigger] flat(s, windows)[i] == (
        if windows && s[i] == '\\' {
            '/'
        } else {
            s[i]
        }) by {
            if i < t.len() {
                assert(flat(s, windows)[i] == flat(t, windows)[i]);
                assert(t[i] == s[i]);
            }
        }
    }
}

/// The pieces of a text behind a separator follow on those before it.
proof fn lemma_pieces_behind(a: Seq<char>, b: Seq<char>, c: char)
    requires
        a.len() > 0 ==> a.last() == c,
    ensures
        pieces(a, c).len() > 0,
        pieces(a + b, c) == pieces(a, c).drop_last() + pieces(b, c),
    decreases a.len(),
{
    if a.len() == 0 {
        assert(a + b =~= b);
        assert(!a.contains(c));
        assert(pieces(a, c) =~= seq![a]);
        assert(pieces(a, c).drop_last() + pieces(b, c) =~= pieces(b, c));
    } else {
        lemma_first_at(a, c);
        assert(a[a.len() - 1] == c);
        assert(a.contains(c));
        let k = first_at(a, c);
        let rest = a.skip(k + 1);
        lemma_pieces_behind(rest, b, c);
        let whole = a + b;
        assert forall|i: int| 0 <= i < k implies whole[i] != c by {
            assert(whole[i] == a[i]);
        }
        assert(whole[k] == c);
        lemma_first_at_is(whole, c, k);
        assert(whole.contains(c));
        assert(whole.take(k) =~= a.take(k));
        assert(whole.skip(k + 1) =~= rest + b);
        assert((seq![a.take(k)] + pieces(rest, c)).drop_last() =~= seq![a.take(k)] + pieces(
            rest,
            c,
        ).drop_last());
        assert(pieces(whole, c) =~= pieces(a, c).drop_last() + pieces(b, c));
    }
}

/// A separator at the end adds an empty piece.
proof fn lemma_pieces_more(a: Seq<char>, c: char)
    ensures
        pieces(a.push(c), c) == pieces(a, c).push(Seq::empty()),
    decreases a.len(),
{
    let s = a.push(c);
    lemma_first_at(a, c);
    if a.contains(c) {
        let k = first_at(a, c);
        let rest = a.skip(k + 1);
        lemma_pieces_more(rest, c);
        assert(forall|i: int| 0 <= i < a.len() ==> s[i] == a[i]);
        lemma_first_at_is(s, c, k);
        assert(s[k] == c);
        assert(s.contains(c));
        assert(s.take(k) =~= a.take(k));
        assert(s.skip(k + 1) =~= rest.push(c));
        assert(pieces(s, c) =~= pieces(a, c).push(Seq::empty()));
    } else {
        assert forall|i: int| 0 <= i < a.len() implies s[i] != c by {
            assert(s[i] == a[i]);
            assert(a.contains(a[i]));
        }
        assert(s[a.len() as int] == c);
        lemma_first_at_is(s, c, a.len() as int);
        assert(s.contains(c));
        let end = s.skip(a.len() as int + 1);
        assert(end =~= Seq::<char>::empty());
        assert(!end.contains(c));
        assert(s.take(a.len() as int) =~= a);
        assert(pieces(end, c) == seq![end]);
        assert(pieces(a, c) == seq![a]);
        assert(pieces(s, c) == seq![a] + seq![end]);
        assert(seq![a] + seq![end] =~= seq![a].push(Seq::empty()));
    }
}

/// What stands behind the last name adds no steps.
proof fn lemma_tail_adds_nothing(p: Seq<char>, windows: bool)
    ensures
        named(pieces(flat(p, windows), '/')) == named(
            pieces(flat(without_tail(p, windows), windows), '/'),
        ),
    decreases p.len(),
{
    let n = p.len();
    lemma_flat(p, windows);
    if n > 0 && separates(p.last(), windows) {
        let q = p.drop_last();
        lemma_flat(q, windows);
        lemma_tail_adds_nothing(q, windows);
        assert(flat(p, windows) =~= flat(q, windows).push('/'));
        lemma_pieces_more(flat(q, windows), '/');
        let list = pieces(flat(q, windows), '/');
        assert(list.push(Seq::empty()).drop_last() =~= list);
    } else if n > 1 && p.last() == '.' && separates(p[n - 2], windows) {
        let q = p.drop_last();
        let r = q.drop_last();
        lemma_flat(q, windows);
        lemma_flat(r, windows);
        lemma_tail_adds_nothing(q, windows);
        reveal_strlit(".");
        let dot = seq!['.'];
        assert(flat(q, windows) =~= flat(r, windows).push('/'));
        assert(flat(p, windows) =~= flat(q, windows) + dot);
        lemma_pieces_more(flat(r, windows), '/');
        lemma_pieces_behind(flat(q, windows), dot, '/');
        assert(!dot.contains('/'));
        let list = pieces(flat(r, windows), '/');
        assert(list.push(Seq::empty()).drop_last() =~= list);
        assert(pieces(flat(p, windows), '/') =~= list.push(dot));
        assert(list.push(dot).drop_last() =~= list);
        assert(dot =~= "."@);
    }
}

/// A drive in front is not touched by what is cut off behind.
proof fn lemma_tail_behind_drive(drive: Seq<char>, rest: Seq<char>, windows: bool)
    requires
        drive.len() == 0 || (drive.len() == 2 && drive[1] == ':'),
    ensures
        without_tail(drive + rest, windows) == drive + without_tail(rest, windows),
    decreases rest.len(),
{
    let p = drive + rest;
    if rest.len() == 0 {
        assert(p =~= drive);
        assert(drive + without_tail(rest, windows) =~= drive);
    } else {
        assert(p.last() == rest.last());
        assert(p.drop_last() =~= drive + rest.drop_last());
        if rest.len() > 1 {
            assert(p[p.len() - 2] == rest[rest.len() - 2]);
        } else if drive.len() == 2 {
            assert(p[p.len() - 2] == ':');
        }
        lemma_tail_behind_drive(drive, rest.drop_last(), windows);
    }
}

/// The last step of a text that ends in a name is that name.
proof fn lemma_last_named(front: Seq<char>, n: Seq<char>, w: bool)
    requires
        n.len() > 0,
        n != "."@,
        n != ".."@,
        forall|i: int| 0 <= i < n.len() ==> !separates(#[trigger] n[i], w),
        front.len() > 0 ==> separates(front.last(), w),
    ensures
        ({
            let all = named(pieces(flat(front + n, w), '/'));
            all.len() > 0 && all.last() == (NAME as nat, n)
        }),
{
    let q = front + n;
    lemma_flat(q, w);
    lemma_flat(front, w);
    assert forall|i: int| 0 <= i < q.len() implies #[trigger] flat(q, w)[i] == (flat(front, w)
        + n)[i] by {
        if i < front.len() {
            assert(q[i] == front[i]);
        } else {
            assert(q[i] == n[i - front.len()]);
            assert(!separates(n[i - front.len()], w));
        }
    }
    assert(flat(q, w) =~= flat(front, w) + n);
    lemma_pieces_behind(flat(front, w), n, '/');
    assert(!n.contains('/')) by {
        if n.contains('/') {
            let i = choose|i: int| 0 <= i < n.len() && n[i] == '/';
            assert(!separates(n[i], w));
        }
    }
    assert(pieces(n, '/') == seq![n]);
    let before = pieces(flat(front, w), '/').drop_last();
    let list = pieces(flat(q, w), '/');
    assert(list =~= before.push(n));
    assert(list.drop_last() =~= before);
}

/// What is left of a path behind its drive and without its tail: the front and
/// the last name.
proof fn lemma_front_and_name(p: Seq<char>)
    ensures
        ({
            let w = is_windows(p);
            let d = drive_len(p);
            &&& 0 <= d <= name_start(p) <= name_end(p) <= p.len()
            &&& without_tail(p.skip(d), w) == p.subrange(d, name_start(p)) + last_name(p)
            &&& name_start(p) > d ==> separates(p[name_start(p) - 1], w)
            &&& forall|i: int|
                name_start(p) <= i < name_end(p) ==> !separates(#[trigger] p[i], w)
        }),
{
    let w = is_windows(p);
    let d = drive_len(p);
    lemma_name_range(p);
    lemma_without_tail(p, w);
    let drive = p.take(d);
    let rest = p.skip(d);
    assert(p =~= drive + rest);
    lemma_tail_behind_drive(drive, rest, w);
    let q = without_tail(rest, w);
    let whole = without_tail(p, w);
    assert(whole == drive + q);
    assert(q =~= whole.skip(d));
    if whole.len() > d {
        lemma_name_from(whole, w, d);
    }
    assert(forall|i: int| 0 <= i < whole.len() ==> whole[i] == p[i]);
    assert(whole.skip(d) =~= p.subrange(d, name_start(p)) + last_name(p));
}

/// Whether a name is one, and not a way to say "here" or "above".
pub open spec fn is_proper_name(n: Seq<char>) -> bool {
    n.len() > 0 && n != "."@ && n != ".."@
}

/// All steps of a path but those at its beginning.
proof fn lemma_steps_end(p: Seq<char>) -> (all: Seq<Step>)
    ensures
        all == named(
            pieces(
                flat(p.subrange(drive_len(p), name_start(p)) + last_name(p), is_windows(p)),
                '/',
            ),
        ),
        all.len() <= steps(p).len(),
        all.len() > 0 ==> steps(p).last() == all.last(),
        all.len() == 0 && steps(p).len() > 0 ==> steps(p).last().0 != NAME,
{
    let w = is_windows(p);
    let d = drive_len(p);
    let rest = p.skip(d);
    lemma_front_and_name(p);
    lemma_tail_adds_nothing(rest, w);
    let all = named(pieces(flat(rest, w), '/'));
    assert(flat(rest, w) == if w {
        replaced(rest, '\\', "/"@)
    } else {
        rest
    });
    let before = steps(p).take(steps(p).len() - all.len());
    assert(steps(p) =~= before + all);
    all
}

/// The last step of a path that ends in a name is that name.
pub proof fn last_step_is_the_last_name(p: Seq<char>)
    requires
        is_proper_name(last_name(p)),
    ensures
        steps(p).len() > 0,
        steps(p).last() == (NAME as nat, last_name(p)),
{
    let w = is_windows(p);
    let n = last_name(p);
    let front = p.subrange(drive_len(p), name_start(p));
    lemma_front_and_name(p);
    assert forall|i: int| 0 <= i < n.len() implies !separates(#[trigger] n[i], w) by {
        assert(n[i] == p[name_start(p) + i]);
    }
    if front.len() > 0 {
        assert(front.last() == p[name_start(p) - 1]);
    }
    lemma_last_named(front, n, w);
    let _all = lemma_steps_end(p);
}

/// The last step of a path that leads to a file is the name of that file. So
/// paths that are the same lead to files of the same name.
pub proof fn last_step_is_the_file_name(p: Seq<char>)
    requires
        file_name_of(p) is Some,
    ensures
        steps(p).len() > 0,
        steps(p).last() == (NAME as nat, file_name_of(p)->0),
{
    last_step_is_the_last_name(p);
}

/// A path that ends in no name has none as its last step.
proof fn lemma_no_last_name(p: Seq<char>)
    requires
        !is_proper_name(last_name(p)),
    ensures
        steps(p).len() > 0 ==> steps(p).last().0 != NAME,
{
    let w = is_windows(p);
    let n = last_name(p);
    let d = drive_len(p);
    let front = p.subrange(d, name_start(p));
    let q = front + n;
    reveal_strlit(".");
    reveal_strlit("..");
    lemma_front_and_name(p);
    lemma_without_tail(p.skip(d), w);
    assert(without_tail(q, w) == q);
    if front.len() > 0 {
        assert(front.last() == p[name_start(p) - 1]);
        assert(separates(front.last(), w));
    }
    let all = lemma_steps_end(p);
    if n.len() == 0 {
        assert(q =~= front);
        if front.len() > 0 {
            lemma_without_tail(q.drop_last(), w);
        }
        assert(front.len() == 0);
        lemma_flat(q, w);
        assert(flat(q, w) =~= Seq::<char>::empty());
        assert(!flat(q, w).contains('/'));
        assert(pieces(flat(q, w), '/') =~= seq![Seq::<char>::empty()]);
        let none = pieces(flat(q, w), '/');
        assert(none.drop_last() =~= Seq::<Seq<char>>::empty());
        assert(named(none.drop_last()).len() == 0);
        assert(none.last().len() == 0);
        assert(all.len() == 0);
    } else {
        lemma_flat(q, w);
        lemma_flat(front, w);
        assert(!separates('.', w));
        assert forall|i: int| 0 <= i < q.len() implies #[trigger] flat(q, w)[i] == (flat(front, w)
            + n)[i] by {
            if i < front.len() {
                assert(q[i] == front[i]);
            } else {
                assert(q[i] == n[i - front.len()]);
            }
        }
        assert(flat(q, w) =~= flat(front, w) + n);
        lemma_pieces_behind(flat(front, w), n, '/');
        assert(!n.contains('/'));
        assert(pieces(n, '/') == seq![n]);
        let before = pieces(flat(front, w), '/').drop_last();
        let list = pieces(flat(q, w), '/');
        assert(list =~= before.push(n));
        assert(list.drop_last() =~= before);
        if n == "."@ {
            assert(q.last() == '.');
            if front.len() > 0 {
                assert(q[q.len() - 2] == front.last());
                lemma_without_tail(q.drop_last(), w);
            }
            assert(front.len() == 0);
            assert(pieces(flat(front, w), '/') =~= seq![Seq::<char>::empty()]) by {
                assert(!flat(front, w).contains('/'));
                assert(flat(front, w) =~= Seq::<char>::empty());
            }
            assert(before =~= Seq::<Seq<char>>::empty());
            assert(named(before).len() == 0);
            assert(all.len() == 0);
        } else {
            assert(n == ".."@);
            assert("."@.len() != ".."@.len());
            assert(list.last() == n);
            assert(all.last() == (ABOVE as nat, Seq::<char>::empty()));
        }
    }
}

/// The name of an output of a path without a name is one.
proof fn lemma_output_has_name(dir: Seq<char>, front: Seq<char>)
    ensures
        is_proper_name(last_name(joined_name(dir, front + "."@ + "mkv"@))),
{
    reveal_strlit(".");
    reveal_strlit("..");
    reveal_strlit("mkv");
    let p = joined_name(dir, front + "."@ + "mkv"@);
    let w = is_windows(p);
    assert(p.last() == 'v');
    assert(p[p.len() - 2] == 'k');
    lemma_front_and_name(p);
    assert(without_tail(p, w) == p);
    assert(drive_len(p) < p.len()) by {
        if p.len() == 2 {
            assert(p[1] == 'v');
        }
    }
    assert(name_end(p) == p.len());
    assert(name_start(p) < p.len()) by {
        if name_start(p) == p.len() {
            assert(separates(p[p.len() - 1], w));
        }
    }
    assert(last_name(p).last() == 'v');
}

/// No output that is planned is the path of its input: whatever the input, the
/// directory and the suffix are.
pub proof fn outputs_are_not_their_inputs(input: Seq<char>, out_dir: Seq<char>, suffix: Seq<char>)
    ensures
        steps(planned_output(input, out_dir, suffix)) != steps(input),
{
    let output = output_for(input, out_dir, suffix);
    if steps(output) == steps(input) {
        if is_proper_name(last_name(input)) {
            lemma_spare_output(input);
            reveal_strlit(".");
            reveal_strlit("..");
            last_step_is_the_last_name(input);
            last_step_is_the_last_name(spare_output(input));
        } else {
            lemma_no_last_name(input);
            lemma_output_has_name(out_dir, "output"@ + suffix);
            last_step_is_the_last_name(output);
        }
    }
}

/// Whether two lists hold the same paths, however they are spelled and however
/// often each is there.
pub open spec fn same_paths(a: Seq<Seq<char>>, b: Seq<Seq<char>>) -> bool {
    forall|path: Seq<Step>| #[trigger] holds(a, path) <==> holds(b, path)
}

/// A list in order holds the paths of the list that it was made of.
pub proof fn lemma_sorted_holds(r: Seq<Seq<char>>, list: Seq<Seq<char>>)
    requires
        is_sorted_set(r, list),
    ensures
        same_paths(r, list),
{
    assert forall|path: Seq<Step>| #[trigger] holds(r, path) <==> holds(list, path) by {
        if holds(r, path) {
            let i = choose|i: int| 0 <= i < r.len() && steps(#[trigger] r[i]) == path;
            let j = choose|j: int| #[trigger] is_first_spelling(list, j) && list[j] == r[i];
            assert(steps(list[j]) == path);
        }
        if holds(list, path) {
            let j = choose|j: int| 0 <= j < list.len() && steps(#[trigger] list[j]) == path;
            let k = lemma_first_exists(list, j);
            assert(r.contains(list[k]));
            let i = choose|i: int| 0 <= i < r.len() && r[i] == list[k];
            assert(steps(r[i]) == path);
        }
    }
}

/// In a list in order a path is behind all that are before it, and the other way
/// round.
pub proof fn lemma_places(list: Seq<Seq<char>>, i: int, j: int)
    requires
        ascending(list),
        0 <= i < list.len(),
        0 <= j < list.len(),
    ensures
        i == j <==> steps(list[i]) == steps(list[j]),
        i < j <==> steps_before(steps(list[i]), steps(list[j])),
{
    lemma_steps_order(steps(list[i]), steps(list[j]));
    if i < j {
        assert(path_before(list[i], list[j]));
    } else if j < i {
        assert(path_before(list[j], list[i]));
    }
}

/// Two lists in order that hold the same paths agree as far as both go.
proof fn lemma_ascending_agree(a: Seq<Seq<char>>, b: Seq<Seq<char>>, n: int)
    requires
        ascending(a),
        ascending(b),
        same_paths(a, b),
        0 <= n <= a.len(),
        n <= b.len(),
    ensures
        forall|i: int| 0 <= i < n ==> steps(#[trigger] a[i]) == steps(b[i]),
    decreases n,
{
    if n > 0 {
        let k = n - 1;
        lemma_ascending_agree(a, b, k);
        assert(holds(a, steps(a[k])));
        assert(holds(b, steps(a[k])));
        assert(holds(b, steps(b[k])));
        assert(holds(a, steps(b[k])));
        let j = choose|j: int| 0 <= j < b.len() && steps(#[trigger] b[j]) == steps(a[k]);
        let i = choose|i: int| 0 <= i < a.len() && steps(#[trigger] a[i]) == steps(b[k]);
        lemma_places(b, j, k);
        lemma_places(a, i, k);
        lemma_steps_order(steps(a[k]), steps(b[k]));
        if j < k {
            assert(steps(a[j]) == steps(b[j]));
            lemma_places(a, j, k);
        } else if i < k {
            assert(steps(a[i]) == steps(b[i]));
            lemma_places(b, i, k);
        }
    }
}

/// Of two lists in order that hold the same paths and agree as far as the first
/// goes, the second is not longer.
proof fn lemma_not_longer(a: Seq<Seq<char>>, b: Seq<Seq<char>>)
    requires
        ascending(b),
        same_paths(a, b),
        a.len() <= b.len(),
        forall|i: int| 0 <= i < a.len() ==> steps(#[trigger] a[i]) == steps(b[i]),
    ensures
        a.len() == b.len(),
{
    let n = a.len() as int;
    if n < b.len() {
        assert(holds(b, steps(b[n])));
        assert(holds(a, steps(b[n])));
        let i = choose|i: int| 0 <= i < a.len() && steps(#[trigger] a[i]) == steps(b[n]);
        lemma_places(b, i, n);
    }
}

/// The order in which paths are found makes no difference: the same paths make
/// the same list.
pub proof fn the_order_of_finding_makes_no_difference(
    r: Seq<Seq<char>>,
    list: Seq<Seq<char>>,
    other_r: Seq<Seq<char>>,
    other: Seq<Seq<char>>,
)
    requires
        is_sorted_set(r, list),
        is_sorted_set(other_r, other),
        same_paths(list, other),
    ensures
        r.len() == other_r.len(),
        forall|i: int| 0 <= i < r.len() ==> steps(#[trigger] r[i]) == steps(other_r[i]),
{
    lemma_sorted_holds(r, list);
    lemma_sorted_holds(other_r, other);
    assert(same_paths(r, other_r)) by {
        assert forall|path: Seq<Step>| #[trigger] holds(r, path) <==> holds(other_r, path) by {
            assert(holds(r, path) <==> holds(list, path));
            assert(holds(list, path) <==> holds(other, path));
            assert(holds(other_r, path) <==> holds(other, path));
        }
    }
    if r.len() <= other_r.len() {
        lemma_ascending_agree(r, other_r, r.len() as int);
        lemma_not_longer(r, other_r);
    } else {
        lemma_ascending_agree(r, other_r, other_r.len() as int);
        assert forall|i: int| 0 <= i < other_r.len() implies steps(#[trigger] other_r[i]) == steps(
            r[i],
        ) by {
            assert(steps(r[i]) == steps(other_r[i]));
        }
        assert(same_paths(other_r, r));
        lemma_not_longer(other_r, r);
    }
}

} // verus!
