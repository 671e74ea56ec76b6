//! Laws of what is kept of a video.

use vstd::prelude::*;

use crate::model::{
    cut_for, cuts, gaps, gaps_before, kept, long_ones, merged, total_length, within, Detection,
    EpisodeTask, Segment, MIN_KEEP_NANOS,
};
use crate::secs::{zero, Secs};

verus! {

/// Whether a moment, in nanoseconds, lies within a detected segment.
pub open spec fn in_segment(s: Option<Segment>, moment: int) -> bool {
    match s {
        Some(s) => s.start.no_later(Secs::Finite(moment as i128)) && Secs::Finite(
            moment as i128,
        ).before(s.end),
        None => false,
    }
}

/// Whether a moment lies within the detected opening or the detected ending.
pub open spec fn detected_at(d: Detection, moment: int) -> bool {
    in_segment(d.opening, moment) || in_segment(d.ending, moment)
}

/// Whether anything of the video, which lasts `end` nanoseconds, is detected.
pub open spec fn detects_something(d: Detection, end: int) -> bool {
    exists|t: int| 0 <= t < end && detected_at(d, t)
}

/// Whether `from .. to` is a stretch without anything detected that ends on
/// both sides at something detected or at an end of the video.
pub open spec fn is_gap(d: Detection, end: int, from: int, to: int) -> bool {
    &&& 0 <= from < to <= end
    &&& forall|t: int| from <= t < to ==> !#[trigger] detected_at(d, t)
    &&& from == 0 || detected_at(d, from - 1)
    &&& to == end || detected_at(d, to)
}

/// Whether a moment lies within one of the segments.
pub open spec fn covered(list: Seq<Segment>, moment: int) -> bool {
    exists|i: int| 0 <= i < list.len() && (#[trigger] list[i]).covers(moment)
}

/// Whether the segments ascend, none touches the next, and all are valid and
/// lie within the video.
pub open spec fn in_order(list: Seq<Segment>, end: int) -> bool {
    &&& forall|i: int|
        0 <= i < list.len() ==> (#[trigger] list[i]).valid() && 0 <= list[i].start.nanos()
            && list[i].end.nanos() <= end
    &&& forall|i: int, j: int|
        0 <= i < j < list.len() ==> (#[trigger] list[i]).end.nanos() < (
        #[trigger] list[j]).start.nanos()
}

/// The cuts, of which there are at most two.
proof fn lemma_cuts(end: i128, d: Detection)
    requires
        end > 0,
    ensures
        ({
            let c = cuts(Secs::Finite(end), d);
            &&& c.len() <= 2
            &&& forall|i: int|
                0 <= i < c.len() ==> (#[trigger] c[i]).valid() && 0 <= c[i].start.nanos()
                    && c[i].end.nanos() <= end
            &&& c.len() == 2 ==> c[0].start.nanos() <= c[1].start.nanos()
            &&& forall|t: int| 0 <= t < end ==> (covered(c, t) <==> #[trigger] detected_at(d, t))
        }),
{
    let dur = Secs::Finite(end);
    let c = cuts(dur, d);
    let a = cut_for(d.opening, dur);
    let b = cut_for(d.ending, dur);
    assert forall|t: int| 0 <= t < end implies (covered(c, t) <==> #[trigger] detected_at(d, t)) by {
        if in_segment(d.opening, t) {
            let i = if c == a + b {
                0int
            } else {
                1int
            };
            assert(within(d.opening->0, dur).covers(t));
            assert(c[i] == within(d.opening->0, dur));
            assert(c[i].covers(t));
        }
        if in_segment(d.ending, t) {
            let i = if c == a + b {
                a.len() as int
            } else {
                0int
            };
            assert(within(d.ending->0, dur).covers(t));
            assert(c[i] == within(d.ending->0, dur));
            assert(c[i].covers(t));
        }
        if covered(c, t) {
            let i = choose|i: int| 0 <= i < c.len() && (#[trigger] c[i]).covers(t);
            assert(a.contains(c[i]) || b.contains(c[i])) by {
                if c == a + b {
                    if i < a.len() {
                        assert(a[i] == c[i]);
                    } else {
                        assert(b[i - a.len()] == c[i]);
                    }
                } else {
                    if i < b.len() {
                        assert(b[i] == c[i]);
                    } else {
                        assert(a[i - b.len()] == c[i]);
                    }
                }
            }
        }
    }
}

/// What one or two merged cuts are, written out.
proof fn lemma_merged(c: Seq<Segment>, end: int)
    requires
        c.len() <= 2,
        forall|i: int|
            0 <= i < c.len() ==> (#[trigger] c[i]).valid() && 0 <= c[i].start.nanos()
                && c[i].end.nanos() <= end,
        c.len() == 2 ==> c[0].start.nanos() <= c[1].start.nanos(),
    ensures
        merged(c).len() <= 2,
        merged(c).len() == 0 <==> c.len() == 0,
        in_order(merged(c), end),
        forall|t: int| covered(merged(c), t) <==> #[trigger] covered(c, t),
{
    let m = merged(c);
    reveal_with_fuel(merged, 3);
    if c.len() == 0 {
        assert(m.len() == 0);
    } else if c.len() == 1 {
        assert(c.drop_last().len() == 0);
        assert(m =~= c);
    } else {
        assert(c.drop_last().drop_last().len() == 0);
        assert(merged(c.drop_last()) =~= seq![c[0]]);
        if c[1].start.no_later(c[0].end) {
            assert(m.len() == 1);
            assert(m[0].start == c[0].start);
        } else {
            assert(m =~= c);
        }
    }
    assert forall|t: int| covered(m, t) <==> #[trigger] covered(c, t) by {
        if covered(m, t) {
            let i = choose|i: int| 0 <= i < m.len() && (#[trigger] m[i]).covers(t);
            if m != c {
                assert(c[0].covers(t) || c[1].covers(t));
            }
        }
        if covered(c, t) {
            let i = choose|i: int| 0 <= i < c.len() && (#[trigger] c[i]).covers(t);
            if m != c {
                assert(m[0].covers(t));
            } else {
                assert(m[i].covers(t));
            }
        }
    }
}

/// What lies outside one or two merged cuts, written out.
proof fn lemma_outside(m: Seq<Segment>, end: i128)
    requires
        end > 0,
        m.len() <= 2,
        in_order(m, end as int),
    ensures
        ({
            let g = gaps(m, Secs::Finite(end));
            &&& in_order(g, end as int)
            &&& forall|t: int| 0 <= t < end ==> (covered(g, t) <==> !#[trigger] covered(m, t))
            &&& forall|i: int|
                0 <= i < g.len() ==> {
                    &&& (#[trigger] g[i]).start.nanos() == 0 || covered(
                        m,
                        g[i].start.nanos() - 1,
                    )
                    &&& g[i].end.nanos() == end || covered(m, g[i].end.nanos())
                }
        }),
{
    let g = gaps(m, Secs::Finite(end));
    reveal_with_fuel(gaps_before, 3);
    if m.len() == 1 {
        assert(m.drop_last().len() == 0);
    } else if m.len() == 2 {
        assert(m.drop_last().drop_last().len() == 0);
        assert(m.drop_last().len() == 1);
    }
    assert forall|t: int| 0 <= t < end implies (covered(g, t) <==> !#[trigger] covered(m, t)) by {
        if covered(g, t) {
            let i = choose|i: int| 0 <= i < g.len() && (#[trigger] g[i]).covers(t);
            assert(!covered(m, t));
        }
        if !covered(m, t) {
            if m.len() == 0 {
                assert(g[0].covers(t));
            } else if m.len() == 1 {
                assert(!m[0].covers(t));
                assert(g.len() > 0);
                assert(g[0].covers(t) || g[g.len() - 1].covers(t));
            } else {
                assert(!m[0].covers(t) && !m[1].covers(t));
                assert(g.len() > 0);
                assert(g[0].covers(t) || (g.len() > 1 && g[1].covers(t)) || g[g.len() - 1].covers(
                    t,
                ));
            }
        }
    }
    assert forall|i: int| 0 <= i < g.len() implies {
        &&& (#[trigger] g[i]).start.nanos() == 0 || covered(m, g[i].start.nanos() - 1)
        &&& g[i].end.nanos() == end || covered(m, g[i].end.nanos())
    } by {
        let s = g[i].start.nanos();
        let e = g[i].end.nanos();
        if m.len() >= 1 {
            if s == m[0].end.nanos() {
                assert(m[0].covers(s - 1));
            }
            if e == m[0].start.nanos() {
                assert(m[0].covers(e));
            }
        }
        if m.len() == 2 {
            if s == m[1].end.nanos() {
                assert(m[1].covers(s - 1));
            }
            if e == m[1].start.nanos() {
                assert(m[1].covers(e));
            }
        }
    }
}

/// What the merged cuts and the gaps between them are, written out.
proof fn lemma_gaps(end: i128, d: Detection)
    requires
        end > 0,
    ensures
        ({
            let c = cuts(Secs::Finite(end), d);
            let m = merged(c);
            let g = gaps(m, Secs::Finite(end));
            &&& in_order(m, end as int)
            &&& in_order(g, end as int)
            &&& m.len() == 0 <==> c.len() == 0
            &&& forall|t: int| covered(m, t) <==> #[trigger] covered(c, t)
            &&& forall|t: int| 0 <= t < end ==> (covered(g, t) <==> !#[trigger] covered(c, t))
            &&& forall|i: int|
                0 <= i < g.len() ==> {
                    &&& (#[trigger] g[i]).start.nanos() == 0 || covered(
                        c,
                        g[i].start.nanos() - 1,
                    )
                    &&& g[i].end.nanos() == end || covered(c, g[i].end.nanos())
                }
        }),
{
    lemma_cuts(end, d);
    let c = cuts(Secs::Finite(end), d);
    let m = merged(c);
    let g = gaps(m, Secs::Finite(end));
    lemma_merged(c, end as int);
    lemma_outside(m, end);
    assert forall|t: int| 0 <= t < end implies (covered(g, t) <==> !#[trigger] covered(c, t)) by {
        assert(covered(m, t) <==> covered(c, t));
    }
    assert forall|i: int| 0 <= i < g.len() implies {
        &&& (#[trigger] g[i]).start.nanos() == 0 || covered(c, g[i].start.nanos() - 1)
        &&& g[i].end.nanos() == end || covered(c, g[i].end.nanos())
    } by {
        assert(covered(m, g[i].start.nanos() - 1) <==> covered(c, g[i].start.nanos() - 1));
        assert(covered(m, g[i].end.nanos()) <==> covered(c, g[i].end.nanos()));
    }
}

/// Dropping the short ones leaves a part of the list, in its order.
proof fn lemma_long_ones(list: Seq<Segment>, end: int) -> (at: Seq<int>)
    requires
        in_order(list, end),
    ensures
        at.len() == long_ones(list).len(),
        forall|i: int|
            0 <= i < at.len() ==> 0 <= #[trigger] at[i] < list.len() && long_ones(list)[i]
                == list[at[i]],
        forall|i: int, j: int| 0 <= i < j < at.len() ==> #[trigger] at[i] < #[trigger] at[j],
        forall|i: int|
            0 <= i < long_ones(list).len() ==> (#[trigger] long_ones(list)[i]).end.nanos()
                - long_ones(list)[i].start.nanos() >= MIN_KEEP_NANOS,
        forall|k: int|
            0 <= k < list.len() && (#[trigger] list[k]).end.nanos() - list[k].start.nanos()
                >= MIN_KEEP_NANOS ==> exists|i: int| 0 <= i < at.len() && #[trigger] at[i] == k,
    decreases list.len(),
{
    if list.len() == 0 {
        Seq::empty()
    } else {
        let front = list.drop_last();
        assert(in_order(front, end)) by {
            assert(forall|i: int| 0 <= i < front.len() ==> #[trigger] front[i] == list[i]);
        }
        let rest = lemma_long_ones(front, end);
        assert(list[list.len() - 1].valid());
        if !list.last().length().before(Secs::Finite(MIN_KEEP_NANOS)) {
            let at = rest.push(list.len() - 1);
            assert forall|k: int|
                0 <= k < list.len() && (#[trigger] list[k]).end.nanos() - list[k].start.nanos()
                    >= MIN_KEEP_NANOS implies exists|i: int|
                0 <= i < at.len() && #[trigger] at[i] == k by {
                if k < front.len() {
                    assert(front[k] == list[k]);
                    let i = choose|i: int| 0 <= i < rest.len() && #[trigger] rest[i] == k;
                    assert(at[i] == k);
                } else {
                    assert(at[rest.len() as int] == k);
                }
            }
            at
        } else {
            assert forall|k: int|
                0 <= k < list.len() && (#[trigger] list[k]).end.nanos() - list[k].start.nanos()
                    >= MIN_KEEP_NANOS implies exists|i: int|
                0 <= i < rest.len() && #[trigger] rest[i] == k by {
                assert(k < front.len());
                assert(front[k] == list[k]);
            }
            rest
        }
    }
}

/// What is kept ascends, no piece touches the next, and every piece is a valid
/// segment within the video.
pub proof fn kept_segments_are_in_order(end: i128, d: Detection)
    ensures
        in_order(kept(Secs::Finite(end), d), end as int),
{
    if end > 0 {
        lemma_gaps(end, d);
        let g = gaps(merged(cuts(Secs::Finite(end), d)), Secs::Finite(end));
        let at = lemma_long_ones(g, end as int);
        if cuts(Secs::Finite(end), d).len() > 0 {
            let k = kept(Secs::Finite(end), d);
            assert forall|i: int, j: int| 0 <= i < j < k.len() implies (
            #[trigger] k[i]).end.nanos() < (#[trigger] k[j]).start.nanos() by {
                assert(at[i] < at[j]);
                assert(k[i] == g[at[i]] && k[j] == g[at[j]]);
            }
            assert forall|i: int| 0 <= i < k.len() implies (#[trigger] k[i]).valid() && 0
                <= k[i].start.nanos() && k[i].end.nanos() <= end by {
                assert(k[i] == g[at[i]]);
            }
        }
    }
}

/// Where nothing of the video is detected, the whole video is kept.
pub proof fn without_detection_all_is_kept(end: i128, d: Detection)
    requires
        end > 0,
        !detects_something(d, end as int),
    ensures
        kept(Secs::Finite(end), d) == seq![Segment { start: zero(), end: Secs::Finite(end) }],
{
    lemma_cuts(end, d);
    let c = cuts(Secs::Finite(end), d);
    if c.len() > 0 {
        let t = c[0].start.nanos();
        assert(c[0].covers(t));
        assert(covered(c, t));
        assert(detected_at(d, t));
    }
}

/// Where something is detected, just those moments of the video are kept that
/// lie in a gap of half a second or more between what is detected. So nothing
/// detected is kept, and nothing else is lost but such short gaps.
pub proof fn kept_is_what_was_not_detected(end: i128, d: Detection, moment: int)
    requires
        detects_something(d, end as int),
        0 <= moment < end,
    ensures
        covered(kept(Secs::Finite(end), d), moment) <==> exists|from: int, to: int|
            #[trigger] is_gap(d, end as int, from, to) && from <= moment < to && to - from
                >= 500_000_000,
        !detected_at(d, moment) ==> exists|from: int, to: int|
            #[trigger] is_gap(d, end as int, from, to) && from <= moment < to,
{
    let dur = Secs::Finite(end);
    lemma_cuts(end, d);
    lemma_gaps(end, d);
    let c = cuts(dur, d);
    let g = gaps(merged(c), dur);
    let k = kept(dur, d);
    let at = lemma_long_ones(g, end as int);
    let seen = choose|t: int| 0 <= t < end && detected_at(d, t);
    assert(covered(c, seen));
    assert(c.len() > 0);
    assert(k == long_ones(g));
    assert forall|i: int| 0 <= i < g.len() implies is_gap(
        d,
        end as int,
        (#[trigger] g[i]).start.nanos(),
        g[i].end.nanos(),
    ) by {
        let from = g[i].start.nanos();
        let to = g[i].end.nanos();
        assert forall|t: int| from <= t < to implies !#[trigger] detected_at(d, t) by {
            assert(g[i].covers(t));
            assert(covered(g, t));
            assert(covered(c, t) <==> detected_at(d, t));
        }
        if from > 0 {
            assert(covered(c, from - 1) <==> detected_at(d, from - 1));
        }
        if to < end {
            assert(covered(c, to) <==> detected_at(d, to));
        }
    }
    if covered(k, moment) {
        let i = choose|i: int| 0 <= i < k.len() && (#[trigger] k[i]).covers(moment);
        assert(k[i] == g[at[i]]);
        assert(is_gap(d, end as int, g[at[i]].start.nanos(), g[at[i]].end.nanos()));
    }
    assert(covered(c, moment) <==> detected_at(d, moment));
    if !detected_at(d, moment) {
        assert(covered(g, moment));
        let i = choose|i: int| 0 <= i < g.len() && (#[trigger] g[i]).covers(moment);
        assert(is_gap(d, end as int, g[i].start.nanos(), g[i].end.nanos()));
        if exists|from: int, to: int| #[trigger]
            is_gap(d, end as int, from, to) && from <= moment < to && to - from >= MIN_KEEP_NANOS {
            let (from, to) = choose|from: int, to: int| #[trigger]
                is_gap(d, end as int, from, to) && from <= moment < to && to - from
                    >= MIN_KEEP_NANOS;
            let a = g[i].start.nanos();
            let b = g[i].end.nanos();
            assert(from == a) by {
                if from < a {
                    assert(detected_at(d, a - 1));
                } else if a < from {
                    assert(detected_at(d, from - 1));
                }
            }
            assert(to == b) by {
                if to < b {
                    assert(detected_at(d, to));
                } else if b < to {
                    assert(detected_at(d, b));
                }
            }
            let n = choose|n: int| 0 <= n < at.len() && #[trigger] at[n] == i;
            assert(k[n] == g[i]);
            assert(k[n].covers(moment));
        }
    } else {
        assert(forall|from: int, to: int| #[trigger]
            is_gap(d, end as int, from, to) ==> !(from <= moment < to));
    }
}

/// No piece that is shorter than half a second is kept where something is cut.
pub proof fn kept_segments_are_long(end: i128, d: Detection, i: int)
    requires
        detects_something(d, end as int),
        0 <= i < kept(Secs::Finite(end), d).len(),
    ensures
        kept(Secs::Finite(end), d)[i].end.nanos() - kept(Secs::Finite(end), d)[i].start.nanos()
            >= 500_000_000,
{
    let t = choose|t: int| 0 <= t < end && detected_at(d, t);
    lemma_cuts(end, d);
    lemma_gaps(end, d);
    assert(covered(cuts(Secs::Finite(end), d), t));
    let _at = lemma_long_ones(
        gaps(merged(cuts(Secs::Finite(end), d)), Secs::Finite(end)),
        end as int,
    );
}

/// Segments in order are together longer than nothing, and no longer than the
/// stretch up to the last end.
pub proof fn lemma_total(list: Seq<Segment>, end: int)
    requires
        in_order(list, end),
        0 <= end <= i128::MAX,
    ensures
        total_length(list).finite(),
        0 <= total_length(list).nanos() <= end,
        list.len() > 0 ==> 0 < total_length(list).nanos() <= list.last().end.nanos(),
    decreases list.len(),
{
    if list.len() > 0 {
        let front = list.drop_last();
        assert(forall|i: int| 0 <= i < front.len() ==> #[trigger] front[i] == list[i]);
        lemma_total(front, end);
        assert(list[list.len() - 1].valid());
        if front.len() > 0 {
            assert(list[list.len() - 2].end.nanos() < list[list.len() - 1].start.nanos());
        } else {
            assert(total_length(front) == zero());
        }
    }
}

/// Segments in order that leave out a moment are together shorter than the video.
proof fn lemma_total_without(list: Seq<Segment>, end: int, moment: int)
    requires
        in_order(list, end),
        0 <= moment < end <= i128::MAX,
        !covered(list, moment),
    ensures
        total_length(list).finite(),
        total_length(list).nanos() < end,
{
    lemma_total(list, end);
    if list.len() > 0 {
        let last = list[list.len() - 1];
        assert(last.valid());
        assert(!last.covers(moment));
        if moment < last.end.nanos() {
            let front = list.drop_last();
            assert(forall|i: int| 0 <= i < front.len() ==> #[trigger] front[i] == list[i]);
            lemma_total(front, end);
            if front.len() > 0 {
                assert(list[list.len() - 2].end.nanos() < last.start.nanos());
            } else {
                assert(total_length(front) == zero());
            }
        }
    }
}

/// Something is cut away of a video just where something of it is detected.
pub proof fn something_is_removed_where_something_is_detected(end: i128, d: Detection)
    requires
        end > 0,
    ensures
        total_length(kept(Secs::Finite(end), d)).finite(),
        total_length(kept(Secs::Finite(end), d)).nanos() < end <==> detects_something(
            d,
            end as int,
        ),
{
    let k = kept(Secs::Finite(end), d);
    kept_segments_are_in_order(end, d);
    lemma_total(k, end as int);
    if detects_something(d, end as int) {
        let t = choose|t: int| 0 <= t < end && detected_at(d, t);
        kept_is_what_was_not_detected(end, d, t);
        lemma_total_without(k, end as int, t);
    } else {
        without_detection_all_is_kept(end, d);
        assert(k.drop_last() =~= Seq::<Segment>::empty());
        assert(total_length(k.drop_last()) == zero());
    }
}

/// What is kept and what is cut away make up the whole video.
pub proof fn kept_and_removed_make_the_whole(task: EpisodeTask)
    requires
        task.file.duration_secs matches Some(t) && t.finite() && t.nanos() >= 0,
        task.keep@ == kept(task.file.duration_secs->0, task.detection),
    ensures
        task.kept_spec() is Some,
        task.removed_spec() is Some,
        task.kept_spec()->0.plus_spec(task.removed_spec()->0) == task.file.duration_secs->0,
{
    let end = task.file.duration_secs->0->Finite_0;
    kept_segments_are_in_order(end, task.detection);
    lemma_total(task.keep@, end as int);
}

/// Of a video whose length is not a finite number above zero nothing is kept.
pub proof fn without_a_length_nothing_is_kept(length: Secs, d: Detection)
    requires
        !(length matches Secs::Finite(n) && n > 0),
    ensures
        kept(length, d).len() == 0,
{
}

} // verus!
