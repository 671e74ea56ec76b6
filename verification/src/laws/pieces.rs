//! Laws of what ffmpeg is told: which part of the input goes where.

use vstd::arithmetic::power::*;
use vstd::prelude::*;

use crate::binary::{
    binary, lemma_grown, lemma_grown_bound, lemma_limits, lemma_nearest, lemma_shrunk, scaled_by,
    seconds, Binary,
};
use crate::cut::job::{Act, CutAction, CutEvent, CutJob, CutPhase, CutStep, Event, Plan};
use crate::cut::{
    codec_args, cut_args, frame_args, join_args, list_line, opening_args, seconds_arg, CutMode,
};
use crate::exec::Words;
use crate::laws::cut::{ran_well, run};
use crate::laws::times::{lemma_decimal, lemma_padded};
use crate::model::Segment;
use crate::numbers::{all_digits, nearest, value};
use crate::paths::{extension_of, joined_path};
use crate::secs::{zero, Secs};
use crate::text::{padded, replaced, texts};

verus! {

/// Whether a text is a number of seconds with three decimal places that makes so
/// many milliseconds.
pub open spec fn says_millis(s: Seq<char>, ms: nat) -> bool {
    exists|whole: Seq<char>, part: Seq<char>| #[trigger]
        (whole + seq!['.'] + part) == s && whole.len() > 0 && all_digits(whole) && part.len() == 3
            && all_digits(part) && value(whole) * 1000 + value(part) == ms
}

/// Whether a text says a time, to the nearest millisecond.
pub open spec fn says_time(s: Seq<char>, nanos: int) -> bool {
    exists|ms: nat| #[trigger] says_millis(s, ms) && -500_001 <= ms * 1_000_000 - nanos <= 500_001
}

/// A time below that many nanoseconds, some hundred days, has all of them in the
/// digits that 64 bits hold.
pub const EXACT_NANOS: u64 = 9_007_199_254_740_992;

/// The digits of seconds are those of the time, to a nanosecond.
pub proof fn lemma_seconds_near(n: nat)
    requires
        0 < n < EXACT_NANOS,
    ensures
        ({
            let b = scaled_by(seconds(n), 1, 1);
            let den = b.den() as int;
            let num = b.num() as int;
            &&& den > 0
            &&& -den <= num * 1_000_000_000 - n * den <= den
        }),
{
    lemma_limits();
    lemma_pow0(2);
    let a = seconds(n);
    lemma_grown(n, 1_000_000_000, 53);
    lemma_grown_bound(n, 1_000_000_000, 53);
    let k = (-a.e) as nat;
    let p = pow(2, k);
    let m = a.m as int;
    let top = pow(2, 53);
    assert(p >= 500_000_000) by (nonlinear_arith)
        requires
            2 * (n * p) >= 1_000_000_000 * 9_007_199_254_740_992,
            0 < n < 9_007_199_254_740_992,
    ;
    assert(2 * m >= top) by (nonlinear_arith)
        requires
            2 * (n * p) >= 1_000_000_000 * top,
            2 * (m * 1_000_000_000 - n * p) >= -1_000_000_000,
            top == 9_007_199_254_740_992,
    ;
    let b = binary(a.m * 1, 1, 53);
    lemma_shrunk(a.m, 1, 53);
    let s = b.e as nat;
    let q = pow(2, s);
    assert(q <= 2) by (nonlinear_arith)
        requires
            (1 * q) * top <= 2 * m,
            m <= top,
            top == 9_007_199_254_740_992,
    ;
    assert(s <= 1) by {
        if s >= 2 {
            lemma_pow_increases(2, 2, s);
            reveal_with_fuel(pow, 3);
        }
    }
    reveal_with_fuel(pow, 3);
    assert(q == 1 || q == 2);
    assert(1 * q == q);
    assert(b.m * q == m) by {
        let y = b.m as int;
        assert(y * (1 * q) == y * q);
        assert(q == 1 ==> y * q == y) by (nonlinear_arith);
        assert(q == 2 ==> y * q == 2 * y) by (nonlinear_arith);
        if q == 2 {
            assert(m == top) by (nonlinear_arith)
                requires
                    (1 * q) * top <= 2 * m,
                    q == 2,
                    m <= top,
            ;
            assert(top == 2 * 4_503_599_627_370_496);
        }
    }
    assert(k >= 2) by {
        if k < 2 {
            assert(p <= 2);
        }
    }
    let r = scaled_by(a, 1, 1);
    assert(r == (Binary { m: b.m, e: s - k }));
    let d = pow(2, (k - s) as nat);
    lemma_pow_adds(2, (k - s) as nat, s);
    lemma_pow_positive(2, (k - s) as nat);
    assert(r.num() == b.m && r.den() == d);
    assert(p == d * q);
    let x = b.m as int;
    let big = 1_000_000_000int;
    assert((x * big - n * d) * q == m * big - n * p) by (nonlinear_arith)
        requires
            x * q == m,
            p == d * q,
    ;
    assert(-d <= x * big - n * d <= d) by (nonlinear_arith)
        requires
            -big <= 2 * ((x * big - n * d) * q) <= big,
            d * q >= 500_000_000,
            q == 1 || q == 2,
            big == 1_000_000_000,
    ;
}

/// A time is told to ffmpeg in seconds, to the nearest millisecond.
pub proof fn times_are_told_to_the_millisecond(n: i128)
    requires
        0 <= n < EXACT_NANOS,
    ensures
        says_time(seconds_arg(Secs::Finite(n)), n as int),
{
    let b = scaled_by(seconds(n as nat), 1, 1);
    let num = b.num() as int;
    let den = b.den() as int;
    let t = nearest((num * 1000) as nat, den as nat);
    if n == 0 {
        lemma_pow0(2);
        lemma_limits();
        assert(seconds(0) == (Binary { m: 0, e: 0 }));
        assert(b == (Binary { m: 0, e: 0 }));
        assert(t == 0);
    } else {
        lemma_seconds_near(n as nat);
        lemma_nearest((num * 1000) as nat, den as nat);
        assert(-500_001 <= t * 1_000_000 - n <= 500_001) by (nonlinear_arith)
            requires
                -den <= 2 * (t * den - num * 1000) <= den,
                -den <= num * 1_000_000_000 - n * den <= den,
                den > 0,
        ;
    }
    assert(pow(10, 3) == 1000) by {
        reveal_with_fuel(pow, 4);
    }
    let whole = crate::text::decimal(t / 1000);
    let part = padded(t % 1000, 3);
    lemma_decimal(t / 1000);
    lemma_padded(t % 1000, 3);
    reveal_strlit(".");
    assert("."@ =~= seq!['.']);
    let s = seconds_arg(Secs::Finite(n));
    assert(s == whole + seq!['.'] + part);
    assert(says_millis(s, t));
}

/// Whether an option is given at the place: its name, and its value behind it. The
/// last of the arguments is none, for that is what is written to.
pub open spec fn option_at(args: Seq<Seq<char>>, at: int, name: Seq<char>, given: Seq<char>) -> bool {
    &&& 0 <= at < args.len() - 2
    &&& args[at] == name
    &&& args[at + 1] == given
}

/// Whether the arguments make ffmpeg write the stretch of the input to the output:
/// it goes to the start before the input is opened, and stops after the length.
pub open spec fn cuts_out(
    args: Seq<Seq<char>>,
    input: Seq<char>,
    from: int,
    length: int,
    output: Seq<char>,
) -> bool {
    exists|a: int, b: int, c: int|
        0 <= a && a + 1 < b && b + 1 < c && #[trigger] option_at(args, a, "-ss"@, args[a + 1])
            && says_time(args[a + 1], from) && #[trigger] option_at(args, b, "-i"@, input)
            && #[trigger] option_at(args, c, "-t"@, args[c + 1]) && says_time(args[c + 1], length)
            && args.last() == output
}

/// Whether an argument is none of those that choose what of the input is taken.
pub open spec fn chooses_nothing(word: Seq<char>) -> bool {
    word != "-ss"@ && word != "-t"@ && word != "-i"@ && word != "-to"@
}

/// The ends of a segment that ffmpeg can be told exactly.
pub open spec fn tellable(s: Segment) -> bool {
    &&& s.start.finite() && s.end.finite()
    &&& 0 <= s.start.nanos() <= s.end.nanos() < EXACT_NANOS
}

/// A cut takes just the segment: ffmpeg is told where it starts and how long it
/// is, of which input, and where to write it to. Nothing else that it is told
/// chooses anything, all streams are taken along, and what is fast is copied.
pub proof fn cuts_take_their_segment(
    input: Seq<char>,
    output: Seq<char>,
    seg: Segment,
    mode: CutMode,
    overwrite: bool,
)
    requires
        tellable(seg),
    ensures
        ({
            let args = cut_args(input, output, seg, mode, overwrite);
            let n = args.len() as int;
            &&& cuts_out(
                args,
                input,
                seg.start.nanos(),
                seg.end.nanos() - seg.start.nanos(),
                output,
            )
            &&& forall|i: int|
                0 <= i < n - 1 && i != 7 && i != 8 && i != 9 && i != 10 && i != 11 && i != 12
                    ==> chooses_nothing(#[trigger] args[i])
            &&& exists|i: int| #[trigger] option_at(args, i, "-map"@, "0"@)
            &&& mode is Fast ==> exists|i: int| #[trigger] option_at(args, i, "-c"@, "copy"@)
            &&& mode is Precise ==> exists|i: int| #[trigger]
                option_at(args, i, "-c:v"@, "libx264"@)
            &&& args[n - 2] == (if overwrite {
                "-y"@
            } else {
                "-n"@
            })
        }),
{
    let args = cut_args(input, output, seg, mode, overwrite);
    let n = args.len() as int;
    let start = seg.start->Finite_0;
    let end = seg.end->Finite_0;
    times_are_told_to_the_millisecond(start);
    times_are_told_to_the_millisecond((end - start) as i128);
    assert(seg.length() == Secs::Finite((end - start) as i128));
    assert(option_at(args, 7, "-ss"@, args[8]));
    assert(option_at(args, 9, "-i"@, input));
    assert(option_at(args, 11, "-t"@, args[12]));
    assert(option_at(args, 13, "-map"@, "0"@));
    if mode is Fast {
        assert(option_at(args, 15, "-c"@, "copy"@));
    } else {
        assert(option_at(args, 15, "-c:v"@, "libx264"@));
    }
    lemma_choose_nothing(input, output, seg, mode, overwrite);
}

proof fn lemma_choose_nothing(
    input: Seq<char>,
    output: Seq<char>,
    seg: Segment,
    mode: CutMode,
    overwrite: bool,
)
    ensures
        ({
            let args = cut_args(input, output, seg, mode, overwrite);
            let n = args.len() as int;
            forall|i: int|
                0 <= i < n - 1 && i != 7 && i != 8 && i != 9 && i != 10 && i != 11 && i != 12
                    ==> chooses_nothing(#[trigger] args[i])
        }),
{
    reveal_strlit("-ss");
    reveal_strlit("-t");
    reveal_strlit("-i");
    reveal_strlit("-to");
    reveal_strlit("-hide_banner");
    reveal_strlit("-nostdin");
    reveal_strlit("-nostats");
    reveal_strlit("-loglevel");
    reveal_strlit("info");
    reveal_strlit("-progress");
    reveal_strlit("pipe:1");
    reveal_strlit("-map");
    reveal_strlit("0");
    reveal_strlit("-c");
    reveal_strlit("copy");
    reveal_strlit("-c:v");
    reveal_strlit("libx264");
    reveal_strlit("-crf");
    reveal_strlit("18");
    reveal_strlit("-preset");
    reveal_strlit("medium");
    reveal_strlit("-pix_fmt");
    reveal_strlit("yuv420p");
    reveal_strlit("-c:a");
    reveal_strlit("aac");
    reveal_strlit("-b:a");
    reveal_strlit("192k");
    reveal_strlit("-c:s");
    reveal_strlit("-avoid_negative_ts");
    reveal_strlit("make_zero");
    reveal_strlit("-y");
    reveal_strlit("-n");
    let args = cut_args(input, output, seg, mode, overwrite);
    let n = args.len() as int;
    let codec = codec_args(mode);
    assert forall|i: int|
        0 <= i < n - 1 && i != 7 && i != 8 && i != 9 && i != 10 && i != 11 && i != 12 implies
        chooses_nothing(#[trigger] args[i]) by {
        let w = args[i];
        if i < 7 {
            assert(w == opening_args()[i]);
            assert(i == 0 || i == 1 || i == 2 || i == 3 || i == 4 || i == 5 || i == 6);
        } else if i == 13 {
            assert(w == "-map"@);
        } else if i == 14 {
            assert(w == "0"@);
        } else if i < 15 + codec.len() {
            let j = i - 15;
            assert(w == codec[j]);
            if mode is Fast {
                assert(j == 0 || j == 1);
            } else {
                assert(j == 0 || j == 1 || j == 2 || j == 3 || j == 4 || j == 5 || j == 6 || j
                    == 7 || j == 8 || j == 9 || j == 10 || j == 11 || j == 12 || j == 13);
            }
        } else {
            let j = i - 15 - codec.len();
            assert(j == 0 || j == 1 || j == 2);
            assert(w == "-avoid_negative_ts"@ || w == "make_zero"@ || w == "-y"@ || w == "-n"@);
        }
        lemma_word(w);
    }
}

/// What is longer than the options that choose, begins otherwise, or is another
/// letter, is none of them.
proof fn lemma_word(w: Seq<char>)
    requires
        w.len() > 3 || w[0] != '-' || (w.len() == 2 && w[1] != 't' && w[1] != 'i'),
    ensures
        chooses_nothing(w),
{
    reveal_strlit("-ss");
    reveal_strlit("-t");
    reveal_strlit("-i");
    reveal_strlit("-to");
    assert("-ss"@[0] == '-' && "-t"@[0] == '-' && "-i"@[0] == '-' && "-to"@[0] == '-');
    assert("-t"@[1] == 't' && "-i"@[1] == 'i');
}

/// The move of a job that has several pieces, after the directory for them was
/// made and the first `i` of them were cut well.
spec fn after_pieces(plan: Plan, events: Seq<Event>, i: nat) -> crate::cut::job::Move {
    run(plan, plan.start(), events.take(i as int + 1))
}

/// Where the program that is run writes to: its last argument says so.
pub open spec fn written_by(act: Act) -> Seq<char> {
    act->Run_0.args.last()
}

/// Whether a job has several pieces, all that it was told is that things went
/// well, and it was told so of the directory and of the first `i` pieces.
pub open spec fn goes_well(plan: Plan, events: Seq<Event>, i: nat) -> bool {
    &&& plan.keep.len() >= 2
    &&& !plan.total().no_later(zero())
    &&& i <= plan.keep.len()
    &&& events.len() > i
    &&& events[0] is Done
    &&& forall|k: int| 1 <= k <= i ==> ran_well(#[trigger] events[k])
}

proof fn lemma_one_more(plan: Plan, m: crate::cut::job::Move, events: Seq<Event>)
    requires
        events.len() > 0,
    ensures
        run(plan, m, events) == plan.next(
            run(plan, m, events.drop_last()).phase,
            events.last(),
        ),
    decreases events.len(),
{
    if events.len() == 1 {
        assert(events.drop_last() =~= Seq::<Event>::empty());
        assert(events.drop_first() =~= Seq::<Event>::empty());
        reveal_with_fuel(run, 2);
    } else {
        lemma_one_more(plan, plan.next(m.phase, events[0]), events.drop_first());
        assert(events.drop_first().drop_last() =~= events.drop_last().drop_first());
        assert(events.drop_last()[0] == events[0]);
    }
}

/// After so many pieces the job works on the next one.
proof fn lemma_at_piece(plan: Plan, events: Seq<Event>, i: nat)
    requires
        goes_well(plan, events, i),
        i < plan.keep.len(),
    ensures
        after_pieces(plan, events, i) == plan.start_part(i),
    decreases i,
{
    let all = events.take(i as int + 1);
    lemma_one_more(plan, plan.start(), all);
    assert(all.drop_last() =~= events.take(i as int));
    if i == 0 {
        assert(events.take(0) =~= Seq::<Event>::empty());
        assert(run(plan, plan.start(), events.take(0)) == plan.start());
        assert(all.last() == events[0]);
    } else {
        lemma_at_piece(plan, events, (i - 1) as nat);
        assert(all.last() == events[i as int]);
        assert(ran_well(events[i as int]));
    }
}

/// Of a job with several pieces, the run of ffmpeg that follows on `i` pieces cuts
/// the kept segment number `i` out of the input, and nothing else.
pub proof fn each_piece_is_a_kept_segment(plan: Plan, events: Seq<Event>, i: nat)
    requires
        goes_well(plan, events, i),
        i < plan.keep.len(),
        tellable(plan.keep[i as int]),
    ensures
        ({
            let act = run(plan, plan.start(), events.take(i as int + 1)).act;
            let seg = plan.keep[i as int];
            &&& act is Run
            &&& act->Run_0.program == plan.ffmpeg
            &&& cuts_out(
                act->Run_0.args,
                plan.input,
                seg.start.nanos(),
                seg.end.nanos() - seg.start.nanos(),
                written_by(act),
            )
        }),
{
    lemma_at_piece(plan, events, i);
    cuts_take_their_segment(plan.input, plan.part(i), plan.keep[i as int], plan.mode, true);
}

/// Whether the event is that the piece before the `i`th is there, or, before the
/// first, the directory for the pieces.
pub open spec fn comes_before(phase: CutPhase, event: CutEvent, i: nat) -> bool {
    match (phase, event) {
        (CutPhase::Temp, CutEvent::Done) => i == 0,
        (CutPhase::Part(k), CutEvent::Ran(r)) => i == k + 1 && !r.cancelled && r.status == Some(
            0i32,
        ),
        _ => false,
    }
}

/// Wherever a job stands before a piece, what it runs next cuts that piece's own
/// segment out of its own input, and nothing else: `step` is what follows on the
/// event.
pub proof fn jobs_cut_one_segment_after_the_other(
    job: CutJob,
    event: CutEvent,
    step: CutStep,
    i: nat,
)
    requires
        step.as_move() == job.plan().next(job.phase@, event@),
        comes_before(job.phase, event, i),
        i < job.req.keep@.len(),
        tellable(job.req.keep@[i as int]),
    ensures
        ({
            let seg = job.req.keep@[i as int];
            &&& step.action matches CutAction::Run(c) && c.program@ == job.cutter.ffmpeg@
                && cuts_out(
                texts(c.args@),
                job.req.input@,
                seg.start.nanos(),
                seg.end.nanos() - seg.start.nanos(),
                texts(c.args@).last(),
            )
            &&& step.job.phase matches CutPhase::Part(k) && k == i
        }),
{
    let plan = job.plan();
    let seg = job.req.keep@[i as int];
    assert(plan.next(job.phase@, event@) == plan.start_part(i));
    cuts_take_their_segment(plan.input, plan.part(i), seg, plan.mode, true);
    let act = step.action@;
    assert(act == plan.cut(plan.part(i), i as int, true));
    assert(act->Run_0.args.last() == plan.part(i));
}

/// A job with one piece cuts the kept segment out of the input, right to the
/// output.
pub proof fn one_piece_is_the_kept_segment(plan: Plan)
    requires
        plan.keep.len() == 1,
        !plan.total().no_later(zero()),
        tellable(plan.keep[0]),
    ensures
        ({
            let act = plan.start().act;
            let seg = plan.keep[0];
            &&& act is Run
            &&& act->Run_0.program == plan.ffmpeg
            &&& cuts_out(
                act->Run_0.args,
                plan.input,
                seg.start.nanos(),
                seg.end.nanos() - seg.start.nanos(),
                plan.output,
            )
        }),
{
    cuts_take_their_segment(
        plan.input,
        plan.output,
        plan.keep[0],
        plan.mode,
        plan.overwrite,
    );
}

/// A list for ffmpeg: one line for each file.
pub open spec fn listing(files: Seq<Seq<char>>) -> Seq<char>
    decreases files.len(),
{
    if files.len() == 0 {
        Seq::empty()
    } else {
        listing(files.drop_last()) + list_line(files.last()) + seq!['\n']
    }
}

/// The files that the runs of ffmpeg on the first `n` pieces write to.
pub open spec fn piece_files(plan: Plan, events: Seq<Event>, n: nat) -> Seq<Seq<char>> {
    Seq::new(n, |i: int| written_by(run(plan, plan.start(), events.take(i + 1)).act))
}

proof fn lemma_listing(plan: Plan, events: Seq<Event>, n: nat)
    requires
        goes_well(plan, events, n),
    ensures
        plan.list_text(n) == listing(piece_files(plan, events, n)),
    decreases n,
{
    reveal_strlit("\n");
    assert("\n"@ =~= seq!['\n']);
    if n > 0 {
        let m = (n - 1) as nat;
        lemma_listing(plan, events, m);
        lemma_at_piece(plan, events, m);
        let files = piece_files(plan, events, n);
        assert(files.drop_last() =~= piece_files(plan, events, m));
        lemma_choose_nothing(plan.input, plan.part(m), plan.keep[m as int], plan.mode, true);
        let args = cut_args(plan.input, plan.part(m), plan.keep[m as int], plan.mode, true);
        assert(args.last() == plan.part(m));
        assert(files.last() == plan.part(m));
    }
}

/// When all pieces are cut, the files that they were written to are put on a list,
/// in the order of the kept segments, each once. Then ffmpeg joins what is on that
/// list into the output.
pub proof fn the_pieces_are_joined_in_order(plan: Plan, events: Seq<Event>)
    requires
        goes_well(plan, events, plan.keep.len()),
        events.len() > plan.keep.len() + 1,
        events[plan.keep.len() as int + 1] is Done,
    ensures
        ({
            let n = plan.keep.len() as int;
            let files = piece_files(plan, events, plan.keep.len());
            let list = run(plan, plan.start(), events.take(n + 1)).act;
            let join = run(plan, plan.start(), events.take(n + 2)).act;
            &&& files.len() == plan.keep.len()
            &&& list is Write
            &&& list->text == listing(files)
            &&& join is Run
            &&& join->Run_0.program == plan.ffmpeg
            &&& exists|i: int| #[trigger] option_at(join->Run_0.args, i, "-f"@, "concat"@)
            &&& exists|i: int| #[trigger] option_at(join->Run_0.args, i, "-i"@, list->path)
            &&& exists|i: int| #[trigger] option_at(join->Run_0.args, i, "-c"@, "copy"@)
            &&& join->Run_0.args.last() == plan.output
        }),
{
    lemma_listing(plan, events, plan.keep.len());
    lemma_after_all(plan, events);
    let n = plan.keep.len() as int;
    let list = run(plan, plan.start(), events.take(n + 1)).act;
    let join = run(plan, plan.start(), events.take(n + 2)).act;
    let args = join_args(plan.list(), plan.output);
    assert(join->Run_0.args == args);
    assert(list->path == plan.list());
    assert(list->text == listing(piece_files(plan, events, plan.keep.len())));
    assert(option_at(args, 7, "-f"@, "concat"@));
    assert(option_at(args, 11, "-i"@, plan.list()));
    assert(option_at(args, 13, "-c"@, "copy"@));
    assert(args.last() == plan.output);
}

/// What a job does when all pieces are cut.
proof fn lemma_after_all(plan: Plan, events: Seq<Event>)
    requires
        goes_well(plan, events, plan.keep.len()),
        events.len() > plan.keep.len() + 1,
        events[plan.keep.len() as int + 1] is Done,
    ensures
        ({
            let n = plan.keep.len() as int;
            let list = run(plan, plan.start(), events.take(n + 1)).act;
            let join = run(plan, plan.start(), events.take(n + 2)).act;
            &&& list == Act::Write { path: plan.list(), text: plan.list_text(plan.keep.len()) }
            &&& join == Act::Run(
                Words { program: plan.ffmpeg, args: join_args(plan.list(), plan.output) },
            )
        }),
{
    let n = plan.keep.len() as int;
    lemma_at_piece(plan, events, (n - 1) as nat);
    let upto = events.take(n + 1);
    lemma_one_more(plan, plan.start(), upto);
    assert(upto.drop_last() =~= events.take(n));
    assert(upto.last() == events[n]);
    assert(ran_well(events[n]));
    let more = events.take(n + 2);
    lemma_one_more(plan, plan.start(), more);
    assert(more.drop_last() =~= upto);
    assert(more.last() == events[n + 1]);
}

/// No two pieces are written to the same file.
pub proof fn pieces_have_files_of_their_own(plan: Plan, i: nat, j: nat)
    requires
        plan.part(i) == plan.part(j),
    ensures
        i == j,
{
    let ext = match extension_of(plan.output) {
        Some(e) => e,
        None => "mkv"@,
    };
    reveal_strlit("part_");
    reveal_strlit(".");
    reveal_strlit("/");
    reveal_strlit("\\");
    let a = "part_"@ + padded(i, 3) + "."@ + ext;
    let b = "part_"@ + padded(j, 3) + "."@ + ext;
    lemma_padded(i, 3);
    lemma_padded(j, 3);
    let pa = joined_path(plan.temp, a);
    let pb = joined_path(plan.temp, b);
    assert(a[0] == 'p' && a[1] == 'a' && b[0] == 'p' && b[1] == 'a');
    let from = pa.len() - a.len();
    assert(from == pb.len() - b.len());
    assert(pa.skip(from) =~= a);
    assert(pb.skip(from) =~= b);
    assert(a == b);
    assert(padded(i, 3).len() == padded(j, 3).len());
    assert(a.subrange(5, 5 + padded(i, 3).len() as int) =~= padded(i, 3));
    assert(b.subrange(5, 5 + padded(j, 3).len() as int) =~= padded(j, 3));
}

/// A text as ffmpeg reads it from a list: quotes are not part of it, and within
/// them everything stands for itself; outside them a backslash stands for the
/// character behind it.
pub open spec fn unquoted(s: Seq<char>, within: bool) -> Seq<char>
    decreases s.len(),
{
    if s.len() == 0 {
        s
    } else if s[0] == '\'' {
        unquoted(s.drop_first(), !within)
    } else if !within && s[0] == '\\' && s.len() > 1 {
        seq![s[1]] + unquoted(s.skip(2), within)
    } else {
        seq![s[0]] + unquoted(s.drop_first(), within)
    }
}

proof fn lemma_unquoted(p: Seq<char>, tail: Seq<char>)
    ensures
        unquoted(replaced(p, '\'', "'\\''"@) + tail, true) == p + unquoted(tail, true),
    decreases p.len(),
{
    reveal_strlit("'\\''");
    let quote = "'\\''"@;
    if p.len() == 0 {
        assert(replaced(p, '\'', quote) + tail =~= tail);
        assert(p + unquoted(tail, true) =~= unquoted(tail, true));
    } else {
        let front = p.drop_last();
        let c = p.last();
        let piece = if c == '\'' {
            quote
        } else {
            seq![c]
        };
        let rest = piece + tail;
        assert(replaced(p, '\'', quote) + tail =~= replaced(front, '\'', quote) + rest);
        lemma_unquoted(front, rest);
        assert(unquoted(rest, true) == seq![c] + unquoted(tail, true)) by {
            if c == '\'' {
                let one = rest.drop_first();
                assert(rest[0] == '\'');
                assert(one[0] == '\\' && one[1] == '\'' && one.len() > 1);
                let two = one.skip(2);
                assert(two[0] == '\'');
                assert(two.drop_first() =~= tail);
                assert(unquoted(one, false) == seq!['\''] + unquoted(two, false));
            } else {
                assert(rest.drop_first() =~= tail);
            }
        }
        assert(front + (seq![c] + unquoted(tail, true)) =~= p + unquoted(tail, true));
    }
}

proof fn lemma_slashes(p: Seq<char>)
    ensures
        replaced(p, '\\', "/"@) == p.map_values(
            |c: char|
                if c == '\\' {
                    '/'
                } else {
                    c
                },
        ),
    decreases p.len(),
{
    reveal_strlit("/");
    let f = |c: char|
        if c == '\\' {
            '/'
        } else {
            c
        };
    if p.len() > 0 {
        lemma_slashes(p.drop_last());
        assert(replaced(p, '\\', "/"@) =~= p.map_values(f));
    } else {
        assert(replaced(p, '\\', "/"@) =~= p.map_values(f));
    }
}

/// A line of the list is read by ffmpeg as the path that it was made of, with `/`
/// in place of every `\`, whatever quotes are in it.
pub proof fn listed_paths_are_read_as_they_are(path: Seq<char>)
    ensures
        list_line(path).take(5) == seq!['f', 'i', 'l', 'e', ' '],
        unquoted(list_line(path).skip(5), false) == path.map_values(
            |c: char|
                if c == '\\' {
                    '/'
                } else {
                    c
                },
        ),
{
    reveal_strlit("file '");
    reveal_strlit("'");
    lemma_slashes(path);
    let p = replaced(path, '\\', "/"@);
    let tail = "'"@;
    let line = list_line(path);
    assert(line.take(5) =~= seq!['f', 'i', 'l', 'e', ' ']);
    let behind = line.skip(5);
    let body = replaced(p, '\'', "'\\''"@) + tail;
    assert(behind[0] == '\'');
    assert(behind.drop_first() =~= body);
    lemma_unquoted(p, tail);
    assert(tail.drop_first() =~= Seq::<char>::empty());
    assert(unquoted(tail, true) == unquoted(tail.drop_first(), false));
    assert(unquoted(tail, true) =~= Seq::<char>::empty());
    assert(p + Seq::<char>::empty() =~= p);
}

/// A picture shows the moment that it is asked of, and is written where it is
/// wanted. A moment before the beginning is the beginning.
pub proof fn pictures_show_their_moment(video: Seq<char>, at: i128, png: Seq<char>)
    requires
        at < EXACT_NANOS,
    ensures
        ({
            let args = frame_args(video, Secs::Finite(at), png);
            let moment = if at > 0 {
                at as int
            } else {
                0
            };
            &&& exists|a: int, b: int|
                a + 1 < b && #[trigger] option_at(args, a, "-i"@, video) && #[trigger] option_at(
                    args,
                    b,
                    "-ss"@,
                    args[b + 1],
                ) && says_time(args[b + 1], moment)
            &&& exists|i: int| #[trigger] option_at(args, i, "-frames:v"@, "1"@)
            &&& args.last() == png
        }),
{
    let args = frame_args(video, Secs::Finite(at), png);
    times_are_told_to_the_millisecond(
        if at > 0 {
            at
        } else {
            0
        },
    );
    assert(option_at(args, 4, "-i"@, video));
    assert(option_at(args, 6, "-ss"@, args[7]));
    assert(option_at(args, 8, "-frames:v"@, "1"@));
}

} // verus!
