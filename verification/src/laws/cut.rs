//! Laws of cutting one video, and of cutting many.

use vstd::prelude::*;

use crate::cut::job::{awaits, finish, Act, Event, Made, Move, Phase, Plan};
use crate::cut::{cut_args, join_args, same_file_spec};
use crate::error::Fault;
use crate::paths::parent_of;
use crate::pipeline::{unready_count, CutBatch};
use crate::secs::zero;

verus! {

/// Where the output would be the input nothing is done at all: the request is
/// refused before anything else happens.
pub proof fn the_input_is_never_cut_onto_itself(
    plan: Plan,
    input_real: Option<Seq<char>>,
    output_real: Option<Seq<char>>,
    output_exists: bool,
)
    requires
        same_file_spec(plan.input, plan.output, input_real, output_real),
    ensures
        plan.begin(input_real, output_real, output_exists) == finish(
            Err(
                if plan.keep.len() == 0 {
                    Fault::NothingToKeep(plan.input)
                } else {
                    Fault::OutputEqualsInput(plan.input)
                },
            ),
        ),
{
}

/// Without leave to replace it, an output that is there already is not touched:
/// the request is refused before anything else happens.
pub proof fn an_output_is_not_replaced_without_leave(
    plan: Plan,
    input_real: Option<Seq<char>>,
    output_real: Option<Seq<char>>,
)
    requires
        !plan.overwrite,
    ensures
        plan.begin(input_real, output_real, true).act is Finish,
        plan.begin(input_real, output_real, true).act->Finish_0 is Err,
{
}

/// Whether an action changes nothing but the output, the directory for it, and
/// the directory with the pieces.
pub open spec fn keeps_to_outputs(plan: Plan, act: Act) -> bool {
    match act {
        Act::MakeDir(d) => d == plan.temp || parent_of(plan.output) == Some(d),
        Act::Run(w) => w.program == plan.ffmpeg && w.args.len() > 0 && (w.args.last()
            == plan.output || exists|i: nat|
            i < plan.keep.len() && w.args.last() == #[trigger] plan.part(i)),
        Act::Write { path, text } => path == plan.list(),
        Act::RemoveFile(p) => p == plan.output,
        Act::RemoveDir(d) => d == plan.temp,
        Act::Finish(_) => true,
    }
}

/// A job never acts on anything but the output and the pieces: what ffmpeg writes
/// to is the last of its arguments.
pub proof fn jobs_keep_to_outputs(plan: Plan, phase: Phase, event: Event)
    requires
        plan.can_be_in(phase),
        awaits(phase, event),
    ensures
        keeps_to_outputs(plan, plan.next(phase, event).act),
{
    lemma_start_keeps(plan);
    assert(join_args(plan.list(), plan.output).last() == plan.output);
    match phase {
        Phase::Temp => {
            lemma_part_keeps(plan, 0);
        },
        Phase::Part(i) => {
            if i + 1 < plan.keep.len() {
                lemma_part_keeps(plan, i + 1);
            }
        },
        _ => {},
    }
}

/// Nor does its first move.
pub proof fn jobs_begin_with_outputs(
    plan: Plan,
    input_real: Option<Seq<char>>,
    output_real: Option<Seq<char>>,
    output_exists: bool,
)
    ensures
        keeps_to_outputs(plan, plan.begin(input_real, output_real, output_exists).act),
{
    if plan.keep.len() > 0 {
        lemma_start_keeps(plan);
    }
}

proof fn lemma_start_keeps(plan: Plan)
    requires
        plan.keep.len() > 0,
    ensures
        keeps_to_outputs(plan, plan.start().act),
{
    let args = cut_args(plan.input, plan.output, plan.keep[0], plan.mode, plan.overwrite);
    assert(args.last() == plan.output);
}

proof fn lemma_part_keeps(plan: Plan, i: nat)
    requires
        i < plan.keep.len(),
    ensures
        keeps_to_outputs(plan, plan.start_part(i).act),
{
    let args = cut_args(plan.input, plan.part(i), plan.keep[i as int], plan.mode, true);
    assert(args.last() == plan.part(i));
}

/// How many moves a job has left at most.
pub open spec fn moves_left(plan: Plan, phase: Phase) -> int {
    match phase {
        Phase::Parent => plan.keep.len() as int + 6,
        Phase::Temp => plan.keep.len() as int + 5,
        Phase::Part(i) => plan.keep.len() - i + 4,
        Phase::List => 4,
        Phase::Join => 3,
        Phase::Single => 3,
        Phase::DropOutput { .. } => 2,
        Phase::DropTemp { .. } => 1,
        Phase::Over => 0,
    }
}

/// Every job comes to an end: each move leaves fewer.
pub proof fn jobs_come_to_an_end(plan: Plan, phase: Phase, event: Event)
    requires
        plan.can_be_in(phase),
        awaits(phase, event),
    ensures
        0 <= moves_left(plan, plan.next(phase, event).phase) < moves_left(plan, phase),
{
}

/// Whether the directory with the pieces is there.
pub open spec fn has_pieces(phase: Phase) -> bool {
    match phase {
        Phase::Part(_) | Phase::List | Phase::Join => true,
        Phase::DropOutput { temp, .. } => temp,
        _ => false,
    }
}

/// The directory with the pieces does not outlast the job: whatever happens, the
/// job goes on until that directory is being removed, and only then ends.
pub proof fn pieces_are_always_removed(plan: Plan, phase: Phase, event: Event)
    requires
        plan.can_be_in(phase),
        awaits(phase, event),
        has_pieces(phase),
    ensures
        ({
            let m = plan.next(phase, event);
            has_pieces(m.phase) || (m.phase is DropTemp && m.act == Act::RemoveDir(plan.temp))
        }),
{
}

/// A run of ffmpeg on the output that fails or is stopped leaves no output: what
/// there is of it is removed next, and the cut has failed.
pub proof fn a_failed_cut_leaves_no_output(plan: Plan, phase: Phase, event: Event)
    requires
        plan.can_be_in(phase),
        phase is Single || phase is Join,
        event is Ran && (event->Ran_0.cancelled || event->Ran_0.failed()),
    ensures
        plan.next(phase, event).act == Act::RemoveFile(plan.output),
        plan.next(phase, event).phase matches Phase::DropOutput { result, temp } && result is Err,
{
}

/// Whether a job is bound to end well.
pub open spec fn is_well(m: Move) -> bool {
    match m.phase {
        Phase::Over => m.act matches Act::Finish(r) && r is Ok,
        Phase::DropOutput { result, .. } => result is Ok,
        Phase::DropTemp { result } => result is Ok,
        _ => false,
    }
}

/// A cut succeeds only where the last run of ffmpeg did, and then with all that is
/// kept.
pub proof fn a_cut_succeeds_only_with_ffmpeg(plan: Plan, phase: Phase, event: Event)
    requires
        plan.can_be_in(phase),
        awaits(phase, event),
        !(phase is DropOutput || phase is DropTemp),
        is_well(plan.next(phase, event)),
    ensures
        phase is Single || phase is Join,
        event is Ran && !event->Ran_0.cancelled && !event->Ran_0.failed(),
{
}

/// The move of a job after a number of events.
pub open spec fn run(plan: Plan, m: Move, events: Seq<Event>) -> Move
    decreases events.len(),
{
    if events.len() == 0 {
        m
    } else {
        run(plan, plan.next(m.phase, events[0]), events.drop_first())
    }
}

/// Whether an event is that a program ran well.
pub open spec fn ran_well(e: Event) -> bool {
    e is Ran && !e->Ran_0.cancelled && !e->Ran_0.failed()
}

/// One piece that ffmpeg cuts well makes a cut that succeeds.
pub proof fn one_piece_makes_an_output(plan: Plan, event: Event)
    requires
        plan.keep.len() == 1,
        !plan.total().no_later(zero()),
        ran_well(event),
    ensures
        run(plan, plan.start(), seq![event]).act == Act::Finish(
            Ok(
                Made {
                    output: plan.output,
                    kept_secs: plan.total(),
                    segments: 1,
                    used_concat: false,
                },
            ),
        ),
{
    assert(seq![event].drop_first() =~= Seq::<Event>::empty());
    reveal_with_fuel(run, 2);
}

/// Several pieces that ffmpeg cuts and joins well make a cut that succeeds, with
/// all pieces in it.
pub proof fn all_pieces_make_an_output(plan: Plan, events: Seq<Event>)
    requires
        plan.keep.len() >= 2,
        !plan.total().no_later(zero()),
        events.len() == plan.keep.len() + 4,
        events[0] is Done,
        forall|i: int| 1 <= i <= plan.keep.len() ==> ran_well(#[trigger] events[i]),
        events[plan.keep.len() as int + 1] is Done,
        ran_well(events[plan.keep.len() as int + 2]),
        events[plan.keep.len() as int + 3] !is Ran,
    ensures
        run(plan, plan.start(), events).act == Act::Finish(
            Ok(
                Made {
                    output: plan.output,
                    kept_secs: plan.total(),
                    segments: plan.keep.len(),
                    used_concat: true,
                },
            ),
        ),
{
    let rest = events.drop_first();
    assert forall|i: int| 0 <= i < plan.keep.len() implies ran_well(#[trigger] rest[i]) by {
        assert(rest[i] == events[i + 1]);
    }
    lemma_from_part(plan, 0, rest);
}

proof fn lemma_from_part(plan: Plan, i: nat, events: Seq<Event>)
    requires
        plan.keep.len() >= 2,
        i < plan.keep.len(),
        events.len() == plan.keep.len() - i + 3,
        forall|k: int| 0 <= k < plan.keep.len() - i ==> ran_well(#[trigger] events[k]),
        events[plan.keep.len() - i] is Done,
        ran_well(events[plan.keep.len() - i + 1]),
        events[plan.keep.len() - i + 2] !is Ran,
    ensures
        run(plan, plan.start_part(i), events).act == Act::Finish(
            Ok(
                Made {
                    output: plan.output,
                    kept_secs: plan.total(),
                    segments: plan.keep.len(),
                    used_concat: true,
                },
            ),
        ),
    decreases plan.keep.len() - i,
{
    let rest = events.drop_first();
    assert(ran_well(events[0]));
    if i + 1 < plan.keep.len() {
        assert forall|k: int| 0 <= k < plan.keep.len() - i - 1 implies ran_well(
            #[trigger] rest[k],
        ) by {
            assert(rest[k] == events[k + 1]);
        }
        lemma_from_part(plan, i + 1, rest);
    } else {
        let two = rest.drop_first();
        let one = two.drop_first();
        assert(rest[0] == events[1]);
        assert(two[0] == events[2]);
        assert(one[0] == events[3]);
        assert(one.drop_first() =~= Seq::<Event>::empty());
        reveal_with_fuel(run, 5);
    }
}

/// When all videos are done, each one was counted once: cut well, cut badly, or
/// skipped; and skipped were just those that are not ready.
pub proof fn every_video_is_counted_once(batch: CutBatch)
    requires
        batch.wf(),
        !batch.cutting,
        batch.index == batch.tasks@.len(),
    ensures
        batch.summary.succeeded + batch.summary.failed + batch.summary.skipped
            == batch.tasks@.len(),
        batch.summary.skipped == unready_count(batch.tasks@),
{
    assert(batch.tasks@.take(batch.index as int) =~= batch.tasks@);
}

} // verus!
