//! Laws of how the cutting of a video goes: what is refused, what is told, and what
//! comes of what goes wrong.

use vstd::prelude::*;

use crate::cut::job::{awaits, Act, Event, Made, Move, Phase, Plan};
use crate::cut::{cut_args, join_args, same_file_spec, temp_dir_spec, CutMode};
use crate::error::Fault;
use crate::laws::paths::{is_bare_drive, is_plain_name, joined_paths_end_in_the_name};
use crate::laws::pieces::option_at;
use crate::laws::times::{lemma_decimal, lemma_pieces_split, lemma_pieces_whole};
use crate::model::{total_length, Segment};
use crate::numbers::digit;
use crate::paths::{file_name_of, is_absolute, joined_name, parent_of, steps};
use crate::pipeline::hidden;
use crate::secs::{zero, Secs};
use crate::text::{decimal, pieces};

verus! {

/// Whether two files are the same: where it is known of both where they really
/// lead, that decides, and nothing else does.
pub proof fn files_are_the_same_where_they_lead_to_the_same(
    a: Seq<char>,
    b: Seq<char>,
    a_real: Seq<char>,
    b_real: Seq<char>,
)
    ensures
        same_file_spec(a, b, Some(a_real), Some(b_real)) <==> steps(a_real) == steps(b_real),
        same_file_spec(a, b, None, Some(b_real)) <==> steps(a) == steps(b),
        same_file_spec(a, b, Some(a_real), None) <==> steps(a) == steps(b),
        same_file_spec(a, b, None, None) <==> steps(a) == steps(b),
{
}

/// A cut is refused just where there is nothing to keep, where it would write to its
/// own input, or where it would replace a file without leave. Otherwise the
/// directory of the output is made first, where it has one.
pub proof fn cuts_are_refused_just_where_they_must_be(
    plan: Plan,
    input_real: Option<Seq<char>>,
    output_real: Option<Seq<char>>,
    output_exists: bool,
)
    requires
        zero().before(plan.total()),
    ensures
        ({
            let m = plan.begin(input_real, output_real, output_exists);
            let same = same_file_spec(plan.input, plan.output, input_real, output_real);
            &&& m.act is Finish <==> plan.keep.len() == 0 || same || (output_exists
                && !plan.overwrite)
            &&& m.act is Finish ==> m.act->Finish_0 is Err
            &&& plan.keep.len() > 0 && same ==> m.act == Act::Finish(
                Err(Fault::OutputEqualsInput(plan.input)),
            )
            &&& plan.keep.len() > 0 && !same && output_exists && !plan.overwrite ==> m.act
                == Act::Finish(Err(Fault::OutputExists(plan.output)))
            &&& m.act !is Finish ==> match parent_of(plan.output) {
                Some(dir) => dir.len() > 0 ==> m.act == Act::MakeDir(dir),
                None => m.act == plan.start().act,
            }
        }),
{
}

/// What a job is bound to end with; nothing while it can still go either way.
pub open spec fn bound_for(m: Move) -> Option<Result<Made, Fault>> {
    match m.phase {
        Phase::Over => match m.act {
            Act::Finish(r) => Some(r),
            _ => None,
        },
        Phase::DropOutput { result, temp } => Some(result),
        Phase::DropTemp { result } => Some(result),
        _ => None,
    }
}

/// Where something cannot be done, that is what the job ends with; where the user
/// stops it, that is. Where ffmpeg fails, its code and what it wrote last are told.
pub proof fn what_goes_wrong_is_told(plan: Plan, phase: Phase, event: Event)
    requires
        plan.can_be_in(phase),
        awaits(phase, event),
        !(phase is DropOutput || phase is DropTemp),
    ensures
        ({
            let m = plan.next(phase, event);
            &&& event matches Event::Failed(e) ==> bound_for(m) == Some(
                Err::<Made, Fault>(Fault::Io(e)),
            )
            &&& event matches Event::Ran(r) ==> {
                &&& r.cancelled ==> bound_for(m) == Some(Err::<Made, Fault>(Fault::Cancelled))
                &&& !r.cancelled && r.status != Some(0i32) ==> (bound_for(m) matches Some(
                    Err(Fault::CommandFailed { cmd, code, stderr }),
                ) && stderr == r.tail_text())
                &&& !r.cancelled && r.status == Some(0i32) ==> !(bound_for(m) matches Some(Err(_)))
            }
        }),
{
}

/// Tidying up changes nothing of what a job ends with, whether it goes well or not.
pub proof fn tidying_up_changes_nothing(plan: Plan, m: Move, event: Event)
    requires
        m.phase is DropOutput || m.phase is DropTemp,
    ensures
        bound_for(plan.next(m.phase, event)) == bound_for(m),
{
}

/// What was written before a piece is all of the pieces before it: nothing before
/// the first, and one piece more before each that follows. When the pieces are
/// joined, all is written.
pub proof fn progress_goes_on_from_piece_to_piece(plan: Plan, i: nat)
    requires
        i < plan.keep.len(),
    ensures
        plan.base(Phase::Part(0)) == Secs::Finite(0),
        plan.base(Phase::Single) == Secs::Finite(0),
        i + 1 < plan.keep.len() ==> plan.base(Phase::Part(i + 1)) == plan.base(
            Phase::Part(i),
        ).plus_spec(plan.keep[i as int].end.minus_spec(plan.keep[i as int].start)),
        i + 1 == plan.keep.len() ==> plan.base(Phase::Join) == plan.base(Phase::Part(i)).plus_spec(
            plan.keep[i as int].end.minus_spec(plan.keep[i as int].start),
        ),
{
    assert(plan.keep.take(0) =~= Seq::<Segment>::empty());
    let more = plan.keep.take(i as int + 1);
    assert(more.drop_last() =~= plan.keep.take(i as int));
    assert(more.last() == plan.keep[i as int]);
    if i + 1 == plan.keep.len() {
        assert(more =~= plan.keep);
    }
    assert(total_length(more) == total_length(plan.keep.take(i as int)).plus_spec(
        plan.keep[i as int].length(),
    ));
}

/// How the streams are written: copied where it is to be fast. Where it is to be
/// precise, the picture and the sound are encoded anew, and subtitles are copied.
/// Pieces are joined as they are.
pub proof fn streams_are_written_as_the_mode_says(
    input: Seq<char>,
    output: Seq<char>,
    seg: Segment,
    overwrite: bool,
    list: Seq<char>,
)
    ensures
        ({
            let args = cut_args(input, output, seg, CutMode::Precise, overwrite);
            &&& exists|i: int| #[trigger] option_at(args, i, "-c:v"@, "libx264"@)
            &&& exists|i: int| #[trigger] option_at(args, i, "-crf"@, "18"@)
            &&& exists|i: int| #[trigger] option_at(args, i, "-c:a"@, "aac"@)
            &&& exists|i: int| #[trigger] option_at(args, i, "-c:s"@, "copy"@)
            &&& exists|i: int| #[trigger] option_at(args, i, "-avoid_negative_ts"@, "make_zero"@)
        }),
        ({
            let args = cut_args(input, output, seg, CutMode::Fast, overwrite);
            &&& exists|i: int| #[trigger] option_at(args, i, "-c"@, "copy"@)
            &&& exists|i: int| #[trigger] option_at(args, i, "-avoid_negative_ts"@, "make_zero"@)
        }),
        ({
            let args = join_args(list, output);
            &&& exists|i: int| #[trigger] option_at(args, i, "-f"@, "concat"@)
            &&& exists|i: int| #[trigger] option_at(args, i, "-i"@, list)
            &&& exists|i: int| #[trigger] option_at(args, i, "-c"@, "copy"@)
            &&& args.last() == output
        }),
{
    let precise = cut_args(input, output, seg, CutMode::Precise, overwrite);
    assert(option_at(precise, 15, "-c:v"@, "libx264"@));
    assert(option_at(precise, 17, "-crf"@, "18"@));
    assert(option_at(precise, 23, "-c:a"@, "aac"@));
    assert(option_at(precise, 27, "-c:s"@, "copy"@));
    assert(option_at(precise, 29, "-avoid_negative_ts"@, "make_zero"@));
    let fast = cut_args(input, output, seg, CutMode::Fast, overwrite);
    assert(option_at(fast, 15, "-c"@, "copy"@));
    assert(option_at(fast, 17, "-avoid_negative_ts"@, "make_zero"@));
    let join = join_args(list, output);
    assert(option_at(join, 7, "-f"@, "concat"@));
    assert(option_at(join, 11, "-i"@, list));
    assert(option_at(join, 13, "-c"@, "copy"@));
}

/// The name of the directory for the pieces.
pub open spec fn temp_name(pid: u32, nanos: u128) -> Seq<char> {
    ".intro-outro-tmp-"@ + decimal(pid as nat) + "-"@ + decimal(nanos as nat)
}

proof fn lemma_temp_name(pid: u32, nanos: u128)
    ensures
        is_plain_name(temp_name(pid, nanos)),
        temp_name(pid, nanos)[0] == '.',
        temp_name(pid, nanos).len() > 3,
        pieces(temp_name(pid, nanos).skip(17), '-') == seq![
            decimal(pid as nat),
            decimal(nanos as nat),
        ],
{
    reveal_strlit(".intro-outro-tmp-");
    reveal_strlit("-");
    reveal_strlit(".");
    reveal_strlit("..");
    let a = decimal(pid as nat);
    let b = decimal(nanos as nat);
    lemma_decimal(pid as nat);
    lemma_decimal(nanos as nat);
    let front = ".intro-outro-tmp-"@;
    let name = temp_name(pid, nanos);
    assert("-"@ =~= seq!['-']);
    assert(front.len() == 17);
    assert(name.skip(17) =~= a + seq!['-'] + b);
    assert forall|i: int| 0 <= i < a.len() implies #[trigger] a[i] != '-' && a[i] != '/' && a[i]
        != '\\' by {
        assert(digit(a[i]));
    }
    assert forall|i: int| 0 <= i < b.len() implies #[trigger] b[i] != '-' && b[i] != '/' && b[i]
        != '\\' by {
        assert(digit(b[i]));
    }
    lemma_pieces_split(a, b, '-');
    lemma_pieces_whole(b, '-');
    assert(pieces(name.skip(17), '-') =~= seq![a, b]);
    assert forall|i: int| 0 <= i < name.len() implies #[trigger] name[i] != '/' && name[i]
        != '\\' by {
        if i < 17 {
            assert(name[i] == front[i]);
        } else if i < 17 + a.len() {
            assert(name[i] == a[i - 17]);
        } else if i > 17 + a.len() {
            assert(name[i] == b[i - 18 - a.len()]);
        }
    }
}

/// The pieces of a cut are kept in a hidden directory beside the output. Two
/// processes, or one at two moments, have directories with different names.
pub proof fn pieces_are_kept_beside_the_output(
    output: Seq<char>,
    pid: u32,
    nanos: u128,
    other_pid: u32,
    other_nanos: u128,
)
    requires
        file_name_of(temp_dir_spec(output, pid, nanos)) is Some,
        file_name_of(temp_dir_spec(output, other_pid, other_nanos)) is Some,
        parent_of(output) matches Some(dir) ==> !is_bare_drive(dir),
    ensures
        hidden(temp_dir_spec(output, pid, nanos)),
        parent_of(output) matches Some(dir) ==> (dir.len() > 0 ==> temp_dir_spec(output, pid, nanos)
            == joined_name(dir, temp_name(pid, nanos))),
        file_name_of(temp_dir_spec(output, pid, nanos)) == file_name_of(
            temp_dir_spec(output, other_pid, other_nanos),
        ) <==> pid == other_pid && nanos == other_nanos,
{
    reveal_strlit(".");
    lemma_temp_name(pid, nanos);
    lemma_temp_name(other_pid, other_nanos);
    let a = temp_name(pid, nanos);
    let b = temp_name(other_pid, other_nanos);
    let dir = match parent_of(output) {
        Some(p) => if p.len() > 0 {
            p
        } else {
            "."@
        },
        None => "."@,
    };
    assert(!is_absolute(a) && !is_absolute(b)) by {
        reveal_strlit(".intro-outro-tmp-");
        assert(a[1] == 'i' && b[1] == 'i');
    }
    joined_paths_end_in_the_name(dir, a);
    joined_paths_end_in_the_name(dir, b);
    lemma_decimal(pid as nat);
    lemma_decimal(nanos as nat);
    lemma_decimal(other_pid as nat);
    lemma_decimal(other_nanos as nat);
    if a == b {
        let x = pieces(a.skip(17), '-');
        let y = pieces(b.skip(17), '-');
        assert(x[0] == decimal(pid as nat) && x[1] == decimal(nanos as nat));
        assert(y[0] == decimal(other_pid as nat) && y[1] == decimal(other_nanos as nat));
    }
}

} // verus!
