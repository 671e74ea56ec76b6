//! Laws of the table, of what is typed into it, and of what the window is told.

use vstd::prelude::*;

use crate::app::messages::{
    after_build_rows, after_cut_finished, after_cut_line, after_cut_progress, after_detect_done,
    after_message, after_tools, earliest, found_among, latest, opening_starts, row_lines,
    row_logged, warned,
};
use crate::app::start::{after_start_cut, fresh_paths, on_list, ready_count, row_queued, same_task};
use crate::app::views::total_removed;
use crate::app::{logged, App, Busy, Effect, Launch, Line, LogLevel, MAX_LOG_LINES, MAX_ROW_LINES};
use crate::cut::Fraction;
use crate::laws::names::all_white;
use crate::laws::times::lemma_trimmed_same;
use crate::model::{typed_time, Detection, EpisodeFile, EpisodeTask, Segment};
use crate::paths::parent_of;
use crate::pipeline::{
    actionable_length, is_planned, output_for, planned_output, unready_count, CutSummary,
};
use crate::probe::FfmpegTools;
use crate::rows::{field_value, Row, RowStatus};
use crate::secs::{of_nanos, Secs};
use crate::text::{maybe_string, trimmed, trimmed_back, trimmed_front, white};
use crate::worker::{is_choice, CutInfo, ToolInfo, WorkerMessage, NEEDLE_LIB};

verus! {

proof fn lemma_front_blank(s: Seq<char>)
    ensures
        trimmed_front(s).len() == 0 <==> all_white(s),
        trimmed_front(s).len() > 0 ==> !white(trimmed_front(s)[0]),
        trimmed_front(s).len() <= s.len(),
    decreases s.len(),
{
    if s.len() > 0 && white(s[0]) {
        let rest = s.drop_first();
        lemma_front_blank(rest);
        if all_white(s) {
            assert forall|i: int| 0 <= i < rest.len() implies white(#[trigger] rest[i]) by {
                assert(rest[i] == s[i + 1]);
            }
        }
        if all_white(rest) {
            assert forall|i: int| 0 <= i < s.len() implies white(#[trigger] s[i]) by {
                if i > 0 {
                    assert(s[i] == rest[i - 1]);
                }
            }
        }
    } else if s.len() > 0 {
        assert(!white(s[0]));
    }
}

proof fn lemma_back(s: Seq<char>)
    requires
        s.len() > 0 ==> !white(s[0]),
    ensures
        trimmed_back(s).len() == 0 <==> s.len() == 0,
        trimmed_back(s).len() > 0 ==> trimmed_back(s)[0] == s[0] && !white(trimmed_back(s).last()),
    decreases s.len(),
{
    if s.len() > 0 && white(s.last()) {
        lemma_back(s.drop_last());
    }
}

/// A text without the space around it has none around it.
pub proof fn lemma_trimmed(s: Seq<char>)
    ensures
        trimmed(s).len() == 0 <==> all_white(s),
        trimmed(trimmed(s)) == trimmed(s),
{
    lemma_front_blank(s);
    lemma_back(trimmed_front(s));
    lemma_trimmed_same(trimmed(s));
}

/// A field holds no time just where it is blank, and a time just where one is
/// typed in it; whatever else stands in it is refused.
pub proof fn fields_hold_what_is_typed(text: Seq<char>)
    ensures
        field_value(text) == Ok::<Option<Secs>, Seq<char>>(None) <==> all_white(text),
        forall|t: Secs|
            field_value(text) == Ok::<Option<Secs>, Seq<char>>(Some(t)) <==> !all_white(text)
                && #[trigger] is_typed(text, t),
        field_value(text) is Err <==> !all_white(text) && typed_time(text) is None,
{
    lemma_trimmed(text);
    assert(typed_time(trimmed(text)) == typed_time(text));
}

/// Whether a time is typed.
pub open spec fn is_typed(text: Seq<char>, t: Secs) -> bool {
    typed_time(text) == Some(t)
}

/// Whether the segment is typed into two fields: both hold a time, and the second
/// comes after the first.
pub open spec fn types_segment(start: Seq<char>, end: Seq<char>, s: Segment) -> bool {
    &&& !all_white(start) && !all_white(end)
    &&& typed_time(start) == Some(s.start) && typed_time(end) == Some(s.end)
    &&& s.start.nanos() < s.end.nanos()
}

/// The opening is that of the first two fields, and the ending that of the last
/// two: each where its own fields hold one, whatever the others hold.
pub proof fn typed_segments_are_taken_apart(row: Row, s: Segment)
    requires
        row.field_errors().len() == 0,
    ensures
        row.typed_detection().opening == Some(s) <==> types_segment(
            row.opening_start@,
            row.opening_end@,
            s,
        ),
        row.typed_detection().ending == Some(s) <==> types_segment(
            row.ending_start@,
            row.ending_end@,
            s,
        ),
{
    fields_hold_what_is_typed(row.opening_start@);
    fields_hold_what_is_typed(row.opening_end@);
    fields_hold_what_is_typed(row.ending_start@);
    fields_hold_what_is_typed(row.ending_end@);
    assert(is_typed(row.opening_start@, s.start) <==> typed_time(row.opening_start@) == Some(
        s.start,
    ));
    assert(is_typed(row.opening_end@, s.end) <==> typed_time(row.opening_end@) == Some(s.end));
    assert(is_typed(row.ending_start@, s.start) <==> typed_time(row.ending_start@) == Some(s.start));
    assert(is_typed(row.ending_end@, s.end) <==> typed_time(row.ending_end@) == Some(s.end));
}

/// Whether what stands in a field can be read.
pub open spec fn can_be_read(text: Seq<char>) -> bool {
    all_white(text) || typed_time(text) is Some
}

/// What is typed is taken over just where each of the four fields can be read.
pub proof fn fields_are_refused_just_where_one_cannot_be_read(row: Row)
    ensures
        row.field_errors().len() == 0 <==> can_be_read(row.opening_start@) && can_be_read(
            row.opening_end@,
        ) && can_be_read(row.ending_start@) && can_be_read(row.ending_end@),
{
    fields_hold_what_is_typed(row.opening_start@);
    fields_hold_what_is_typed(row.opening_end@);
    fields_hold_what_is_typed(row.ending_start@);
    fields_hold_what_is_typed(row.ending_end@);
}

/// The frame that is shown is that at the edge of what is cut away: the end of the
/// opening, or without one the start of the ending. Without either it is at a
/// tenth of the video.
pub proof fn previews_show_the_edge_of_a_cut(row: Row)
    ensures
        forall|o: Segment| #[trigger]
            is_opening(row, o) ==> row.preview_time_spec() == o.end,
        row.task.detection.opening is None ==> forall|e: Segment| #[trigger]
            is_ending(row, e) ==> row.preview_time_spec() == e.start,
        row.task.detection.empty() ==> match row.task.file.duration_secs {
            Some(Secs::Finite(n)) => row.preview_time_spec() matches Secs::Finite(t) && 10 * t <= n
                < 10 * t + 10,
            Some(d) => row.preview_time_spec() == d,
            None => row.preview_time_spec() == Secs::Finite(0),
        },
{
}

/// Whether the segment is the opening that the row cuts away.
pub open spec fn is_opening(row: Row, s: Segment) -> bool {
    row.task.detection.opening == Some(s)
}

/// Whether the segment is the ending that the row cuts away.
pub open spec fn is_ending(row: Row, s: Segment) -> bool {
    row.task.detection.ending == Some(s)
}

/// Each row gets what was detected in its own video: the `i`th row the `i`th
/// result, in what it plans, in what it can bring back, and in its fields. A row
/// without a result stays as it is.
pub proof fn detections_go_to_their_rows(
    before: App,
    after: App,
    found: Vec<Detection>,
    i: int,
)
    requires
        after_detect_done(before, after, Ok(found)),
        0 <= i < before.rows@.len(),
    ensures
        after.rows@.len() == before.rows@.len(),
        i >= found@.len() ==> after.rows@[i] == before.rows@[i],
        i < found@.len() ==> {
            let row = after.rows@[i];
            &&& row.task.detection == found@[i]
            &&& row.detected == found@[i]
            &&& row.task.file == before.rows@[i].task.file
            &&& row.task.output == before.rows@[i].task.output
            &&& row.shows_detection()
        },
        after.busy == Busy::Idle,
{
    let n = if found@.len() < before.rows@.len() {
        found@.len()
    } else {
        before.rows@.len()
    };
    let row = after.rows@[i];
    assert(i < n || row == before.rows@[i]);
}

/// The row that a message is about, where it is about one.
pub open spec fn row_of(msg: WorkerMessage) -> Option<usize> {
    match msg {
        WorkerMessage::CutLine { index, line: _ } => Some(index),
        WorkerMessage::CutProgress { index, fraction: _ } => Some(index),
        WorkerMessage::CutFinished { index, result: _ } => Some(index),
        WorkerMessage::PreviewReady { index, png: _, at_secs: _ } => Some(index),
        WorkerMessage::PreviewFailed { index, error: _ } => Some(index),
        _ => None,
    }
}

/// A message about one row changes no other row.
pub proof fn messages_change_their_row_only(
    before: App,
    after: App,
    msg: WorkerMessage,
    found: Option<FfmpegTools>,
    effect: Effect,
    k: int,
)
    requires
        after_message(before, after, msg, found, effect),
        row_of(msg) is Some,
        0 <= k < before.rows@.len(),
        k != row_of(msg)->0,
    ensures
        after.rows@.len() == before.rows@.len(),
        after.rows@[k] == before.rows@[k],
{
}

/// Whatever the window is told, no row leaves the list or changes its place, and
/// each stays that of its video. Only videos that were read make new rows: one
/// each, behind the others and in their order.
pub proof fn rows_keep_their_videos(
    before: App,
    after: App,
    msg: WorkerMessage,
    found: Option<FfmpegTools>,
    effect: Effect,
    k: int,
)
    requires
        after_message(before, after, msg, found, effect),
        0 <= k < after.rows@.len(),
    ensures
        before.rows@.len() <= after.rows@.len(),
        k < before.rows@.len() ==> after.rows@[k].task.file == before.rows@[k].task.file,
        !(msg is ProbeDone) ==> after.rows@.len() == before.rows@.len(),
        msg matches WorkerMessage::ProbeDone(Ok(files)) ==> {
            &&& after.rows@.len() == before.rows@.len() + files@.len()
            &&& k >= before.rows@.len() ==> after.rows@[k].task.file == files@[k
                - before.rows@.len()] && after.rows@[k].task.detection.empty()
        },
        msg matches WorkerMessage::ProbeDone(Err(_)) ==> after.rows@.len() == before.rows@.len(),
{
    let row = after.rows@[k];
    match msg {
        WorkerMessage::ProbeDone(Ok(files)) => {
            let n = before.rows@.len();
            if k < n {
                assert(after.rows@.take(n as int)[k] == before.rows@[k]);
            } else {
                assert(after.rows@[n + (k - n)] == row);
            }
        },
        WorkerMessage::DetectDone(Ok(d)) => {
            detections_go_to_their_rows(before, after, d, k);
        },
        _ => {},
    }
}

/// What a cut is started with: each row's video, with what is detected in it, in
/// the order of the table. It is started just where some row is ready, nothing
/// else goes on, and there is a program and a place for the outputs.
pub proof fn cuts_are_started_for_the_table(before: App, after: App, launch: Option<Launch>, i: int)
    requires
        after_start_cut(before, after, launch),
        0 <= i < before.rows@.len(),
    ensures
        launch is Some <==> before.busy == Busy::Idle && before.cutter is Some
            && before.out_dir is Some && exists|k: int|
            0 <= k < before.rows@.len() && (#[trigger] before.rows@[k]).task.kind is Ready,
        launch is Some ==> launch->0 is Cut,
        launch matches Some(Launch::Cut { cutter, tasks, mode, overwrite }) ==> {
            &&& tasks@.len() == before.rows@.len()
            &&& tasks@[i].file == before.rows@[i].task.file
            &&& tasks@[i].detection == before.rows@[i].task.detection
            &&& mode == before.cut_mode && overwrite == before.overwrite
            &&& after.busy == Busy::Cutting
            &&& after.rows@[i].status is Queued <==> tasks@[i].kind is Ready
            &&& after.rows@[i].status is Skipped <==> tasks@[i].kind !is Ready
        },
        launch is None ==> after.rows == before.rows && after.busy == before.busy,
{
    lemma_ready_count(before.rows@);
    if launch is Some {
        let tasks = launch->0->tasks;
        assert(after.rows@[i] == after.rows@[i]);
        assert(tasks@[i] == tasks@[i]);
    }
}

proof fn lemma_ready_count(rows: Seq<Row>)
    ensures
        ready_count(rows) > 0 <==> exists|k: int|
            0 <= k < rows.len() && (#[trigger] rows[k]).task.kind is Ready,
    decreases rows.len(),
{
    if rows.len() > 0 {
        let front = rows.drop_last();
        lemma_ready_count(front);
        if ready_count(front) > 0 {
            let k = choose|k: int| 0 <= k < front.len() && (#[trigger] front[k]).task.kind is Ready;
            assert(rows[k].task.kind is Ready);
        }
        if rows.last().task.kind is Ready {
            assert(rows[rows.len() - 1].task.kind is Ready);
        }
        if exists|k: int| 0 <= k < rows.len() && (#[trigger] rows[k]).task.kind is Ready {
            let k = choose|k: int| 0 <= k < rows.len() && (#[trigger] rows[k]).task.kind is Ready;
            if k < front.len() {
                assert(front[k].task.kind is Ready);
            }
        }
    }
}

/// The rows that are counted as ready are those that are; the tasks that are
/// counted as not ready are those that are not; and of the results those are
/// counted in which something was found.
pub proof fn counts_are_of_what_they_count(
    rows: Seq<Row>,
    tasks: Seq<EpisodeTask>,
    found: Seq<Detection>,
)
    ensures
        ready_count(rows) == rows.filter(|r: Row| r.task.kind is Ready).len(),
        unready_count(tasks) == tasks.filter(|t: EpisodeTask| t.kind !is Ready).len(),
        found_among(found, found.len()) == found.filter(
            |d: Detection| d.opening is Some || d.ending is Some,
        ).len(),
{
    lemma_count_rows(rows);
    lemma_count_tasks(tasks);
    lemma_count_found(found, found.len());
    assert(found.take(found.len() as int) =~= found);
}

proof fn lemma_count_rows(rows: Seq<Row>)
    ensures
        ready_count(rows) == rows.filter(|r: Row| r.task.kind is Ready).len(),
    decreases rows.len(),
{
    reveal(Seq::filter);
    if rows.len() > 0 {
        lemma_count_rows(rows.drop_last());
    }
}

proof fn lemma_count_tasks(tasks: Seq<EpisodeTask>)
    ensures
        unready_count(tasks) == tasks.filter(|t: EpisodeTask| t.kind !is Ready).len(),
    decreases tasks.len(),
{
    reveal(Seq::filter);
    if tasks.len() > 0 {
        lemma_count_tasks(tasks.drop_last());
    }
}

proof fn lemma_count_found(found: Seq<Detection>, n: nat)
    requires
        n <= found.len(),
    ensures
        found_among(found, n) == found.take(n as int).filter(
            |d: Detection| d.opening is Some || d.ending is Some,
        ).len(),
    decreases n,
{
    reveal(Seq::filter);
    if n > 0 {
        lemma_count_found(found, (n - 1) as nat);
        assert(found.take(n as int).drop_last() =~= found.take(n - 1));
        assert(found.take(n as int).last() == found[n - 1]);
    }
}

/// The nanoseconds of what is kept of a task, where it is to be cut.
pub open spec fn nanos_kept(t: EpisodeTask) -> int {
    match t.kept_spec() {
        Some(Secs::Finite(n)) => if t.kind is Ready {
            n as int
        } else {
            0
        },
        _ => 0,
    }
}

/// The nanoseconds that are cut away in a row, where it is to be cut.
pub open spec fn nanos_removed(row: Row) -> int {
    match row.task.removed_spec() {
        Some(Secs::Finite(n)) => if row.task.kind is Ready {
            n as int
        } else {
            0
        },
        _ => 0,
    }
}

/// How much is kept of all videos is what is kept of those that are to be cut, one
/// by one.
pub proof fn kept_lengths_add_up(tasks: Seq<EpisodeTask>)
    requires
        forall|i: int|
            0 <= i < tasks.len() ==> ((#[trigger] tasks[i]).kept_spec() matches Some(t)
                ==> t.finite() && t.nanos() >= 0),
        tasks.map_values(|t: EpisodeTask| nanos_kept(t)).fold_left(0int, |a: int, b: int| a + b)
            <= i128::MAX,
    ensures
        actionable_length(tasks) == of_nanos(
            tasks.map_values(|t: EpisodeTask| nanos_kept(t)).fold_left(0int, |a: int, b: int| a + b),
        ),
        actionable_length(tasks).nanos() >= 0,
    decreases tasks.len(),
{
    reveal(Seq::fold_left);
    let f = |t: EpisodeTask| nanos_kept(t);
    let add = |a: int, b: int| a + b;
    let all = tasks.map_values(f);
    if tasks.len() > 0 {
        let front = tasks.drop_last();
        assert(all.drop_last() =~= front.map_values(f));
        assert(all.last() == nanos_kept(tasks.last()));
        assert forall|i: int| 0 <= i < front.len() implies ((#[trigger] front[i]).kept_spec() matches Some(
            t,
        ) ==> t.finite() && t.nanos() >= 0) by {
            assert(front[i] == tasks[i]);
        }
        assert(tasks[tasks.len() - 1] == tasks.last());
        assert(nanos_kept(tasks.last()) >= 0);
        assert(all.fold_left(0int, add) == front.map_values(f).fold_left(0int, add) + all.last());
        kept_lengths_add_up(front);
    }
}

/// How much is cut away in all rows is what is cut away in those that are to be
/// cut, one by one.
pub proof fn removed_lengths_add_up(rows: Seq<Row>)
    requires
        forall|i: int|
            0 <= i < rows.len() ==> ((#[trigger] rows[i]).task.removed_spec() matches Some(t)
                ==> t.finite() && t.nanos() >= 0),
        rows.map_values(|r: Row| nanos_removed(r)).fold_left(0int, |a: int, b: int| a + b)
            <= i128::MAX,
    ensures
        total_removed(rows) == of_nanos(
            rows.map_values(|r: Row| nanos_removed(r)).fold_left(0int, |a: int, b: int| a + b),
        ),
        total_removed(rows).nanos() >= 0,
    decreases rows.len(),
{
    reveal(Seq::fold_left);
    let f = |r: Row| nanos_removed(r);
    let add = |a: int, b: int| a + b;
    let all = rows.map_values(f);
    if rows.len() > 0 {
        let front = rows.drop_last();
        assert(all.drop_last() =~= front.map_values(f));
        assert(all.last() == nanos_removed(rows.last()));
        assert forall|i: int| 0 <= i < front.len() implies ((
        #[trigger] front[i]).task.removed_spec() matches Some(t) ==> t.finite() && t.nanos() >= 0) by {
            assert(front[i] == rows[i]);
        }
        assert(rows[rows.len() - 1] == rows.last());
        assert(nanos_removed(rows.last()) >= 0);
        assert(all.fold_left(0int, add) == front.map_values(f).fold_left(0int, add) + all.last());
        removed_lengths_add_up(front);
    }
}

/// Whether two rows have openings that start more than half a minute apart.
pub open spec fn far_apart(rows: Seq<Row>) -> bool {
    exists|i: int, j: int| #[trigger] starts_before(rows, i, j)
}

/// Whether the one row's opening starts more than half a minute before the other's.
pub open spec fn starts_before(rows: Seq<Row>, i: int, j: int) -> bool {
    &&& 0 <= i < rows.len() && 0 <= j < rows.len()
    &&& rows[i].task.detection.opening matches Some(a) && rows[j].task.detection.opening matches Some(
        b,
    ) && a.start.nanos() + 30_000_000_000 < b.start.nanos()
}

/// Whether the start of each opening is a finite time from which none is too far.
pub open spec fn starts_are_known(rows: Seq<Row>) -> bool {
    forall|i: int|
        0 <= i < rows.len() ==> ((#[trigger] rows[i]).task.detection.opening matches Some(o)
            ==> o.start.finite() && 0 <= o.start.nanos())
}

/// Where the openings start is where those start that were detected.
proof fn lemma_starts(rows: Seq<Row>, t: Secs)
    ensures
        opening_starts(rows).contains(t) <==> exists|i: int|
            0 <= i < rows.len() && ((#[trigger] rows[i]).task.detection.opening matches Some(o)
                && o.start == t),
    decreases rows.len(),
{
    if rows.len() > 0 {
        let front = rows.drop_last();
        lemma_starts(front, t);
        let before = opening_starts(front);
        let all = opening_starts(rows);
        if before.contains(t) {
            let i = choose|i: int|
                0 <= i < front.len() && ((#[trigger] front[i]).task.detection.opening matches Some(o)
                    && o.start == t);
            assert(rows[i] == front[i]);
        }
        if all.contains(t) {
            let k = choose|k: int| 0 <= k < all.len() && all[k] == t;
            if k < before.len() {
                assert(before[k] == t);
            } else {
                assert(rows[rows.len() - 1] == rows.last());
            }
        }
        if exists|i: int|
            0 <= i < rows.len() && ((#[trigger] rows[i]).task.detection.opening matches Some(o)
                && o.start == t) {
            let i = choose|i: int|
                0 <= i < rows.len() && ((#[trigger] rows[i]).task.detection.opening matches Some(o)
                    && o.start == t);
            if i < front.len() {
                assert(front[i] == rows[i]);
                assert(before.contains(t));
                let k = choose|k: int| 0 <= k < before.len() && before[k] == t;
                assert(all[k] == t);
            } else {
                assert(all[all.len() - 1] == t);
            }
        }
    }
}

/// The earliest and the latest are among the times, and none lies outside.
proof fn lemma_ends(list: Seq<Secs>)
    requires
        forall|i: int| 0 <= i < list.len() ==> (#[trigger] list[i]).finite(),
        list.len() > 0,
    ensures
        list.contains(earliest(list)),
        list.contains(latest(list)),
        forall|i: int|
            0 <= i < list.len() ==> earliest(list).nanos() <= (#[trigger] list[i]).nanos()
                <= latest(list).nanos(),
        earliest(list).finite() && latest(list).finite(),
    decreases list.len(),
{
    let front = list.drop_last();
    assert(list[list.len() - 1] == list.last());
    if front.len() > 0 {
        assert forall|i: int| 0 <= i < front.len() implies (#[trigger] front[i]).finite() by {
            assert(front[i] == list[i]);
        }
        lemma_ends(front);
        let a = choose|i: int| 0 <= i < front.len() && front[i] == earliest(front);
        let b = choose|i: int| 0 <= i < front.len() && front[i] == latest(front);
        assert(list[a] == earliest(front) && list[b] == latest(front));
        assert forall|i: int| 0 <= i < list.len() implies earliest(list).nanos() <= (
        #[trigger] list[i]).nanos() <= latest(list).nanos() by {
            if i < front.len() {
                assert(front[i] == list[i]);
            }
        }
    } else {
        assert(earliest(front) == Secs::PosInf && latest(front) == Secs::NegInf);
    }
}

/// The user is warned just where two openings start more than half a minute apart;
/// otherwise nothing is told.
pub proof fn openings_far_apart_are_warned_of(log: Seq<Line>, rows: Seq<Row>)
    requires
        starts_are_known(rows),
    ensures
        far_apart(rows) ==> exists|text: Seq<char>| #[trigger]
            logged(log, LogLevel::Warn, text) == warned(log, rows),
        !far_apart(rows) ==> warned(log, rows) == log,
{
    let starts = opening_starts(rows);
    assert forall|i: int| 0 <= i < starts.len() implies (#[trigger] starts[i]).finite() && 0
        <= starts[i].nanos() by {
        lemma_starts(rows, starts[i]);
        assert(starts.contains(starts[i]));
    }
    if far_apart(rows) {
        let (i, j) = choose|i: int, j: int| #[trigger] starts_before(rows, i, j);
        let a = rows[i].task.detection.opening->0.start;
        let b = rows[j].task.detection.opening->0.start;
        lemma_starts(rows, a);
        lemma_starts(rows, b);
        let x = choose|k: int| 0 <= k < starts.len() && starts[k] == a;
        let y = choose|k: int| 0 <= k < starts.len() && starts[k] == b;
        assert(x != y);
        lemma_ends(starts);
        let spread = latest(starts).minus_spec(earliest(starts));
        assert(spread.nanos() > 30_000_000_000);
        let text = "各集片头起点相差 "@ + crate::numbers::fixed_secs(spread, 1, 0) + " 秒（最早 "@
            + crate::rows::one_place(earliest(starts)) + "s，最晚 "@ + crate::rows::one_place(
            latest(starts),
        ) + "s），差异偏大。请用右侧预览逐集确认切点，或检查这批文件是不是同一个剧集。"@;
        assert(logged(log, LogLevel::Warn, text) == warned(log, rows));
    } else if starts.len() >= 2 {
        lemma_ends(starts);
        lemma_starts(rows, earliest(starts));
        lemma_starts(rows, latest(starts));
        let i = choose|i: int|
            0 <= i < rows.len() && ((#[trigger] rows[i]).task.detection.opening matches Some(o)
                && o.start == earliest(starts));
        let j = choose|j: int|
            0 <= j < rows.len() && ((#[trigger] rows[j]).task.detection.opening matches Some(o)
                && o.start == latest(starts));
        assert(!starts_before(rows, i, j));
    }
}

/// Every path that is not on the list yet is read for it, in the order in which
/// the paths were found, and no other is: `at` tells of each that is read which
/// of the paths it is.
pub proof fn new_paths_are_read(rows: Seq<Row>, paths: Seq<Seq<char>>) -> (at: Seq<int>)
    ensures
        at.len() == fresh_paths(rows, paths).len(),
        forall|k: int|
            0 <= k < at.len() ==> 0 <= #[trigger] at[k] < paths.len() && fresh_paths(rows, paths)[k]
                == paths[at[k]] && !on_list(rows, paths[at[k]]),
        forall|j: int, k: int| 0 <= j < k < at.len() ==> #[trigger] at[j] < #[trigger] at[k],
        forall|i: int|
            0 <= i < paths.len() && !on_list(rows, #[trigger] paths[i]) ==> at.contains(i),
    decreases paths.len(),
{
    if paths.len() == 0 {
        Seq::empty()
    } else {
        let n = paths.len() - 1;
        let front = paths.drop_last();
        let before = new_paths_are_read(rows, front);
        assert forall|i: int| 0 <= i < n && !on_list(rows, #[trigger] paths[i]) implies before.contains(
            i,
        ) by {
            assert(front[i] == paths[i]);
        }
        if on_list(rows, paths.last()) {
            before
        } else {
            let at = before.push(n);
            assert forall|i: int| 0 <= i < paths.len() && !on_list(rows, #[trigger] paths[i]) implies at.contains(
                i,
            ) by {
                if i == n {
                    assert(at[before.len() as int] == n);
                } else {
                    let k = choose|k: int| 0 <= k < before.len() && before[k] == i;
                    assert(at[k] == i);
                }
            }
            at
        }
    }
}

/// A line that is told comes behind the others, and these stay in their order: all
/// of them while there is room, and all but the oldest where there is none.
pub proof fn logs_keep_their_lines(
    log: Seq<Line>,
    level: LogLevel,
    text: Seq<char>,
    own: Seq<Seq<char>>,
)
    requires
        log.len() <= MAX_LOG_LINES,
        own.len() <= MAX_ROW_LINES,
    ensures
        log.len() < 1000 ==> logged(log, level, text) == log.push((level, text)),
        log.len() == 1000 ==> logged(log, level, text) == log.drop_first().push((level, text)),
        own.len() < 200 ==> row_logged(own, text) == own.push(text),
        own.len() == 200 ==> row_logged(own, text) == own.drop_first().push(text),
{
    assert(log.len() > 0 ==> log.skip(1) =~= log.drop_first());
    assert(own.len() > 0 ==> own.skip(1) =~= own.drop_first());
}

/// What came of a cut is told in its row: how much was cut away where it went well,
/// and why not where it did not. Either way no more is to be done about it.
pub proof fn cut_results_go_to_their_row(
    before: App,
    after: App,
    index: usize,
    result: Result<CutInfo, String>,
)
    requires
        after_cut_finished(before, after, index, result),
        index < before.rows@.len(),
    ensures
        ({
            let row = after.rows@[index as int];
            &&& row.task == before.rows@[index as int].task
            &&& row.progress matches Fraction::Of { part, whole } && part == whole && whole > 0
            &&& match result {
                Ok(_) => row.status matches RowStatus::Done { removed_secs } && (
                row.task.removed_spec() matches Some(t) ==> removed_secs == t),
                Err(e) => row.status == RowStatus::Failed(e),
            }
            &&& match result {
                Ok(_) => after.log_lines().last().0 == LogLevel::Info,
                Err(e) => after.log_lines().last().0 == LogLevel::Error,
            }
        }),
{
}

/// What ffmpeg writes about a row stands last in that row's lines, and in the log.
pub proof fn lines_go_to_their_row(before: App, after: App, index: usize, line: Seq<char>)
    requires
        after_cut_line(before, after, index, line),
        index < before.rows@.len(),
    ensures
        row_lines(after.rows@[index as int].log@).last() == line,
        after.log_lines().last() == (LogLevel::Info, line),
        after.rows@[index as int].status == before.rows@[index as int].status,
{
}

/// How far a cut is stands in its row.
pub proof fn progress_goes_to_its_row(before: App, after: App, index: usize, part: i128, whole: i128)
    requires
        after_cut_progress(before, after, index, Fraction::Of { part, whole }),
        index < before.rows@.len(),
        0 <= part <= whole,
    ensures
        after.rows@[index as int].progress == (Fraction::Of { part, whole }),
        after.rows@[index as int].task == before.rows@[index as int].task,
        after.rows@[index as int].status == before.rows@[index as int].status,
{
}

/// When all is cut nothing goes on any more, and where something was made the
/// directory with it is shown; the log says whether all went well.
pub proof fn the_end_of_a_cut_is_told(
    before: App,
    after: App,
    s: CutSummary,
    found: Option<FfmpegTools>,
    effect: Effect,
)
    requires
        after_message(before, after, WorkerMessage::CutAllDone(s), found, effect),
    ensures
        after.busy == Busy::Idle,
        after.rows == before.rows,
        effect is OpenDir <==> s.succeeded > 0 && before.out_dir is Some,
        effect matches Effect::OpenDir(d) ==> Some(d@) == maybe_string(before.out_dir),
        after.log_lines().last().0 == (if s.failed > 0 {
            LogLevel::Warn
        } else {
            LogLevel::Info
        }),
{
}

/// New rows get an output in the directory that was chosen, or else in that of the
/// first of their videos.
pub proof fn new_rows_have_their_outputs_planned(
    before: App,
    after: App,
    files: Seq<EpisodeFile>,
    i: int,
)
    requires
        after_build_rows(before, after, files),
        0 <= i < files.len(),
    ensures
        ({
            let row = after.rows@[before.rows@.len() + i];
            let dir = match before.out_dir {
                Some(d) => d@,
                None => match parent_of(files[0].path@) {
                    Some(d) => d,
                    None => "."@,
                },
            };
            &&& row.task.output@ == planned_output(files[i].path@, dir, before.out_suffix@)
            &&& maybe_string(after.out_dir) == Some(dir)
            &&& row.status is Idle
            &&& row.detected.empty()
            &&& row.opening_start@.len() == 0 && row.ending_end@.len() == 0
        }),
{
    let row = after.rows@[before.rows@.len() + i];
    assert(row.task.file == files[i]);
}

/// A cut writes where it is wanted: each output is called like its video, with the
/// suffix, in the directory that was chosen.
pub proof fn cuts_write_where_it_is_wanted(before: App, after: App, launch: Option<Launch>, i: int)
    requires
        after_start_cut(before, after, launch),
        launch is Some,
        0 <= i < before.rows@.len(),
    ensures
        launch->0->tasks@[i].output@ == output_for(
            before.rows@[i].task.file.path@,
            before.out_dir->0@,
            before.out_suffix@,
        ),
        is_planned(launch->0->tasks@[i]),
{
    let tasks = launch->0->tasks;
    assert(same_task(tasks@[i], after.rows@[i].task));
    assert(row_queued(
        before.rows@[i],
        after.rows@[i],
        before.out_dir->0@,
        before.out_suffix@,
    ));
}

/// When the programs were looked for, what was found is used from then on: ffmpeg
/// for cutting, and needle as it is preferred. Where they could not be found, what
/// there was stays.
pub proof fn found_programs_are_used(
    before: App,
    after: App,
    result: Result<ToolInfo, String>,
    found: Option<FfmpegTools>,
)
    requires
        after_tools(before, after, result, found),
    ensures
        result matches Ok(info) ==> {
            &&& after.tools == found
            &&& found matches Some(t) ==> (after.cutter matches Some(c) && c.ffmpeg == t.ffmpeg)
            &&& after.tool_error is None && after.tool_info == Some(info)
            &&& is_choice(
                maybe_string(info.needle),
                before.prefer_library,
                NEEDLE_LIB,
                after.detector,
            )
        },
        result matches Err(e) ==> {
            &&& after.tools == before.tools && after.cutter == before.cutter
            &&& after.detector == before.detector
            &&& after.tool_error == Some(e)
            &&& after.log_lines().last() == (LogLevel::Error, e@)
        },
        after.rows == before.rows,
{
}

} // verus!
