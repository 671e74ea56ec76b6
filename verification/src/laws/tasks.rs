//! Laws of the plan, of the list and of the log.

use vstd::prelude::*;

use crate::app::start::{fresh_paths, on_list};
use crate::app::{logged, Line, LogLevel, MAX_LOG_LINES};
use crate::cut::job::Plan;
use crate::laws::keep::{
    detects_something, in_order, kept_segments_are_in_order, lemma_total,
    something_is_removed_where_something_is_detected,
};
use crate::model::{total_length, EpisodeTask};
use crate::pipeline::is_planned;
use crate::rows::Row;
use crate::secs::zero;
use crate::show::truncated;

verus! {

/// Every task is of just one kind, by what is known of its video: without a
/// length nothing can be planned, and only where something is cut away and
/// something is left is it ready.
pub proof fn tasks_are_sorted_into_kinds(task: EpisodeTask)
    requires
        is_planned(task),
    ensures
        task.kind is DurationUnknown <==> task.file.duration_secs is None,
        task.kind is NothingToKeep <==> task.file.duration_secs is Some && task.keep@.len() == 0,
        task.kind is Ready <==> task.file.duration_secs is Some && task.keep@.len() > 0
            && zero().before(task.removed_spec()->0),
        task.kind is NoDetection <==> task.file.duration_secs is Some && task.keep@.len() > 0
            && !zero().before(task.removed_spec()->0),
{
}

/// A task that keeps something is ready just where an opening or an ending was
/// detected within its video. Without any detection no task is ready.
pub proof fn ready_tasks_have_something_detected(task: EpisodeTask)
    requires
        is_planned(task),
        task.keep@.len() > 0,
    ensures
        task.file.duration_secs->0.finite(),
        task.kind is Ready <==> detects_something(
            task.detection,
            task.file.duration_secs->0.nanos(),
        ),
        task.detection.empty() ==> task.kind is NoDetection,
{
    let end = task.file.duration_secs->0->Finite_0;
    something_is_removed_where_something_is_detected(end, task.detection);
}

/// Planning anew changes nothing, unless the file or the detection is another one.
pub proof fn plans_depend_on_file_and_detection(a: EpisodeTask, b: EpisodeTask)
    requires
        is_planned(a),
        is_planned(b),
        a.file.duration_secs == b.file.duration_secs,
        a.detection == b.detection,
    ensures
        a.keep@ == b.keep@,
        a.kind == b.kind,
{
}

/// A task that is ready keeps something, in segments that ascend without
/// touching, so that its cut is not refused for want of anything to keep.
pub proof fn ready_tasks_keep_something(task: EpisodeTask)
    requires
        is_planned(task),
        task.kind is Ready,
    ensures
        task.keep@.len() > 0,
        task.file.duration_secs->0.finite(),
        in_order(task.keep@, task.file.duration_secs->0.nanos()),
        total_length(task.keep@).finite(),
        total_length(task.keep@).nanos() > 0,
        !total_length(task.keep@).no_later(zero()),
{
    let end = task.file.duration_secs->0->Finite_0;
    kept_segments_are_in_order(end, task.detection);
    lemma_total(task.keep@, end as int);
}

/// So a task that is ready gets as far as ffmpeg, once the output's directory is
/// there.
pub proof fn ready_tasks_get_as_far_as_ffmpeg(task: EpisodeTask, plan: Plan)
    requires
        is_planned(task),
        task.kind is Ready,
        plan.keep == task.keep@,
    ensures
        plan.start().act !is Finish,
{
    ready_tasks_keep_something(task);
}

/// What is read for the list is not on it yet: no file gets a second row.
pub proof fn no_file_is_listed_twice(rows: Seq<Row>, paths: Seq<Seq<char>>, k: int)
    requires
        0 <= k < fresh_paths(rows, paths).len(),
    ensures
        !on_list(rows, fresh_paths(rows, paths)[k]),
        paths.contains(fresh_paths(rows, paths)[k]),
    decreases paths.len(),
{
    let before = fresh_paths(rows, paths.drop_last());
    if k < before.len() {
        no_file_is_listed_twice(rows, paths.drop_last(), k);
        let i = choose|i: int|
            0 <= i < paths.drop_last().len() && paths.drop_last()[i] == before[k];
        assert(paths[i] == before[k]);
    } else {
        assert(paths[paths.len() - 1] == paths.last());
    }
}

/// The log never grows past its size, and its last line is the latest one.
pub proof fn the_log_is_bounded(log: Seq<Line>, level: LogLevel, text: Seq<char>)
    requires
        log.len() <= MAX_LOG_LINES,
    ensures
        logged(log, level, text).len() <= MAX_LOG_LINES,
        logged(log, level, text).last() == (level, text),
{
}

/// A text that is cut off is never longer than it may be, and begins as it was.
pub proof fn truncated_texts_fit(s: Seq<char>, max: nat)
    requires
        max > 0,
    ensures
        truncated(s, max).len() <= max,
        s.len() <= max ==> truncated(s, max) == s,
        s.len() > max ==> truncated(s, max).take(max - 1) == s.take(max - 1),
{
    reveal_strlit("…");
    if s.len() > max {
        assert(truncated(s, max).take(max - 1) =~= s.take(max - 1));
    }
}

} // verus!
