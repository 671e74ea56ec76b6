//! Laws of what needle is told, and of what is made of its answers.

use vstd::prelude::*;

use crate::detect::cli::{
    analyze_args, base_args, duration_within, padding_within, pool_size_spec, run_outcome,
    search_args, survivors_of, CliCapabilities, THRESHOLD_MAX,
};
use crate::detect::job::{analyzed_move, begin_move, searched_move, settle, Act, Move, Phase};
use crate::detect::library::{analysis_of, comparison_of, padding_fits};
use crate::detect::{
    all_sidecars, collected, parallelism_for, readable, removal_notes, removed_count, DetectOptions,
    Reading, SidecarSnapshot, Told,
};
use crate::error::Fault;
use crate::exec::{lines_of, places, tail_of, ExecResult, Stream};
use crate::laws::detect::{only_new_files_are_removed, survivors_keep_their_order, was_left};
use crate::laws::pieces::{says_time, times_are_told_to_the_millisecond};
use crate::laws::times::lemma_decimal;
use crate::model::Detection;
use crate::needle::FrameHashes;
use crate::numbers::{all_digits, value};
use crate::paths::{file_name_of, holds, joined_path, steps, Step};
use crate::secs::Secs;
use crate::skipfile::{chosen, sidecars};
use crate::text::decimal;

verus! {

/// Whether an option is given before the place, with so much behind it.
pub open spec fn gives_number(args: Seq<Seq<char>>, end: int, name: Seq<char>, n: int) -> bool {
    exists|i: int|
        0 <= i < end - 1 && #[trigger] args[i] == name && args[i + 1].len() > 0 && all_digits(
            args[i + 1],
        ) && value(args[i + 1]) == n
}

/// Whether an option is given before the place.
pub open spec fn gives(args: Seq<Seq<char>>, end: int, name: Seq<char>) -> bool {
    exists|i: int| 0 <= i < end && #[trigger] args[i] == name
}

/// Whether a number is the one that is wanted, or the nearest that is allowed.
pub open spec fn is_allowed(n: int, wanted: int, low: int, high: int) -> bool {
    &&& low <= n <= high
    &&& low <= wanted <= high ==> n == wanted
    &&& wanted < low ==> n == low
    &&& wanted > high ==> n == high
}

/// What a number is that is wanted, within what is allowed.
pub open spec fn allowed(wanted: int, low: int, high: int) -> int {
    if wanted < low {
        low
    } else if wanted > high {
        high
    } else {
        wanted
    }
}

/// The settings reach needle when it compares the videos: each as it is wanted, or
/// as near as needle allows. The videos come last, behind `--`, in their order.
pub proof fn settings_reach_the_search(
    videos: Seq<Seq<char>>,
    opts: DetectOptions,
    caps: CliCapabilities,
)
    ensures
        ({
            let args = search_args(videos, opts, caps);
            let end = args.len() - videos.len() - 1;
            &&& args[end] == "--"@
            &&& forall|i: int| 0 <= i < videos.len() ==> args[end + 1 + i] == #[trigger] videos[i]
            &&& gives(args, end, "search"@) && gives(args, end, "--write-skip-files"@)
            &&& gives_number(
                args,
                end,
                "--hash-match-threshold"@,
                allowed(opts.hash_match_threshold as int, 0, 32),
            )
            &&& gives_number(
                args,
                end,
                "--min-opening-duration"@,
                allowed(opts.min_opening_duration_secs as int, 1, 3600),
            )
            &&& gives_number(
                args,
                end,
                "--min-ending-duration"@,
                allowed(opts.min_ending_duration_secs as int, 1, 3600),
            )
            &&& exists|i: int|
                0 <= i < end - 1 && #[trigger] args[i] == "--time-padding"@ && says_time(
                    args[i + 1],
                    match opts.time_padding_secs {
                        Secs::Finite(n) => allowed(n as int, 0, 60_000_000_000),
                        _ => 0,
                    },
                )
        }),
{
    let args = search_args(videos, opts, caps);
    let base = base_args(opts).len() as int;
    let end = args.len() - videos.len() - 1;
    let threshold = if opts.hash_match_threshold > THRESHOLD_MAX {
        THRESHOLD_MAX as nat
    } else {
        opts.hash_match_threshold as nat
    };
    let opening = duration_within(opts.min_opening_duration_secs) as nat;
    let ending = duration_within(opts.min_ending_duration_secs) as nat;
    lemma_decimal(threshold);
    lemma_decimal(opening);
    lemma_decimal(ending);
    assert(args[base] == "search"@);
    assert(args[base + 1] == "--write-skip-files"@);
    assert(args[base + 2] == "--hash-match-threshold"@);
    assert(args[base + 2 + 1] == decimal(threshold));
    assert(args[base + 4] == "--min-opening-duration"@);
    assert(args[base + 4 + 1] == decimal(opening));
    assert(args[base + 6] == "--min-ending-duration"@);
    assert(args[base + 6 + 1] == decimal(ending));
    assert(args[base + 8] == "--time-padding"@);
    let padding = padding_within(opts.time_padding_secs);
    times_are_told_to_the_millisecond(padding->Finite_0);
    assert(args[base + 8 + 1] == crate::cut::seconds_arg(padding));
    assert(end >= base + 10);
}

/// Without the wish for endings nothing asks needle for them.
proof fn lemma_no_endings(videos: Seq<Seq<char>>, opts: DetectOptions, caps: CliCapabilities)
    requires
        !(opts.include_endings && caps.search_include_endings),
    ensures
        !gives(
            search_args(videos, opts, caps),
            search_args(videos, opts, caps).len() - videos.len() - 1,
            "--include-endings"@,
        ),
{
    reveal_strlit("--include-endings");
    reveal_strlit("--no-threading");
    reveal_strlit("search");
    reveal_strlit("--write-skip-files");
    reveal_strlit("--hash-match-threshold");
    reveal_strlit("--min-opening-duration");
    reveal_strlit("--min-ending-duration");
    reveal_strlit("--time-padding");
    let args = search_args(videos, opts, caps);
    let base = base_args(opts).len() as int;
    let end = args.len() - videos.len() - 1;
    assert(end == base + 10);
    let want = "--include-endings"@;
    assert(want.len() == 17 && want[0] == '-' && want[2] == 'i');
    lemma_decimal(
        if opts.hash_match_threshold > THRESHOLD_MAX {
            THRESHOLD_MAX as nat
        } else {
            opts.hash_match_threshold as nat
        },
    );
    lemma_decimal(duration_within(opts.min_opening_duration_secs) as nat);
    lemma_decimal(duration_within(opts.min_ending_duration_secs) as nat);
    let padding = padding_within(opts.time_padding_secs);
    times_are_told_to_the_millisecond(padding->Finite_0);
    let text = crate::cut::seconds_arg(padding);
    assert(text[0] != '-') by {
        let ms = choose|ms: nat| #[trigger] crate::laws::pieces::says_millis(text, ms);
        let (whole, part) = choose|whole: Seq<char>, part: Seq<char>| #[trigger]
            (whole + seq!['.'] + part) == text && whole.len() > 0 && all_digits(whole);
        assert(text[0] == whole[0]);
    }
    assert forall|i: int| 0 <= i < end implies #[trigger] args[i] != want by {
        if i < base {
            assert(args[i] == "--no-threading"@);
        } else {
            let k = i - base;
            assert(k == 0 ==> args[i] == "search"@);
            assert(k == 1 ==> args[i] == "--write-skip-files"@);
            assert(k == 2 ==> args[i] == "--hash-match-threshold"@);
            assert(k == 4 ==> args[i] == "--min-opening-duration"@);
            assert(k == 6 ==> args[i] == "--min-ending-duration"@);
            assert(k == 8 ==> args[i] == "--time-padding"@);
            assert(k == 9 ==> args[i] == text);
            assert(k == 3 || k == 5 || k == 7 ==> args[i].len() > 0 && all_digits(args[i]));
            if k == 3 || k == 5 || k == 7 {
                assert(crate::numbers::digit(args[i][0]));
            }
        }
    }
}

/// Endings are asked for just where they are wanted and needle knows of it, threads
/// are forbidden just where they are not wanted, and fingerprints are taken again
/// just where that is wanted. The video comes last, behind `--`.
pub proof fn switches_are_given_as_wanted(
    video: Seq<char>,
    videos: Seq<Seq<char>>,
    opts: DetectOptions,
    caps: CliCapabilities,
)
    ensures
        ({
            let args = search_args(videos, opts, caps);
            let end = args.len() - videos.len() - 1;
            &&& gives(args, end, "--include-endings"@) <==> opts.include_endings
                && caps.search_include_endings
            &&& !opts.threading ==> args[0] == "--no-threading"@
            &&& opts.threading ==> args[0] == "search"@
        }),
        ({
            let args = analyze_args(video, opts, caps);
            let end = args.len() - 2;
            &&& args[end] == "--"@ && args[end + 1] == video
            &&& gives(args, end, "analyze"@)
            &&& gives(args, end, "--force"@) <==> opts.force_reanalyze
            &&& gives(args, end, "--include-endings"@) <==> opts.include_endings
                && caps.analyze_include_endings
            &&& gives(args, end, "--no-threading"@) <==> !opts.threading
        }),
{
    reveal_strlit("analyze");
    reveal_strlit("--force");
    reveal_strlit("--include-endings");
    reveal_strlit("--no-threading");
    let search = search_args(videos, opts, caps);
    let last = search.len() - videos.len() - 1;
    if opts.include_endings && caps.search_include_endings {
        assert(search[last - 1] == "--include-endings"@);
    } else {
        lemma_no_endings(videos, opts, caps);
    }
    let args = analyze_args(video, opts, caps);
    let end = args.len() - 2;
    let base = base_args(opts).len() as int;
    assert(args[base] == "analyze"@);
    assert("analyze"@.len() == 7 && "--force"@.len() == 7 && "analyze"@[0] == 'a' && "--force"@[0]
        == '-');
    assert("--include-endings"@.len() == 17 && "--no-threading"@.len() == 14);
    if !opts.threading {
        assert(args[0] == "--no-threading"@);
    }
    let endings = opts.include_endings && caps.analyze_include_endings;
    if endings {
        assert(args[base + 1] == "--include-endings"@);
    }
    if opts.force_reanalyze {
        assert(args[end - 1] == "--force"@);
    }
}

/// What is handed to needle as a library is what the settings say, too. What is
/// found is written beside the videos, and nothing that was found before is used.
pub proof fn settings_reach_the_library(
    videos: Seq<Seq<char>>,
    hashes: Seq<FrameHashes>,
    opts: DetectOptions,
)
    requires
        padding_fits(opts),
    ensures
        ({
            let a = analysis_of(videos, opts);
            &&& a.videos == videos
            &&& a.include_endings == opts.include_endings
            &&& a.threading == opts.threading && a.threaded_decoding == opts.threading
            &&& a.force == opts.force_reanalyze
            &&& !a.persist
        }),
        ({
            let c = comparison_of(videos, hashes, opts);
            &&& c.videos == videos && c.frame_hashes == hashes
            &&& c.include_endings == opts.include_endings
            &&& c.hash_match_threshold == opts.hash_match_threshold
            &&& c.min_opening_duration.nanos() == opts.min_opening_duration_secs * 1_000_000_000
            &&& c.min_ending_duration.nanos() == opts.min_ending_duration_secs * 1_000_000_000
            &&& c.write_skip_files && !c.use_skip_files && !c.display
            &&& c.threading == opts.threading
        }),
{
}

/// Whether a result is the one that was read: nothing where nothing was.
pub open spec fn is_result(d: Detection, r: Reading) -> bool {
    match r {
        Ok(Some(found)) => d == found,
        _ => d.opening is None && d.ending is None,
    }
}

/// Whether there is an opening or an ending in what was read.
pub open spec fn finds_something(r: Reading) -> bool {
    r matches Ok(Some(d)) && (d.opening is Some || d.ending is Some)
}

/// A detection succeeds just where the results of every video could be read and
/// there is something in one of them. It then has one result for each video, in
/// its place. Otherwise the first result that could not be read tells why, and
/// where all could, that nothing was found.
pub proof fn detections_have_all_results(readings: Seq<Reading>)
    ensures
        collected(readings) is Ok <==> (forall|i: int|
            0 <= i < readings.len() ==> #[trigger] readings[i] is Ok) && (exists|i: int|
            0 <= i < readings.len() && #[trigger] finds_something(readings[i])),
        collected(readings) matches Ok(list) ==> list.len() == readings.len() && (forall|i: int|
            0 <= i < list.len() ==> #[trigger] is_result(list[i], readings[i])),
        (forall|i: int| 0 <= i < readings.len() ==> #[trigger] readings[i] is Ok) && !(exists|i: int|
            0 <= i < readings.len() && #[trigger] finds_something(readings[i])) ==> collected(
            readings,
        ) == Err::<Seq<Detection>, Fault>(Fault::NoDetectionAtAll),
        forall|n: int|
            0 <= n < readings.len() && #[trigger] readings[n] is Err && (forall|i: int|
                0 <= i < n ==> #[trigger] readings[i] is Ok) ==> collected(readings) == Err::<
                Seq<Detection>,
                Fault,
            >(readings[n]->Err_0@),
{
    lemma_readable(readings);
    let n = readable(readings);
    let all = readings.map_values(|r: Reading| crate::detect::result_of(r));
    if forall|i: int| 0 <= i < readings.len() ==> #[trigger] readings[i] is Ok {
        assert(n == readings.len()) by {
            if n < readings.len() {
                assert(readings[n as int] is Ok);
            }
        }
        if exists|i: int| 0 <= i < readings.len() && #[trigger] finds_something(readings[i]) {
            let i = choose|i: int| 0 <= i < readings.len() && #[trigger] finds_something(readings[i]);
            assert(!all[i].empty());
        } else {
            assert forall|i: int| 0 <= i < all.len() implies (#[trigger] all[i]).empty() by {
                assert(!finds_something(readings[i]));
            }
        }
    }
    if collected(readings) is Ok {
        assert(n == readings.len());
        let i = choose|i: int| 0 <= i < all.len() && !(#[trigger] all[i]).empty();
        assert(readings[i] is Ok);
        assert(finds_something(readings[i]));
        assert forall|i: int| 0 <= i < all.len() implies #[trigger] is_result(all[i], readings[i]) by {
            assert(readings[i] is Ok);
        }
    }
    assert forall|k: int|
        0 <= k < readings.len() && #[trigger] readings[k] is Err && (forall|i: int|
            0 <= i < k ==> #[trigger] readings[i] is Ok) implies collected(readings) == Err::<
        Seq<Detection>,
        Fault,
    >(readings[k]->Err_0@) by {
        if k < n {
            assert(readings[k] is Ok);
        }
        if n < k {
            assert(readings[n as int] is Ok);
        }
        assert(k == n);
    }
}

proof fn lemma_readable(readings: Seq<Reading>)
    ensures
        readable(readings) <= readings.len(),
        forall|i: int| 0 <= i < readable(readings) ==> #[trigger] readings[i] is Ok,
        readable(readings) < readings.len() ==> readings[readable(readings) as int] is Err,
    decreases readings.len(),
{
    if readings.len() > 0 && readings[0] is Ok {
        let rest = readings.drop_first();
        lemma_readable(rest);
        assert forall|i: int| 0 <= i < readable(readings) implies #[trigger] readings[i] is Ok by {
            if i > 0 {
                assert(rest[i - 1] is Ok);
            }
        }
    }
}

/// Whether a text ends in another.
pub open spec fn ends_in(s: Seq<char>, end: Seq<char>) -> bool {
    s.len() >= end.len() && s.skip(s.len() - end.len()) == end
}

/// As many files are counted as removed as there are that could be.
pub proof fn removals_are_counted(removed: Seq<Result<(), String>>)
    ensures
        removed_count(removed) == removed.filter(|r: Result<(), String>| r is Ok).len(),
    decreases removed.len(),
{
    reveal(Seq::filter);
    if removed.len() > 0 {
        removals_are_counted(removed.drop_last());
    }
}

/// Of each file that was to be removed one line tells, in its place: of one that is
/// gone its name, and of one that is not why.
pub proof fn removals_are_told(paths: Seq<Seq<char>>, removed: Seq<Result<(), String>>, i: int)
    requires
        paths.len() == removed.len(),
        0 <= i < paths.len(),
    ensures
        removal_notes(paths, removed).len() == paths.len(),
        removal_notes(paths, removed)[i] matches Told::Log(line) && match removed[i] {
            Ok(_) => file_name_of(paths[i]) matches Some(name) ==> ends_in(line, name),
            Err(e) => ends_in(line, e@),
        },
{
    let line = removal_notes(paths, removed)[i]->Log_0;
    match removed[i] {
        Ok(_) => {
            if let Some(name) = file_name_of(paths[i]) {
                assert(line.skip(line.len() - name.len()) =~= name);
            }
        },
        Err(e) => {
            assert(line.skip(line.len() - e@.len()) =~= e@);
        },
    }
}

/// A file is looked after just where it lies beside one of the videos.
pub proof fn the_sidecars_of_all_videos_are_looked_after(files: Seq<Seq<char>>, path: Seq<char>)
    ensures
        all_sidecars(files).contains(path) <==> exists|i: int|
            0 <= i < files.len() && sidecars(#[trigger] files[i]).contains(path),
        all_sidecars(files).len() == 3 * files.len(),
    decreases files.len(),
{
    if files.len() > 0 {
        let front = files.drop_last();
        let a = all_sidecars(front);
        let b = sidecars(files.last());
        the_sidecars_of_all_videos_are_looked_after(front, path);
        if (a + b).contains(path) {
            let k = choose|k: int| 0 <= k < (a + b).len() && (a + b)[k] == path;
            if k < a.len() {
                assert(a[k] == path);
                let i = choose|i: int|
                    0 <= i < front.len() && sidecars(#[trigger] front[i]).contains(path);
                assert(files[i] == front[i]);
            } else {
                assert(b[k - a.len()] == path);
                assert(files[files.len() - 1] == files.last());
            }
        }
        if exists|i: int| 0 <= i < files.len() && sidecars(#[trigger] files[i]).contains(path) {
            let i = choose|i: int|
                0 <= i < files.len() && sidecars(#[trigger] files[i]).contains(path);
            if i < front.len() {
                assert(front[i] == files[i]);
                let k = choose|k: int| 0 <= k < a.len() && a[k] == path;
                assert((a + b)[k] == path);
            } else {
                let k = choose|k: int| 0 <= k < b.len() && b[k] == path;
                assert((a + b)[a.len() + k] == path);
            }
        }
    }
}

/// Just those files are removed that were not there when a run began, and are
/// there now.
pub proof fn what_a_run_left_is_removed(snapshot: SidecarSnapshot, now: Seq<bool>, path: Seq<Step>)
    requires
        now.len() == snapshot.entries@.len(),
    ensures
        holds(snapshot.new_among(now, snapshot.entries@.len()), path) <==> exists|i: int|
            0 <= i < now.len() && #[trigger] now[i] && !snapshot.entries@[i].1 && steps(
                snapshot.entries@[i].0@,
            ) == path,
{
    only_new_files_are_removed(snapshot, now);
    let n = snapshot.entries@.len();
    let removed = snapshot.new_among(now, n);
    if holds(removed, path) {
        let k = choose|k: int| 0 <= k < removed.len() && steps(#[trigger] removed[k]) == path;
        assert(was_left(snapshot, now, n, removed[k]));
        let i = choose|i: int|
            0 <= i < n && #[trigger] snapshot.is_new(now, i) && snapshot.entries@[i].0@
                == removed[k];
        assert(now[i]);
    }
    if exists|i: int|
        0 <= i < now.len() && #[trigger] now[i] && !snapshot.entries@[i].1 && steps(
            snapshot.entries@[i].0@,
        ) == path {
        let i = choose|i: int|
            0 <= i < now.len() && #[trigger] now[i] && !snapshot.entries@[i].1 && steps(
                snapshot.entries@[i].0@,
            ) == path;
        assert(snapshot.is_new(now, i));
    }
}

/// A run of needle went well just where it was started, was not stopped, and ended
/// with the code zero. That it was stopped is told before anything else.
pub proof fn runs_go_well_with_code_zero(ran: Result<ExecResult, String>, cmd: Seq<char>)
    ensures
        run_outcome(ran, cmd) is Ok <==> (ran matches Ok(r) && !r.cancelled && r.status == Some(
            0i32,
        )),
        ran matches Ok(r) ==> (run_outcome(ran, cmd) == Err::<(), Fault>(Fault::Cancelled)
            <==> r.cancelled),
        ran matches Err(e) ==> run_outcome(ran, cmd) == Err::<(), Fault>(Fault::Io(e@)),
{
}

/// The videos are compared just where the user did not stop it and the
/// fingerprints of two videos at least could be taken.
pub proof fn two_videos_are_compared(
    exe: Seq<char>,
    opts: DetectOptions,
    caps: CliCapabilities,
    files: Seq<Seq<char>>,
    failed: Seq<bool>,
    cancelled: bool,
)
    requires
        failed.len() == files.len(),
    ensures
        ({
            let m = analyzed_move(exe, opts, caps, files, failed, cancelled);
            &&& m.act is Search <==> !cancelled && exists|i: int, j: int|
                0 <= i < j < files.len() && !(#[trigger] failed[i]) && !(#[trigger] failed[j])
            &&& m.act is Search ==> m.act->Search_0.program == exe && m.act->Search_0.args
                == search_args(survivors_of(files, failed), opts, caps)
        }),
        begin_move(exe, files.len(), cancelled).act is AskHelp <==> files.len() >= 2 && !cancelled,
{
    let at = survivors_keep_their_order(files, failed);
    if at.len() >= 2 {
        assert(at[0] < at[1]);
        assert(!failed[at[0]] && !failed[at[1]]);
    }
    if exists|i: int, j: int|
        0 <= i < j < files.len() && !(#[trigger] failed[i]) && !(#[trigger] failed[j]) {
        let (i, j) = choose|i: int, j: int|
            0 <= i < j < files.len() && !(#[trigger] failed[i]) && !(#[trigger] failed[j]);
        let a = choose|k: int| 0 <= k < at.len() && #[trigger] at[k] == i;
        let b = choose|k: int| 0 <= k < at.len() && #[trigger] at[k] == j;
        assert(a != b);
    }
}

/// The results are read just where needle ran well and the user did not stop it.
pub proof fn results_are_read_after_a_good_run(
    opts: DetectOptions,
    ran: Result<ExecResult, String>,
    cancelled: bool,
)
    ensures
        searched_move(opts, ran, cancelled).act is Read <==> !cancelled && (ran matches Ok(r)
            && !r.cancelled && r.status == Some(0i32)),
{
}

/// As many videos are analysed at once as are wanted, but one at least, and no more
/// than there are. Unless something is wanted, that is one for two processors, and
/// no more than four.
pub proof fn videos_are_analysed_side_by_side(opts: DetectOptions, total: nat, cores: Option<usize>)
    ensures
        total > 0 ==> is_allowed(
            pool_size_spec(opts, total) as int,
            opts.analyze_parallelism as int,
            1,
            total as int,
        ),
        cores matches Some(n) ==> is_allowed(parallelism_for(cores), n as int / 2, 1, 4),
        cores is None ==> parallelism_for(cores) == 2,
{
}

/// Of what a program wrote, the last two hundred lines are kept, and all where
/// there are fewer.
pub proof fn the_last_lines_are_kept(lines: Seq<Seq<char>>, i: int)
    ensures
        lines.len() <= 200 ==> tail_of(lines) == lines,
        lines.len() > 200 ==> tail_of(lines).len() == 200,
        0 <= i < tail_of(lines).len() ==> tail_of(lines)[i] == lines[lines.len() - tail_of(
            lines,
        ).len() + i],
{
}

/// The lines of a stream are those that were written to it.
pub proof fn lines_are_those_of_their_stream(written: Seq<(Stream, Seq<char>)>, stream: Stream)
    ensures
        lines_of(written, stream) == written.filter(
            |w: (Stream, Seq<char>)| w.0 == stream,
        ).map_values(|w: (Stream, Seq<char>)| w.1),
    decreases written.len(),
{
    reveal(Seq::filter);
    let p = |w: (Stream, Seq<char>)| w.0 == stream;
    let f = |w: (Stream, Seq<char>)| w.1;
    if written.len() > 0 {
        let front = written.drop_last();
        lines_are_those_of_their_stream(front, stream);
        assert(front.filter(p).push(written.last()).map_values(f) =~= front.filter(p).map_values(
            f,
        ).push(written.last().1));
    }
    assert(lines_of(written, stream) =~= written.filter(p).map_values(f));
}

/// A program is looked for in the directory that the user named before anywhere
/// else, then in what is in it under `bin`, and then in each directory of the
/// search path, in its order.
pub proof fn named_directories_come_first(
    file: Seq<char>,
    named: Option<Seq<char>>,
    dirs: Seq<Seq<char>>,
    i: int,
)
    requires
        0 <= i < dirs.len(),
    ensures
        named matches Some(dir) ==> {
            let all = places(file, named, dirs);
            &&& all.len() == dirs.len() + 2
            &&& all[0] == joined_path(dir, file)
            &&& all[1] == joined_path(joined_path(dir, "bin"@), file)
            &&& all[2 + i] == joined_path(dirs[i], file)
        },
        named is None ==> {
            let all = places(file, named, dirs);
            &&& all.len() == dirs.len()
            &&& all[i] == joined_path(dirs[i], file)
        },
{
}

/// Of a list just those are chosen that are marked, in their order: `at` tells of
/// each that is chosen which it is.
pub proof fn marked_files_are_chosen(list: Seq<Seq<char>>, marks: Seq<bool>) -> (at: Seq<int>)
    requires
        marks.len() == list.len(),
    ensures
        at.len() == chosen(list, marks).len(),
        forall|k: int|
            0 <= k < at.len() ==> 0 <= #[trigger] at[k] < list.len() && marks[at[k]] && chosen(
                list,
                marks,
            )[k] == list[at[k]],
        forall|j: int, k: int| 0 <= j < k < at.len() ==> #[trigger] at[j] < #[trigger] at[k],
        forall|i: int| 0 <= i < list.len() && #[trigger] marks[i] ==> at.contains(i),
    decreases list.len(),
{
    if list.len() == 0 {
        Seq::empty()
    } else {
        let n = list.len() - 1;
        let front = marks.drop_last();
        let before = marked_files_are_chosen(list.drop_last(), front);
        assert forall|i: int| 0 <= i < n && #[trigger] marks[i] implies before.contains(i) by {
            assert(front[i] == marks[i]);
        }
        assert forall|k: int| 0 <= k < before.len() implies 0 <= #[trigger] before[k] < n
            && marks[before[k]] && chosen(list.drop_last(), front)[k] == list[before[k]] by {
            assert(front[before[k]] == marks[before[k]]);
        }
        if marks.last() {
            let at = before.push(n);
            assert forall|i: int| 0 <= i < list.len() && #[trigger] marks[i] implies at.contains(i) by {
                if i == n {
                    assert(at[before.len() as int] == n);
                } else {
                    let k = choose|k: int| 0 <= k < before.len() && before[k] == i;
                    assert(at[k] == i);
                }
            }
            at
        } else {
            before
        }
    }
}

/// What a detection ends with, now or once it has tidied up.
pub open spec fn is_bound_for(m: Move, result: Result<Seq<Detection>, Fault>) -> bool {
    ||| m.act == Act::Finish(result)
    ||| m.act is Clean && m.phase == (Phase::Clean { result })
}

/// A detection that is stopped, or has too few videos left, or whose search goes
/// wrong, ends with just that; one that went through ends with what was read.
pub proof fn detections_end_with_what_came_of_them(
    exe: Seq<char>,
    opts: DetectOptions,
    caps: CliCapabilities,
    files: Seq<Seq<char>>,
    failed: Seq<bool>,
    ran: Result<ExecResult, String>,
    cancelled: bool,
    notes: Seq<Told>,
    result: Result<Seq<Detection>, Fault>,
)
    requires
        failed.len() == files.len(),
    ensures
        is_bound_for(
            analyzed_move(exe, opts, caps, files, failed, true),
            Err(Fault::Cancelled),
        ),
        failed.filter(|f: bool| !f).len() < 2 ==> is_bound_for(
            analyzed_move(exe, opts, caps, files, failed, false),
            Err(Fault::NotEnoughEpisodes(failed.filter(|f: bool| !f).len())),
        ),
        run_outcome(ran, "needle search"@) matches Err(e) ==> is_bound_for(
            searched_move(opts, ran, cancelled),
            Err(e),
        ),
        run_outcome(ran, "needle search"@) is Ok && cancelled ==> is_bound_for(
            searched_move(opts, ran, cancelled),
            Err(Fault::Cancelled),
        ),
        is_bound_for(settle(opts, notes, result), result),
        settle(opts, notes, result).act is Clean <==> !opts.keep_sidecars,
{
    lemma_survivor_count(files, failed);
}

proof fn lemma_survivor_count(files: Seq<Seq<char>>, failed: Seq<bool>)
    requires
        failed.len() == files.len(),
    ensures
        survivors_of(files, failed).len() == failed.filter(|f: bool| !f).len(),
    decreases files.len(),
{
    reveal(Seq::filter);
    if files.len() > 0 {
        let front = failed.drop_last();
        lemma_survivor_count(files.drop_last(), front);
        lemma_survivors_same(files.drop_last(), failed, front);
    }
}

/// Only what is told of the files themselves decides.
proof fn lemma_survivors_same(files: Seq<Seq<char>>, a: Seq<bool>, b: Seq<bool>)
    requires
        files.len() <= a.len(),
        files.len() <= b.len(),
        forall|i: int| 0 <= i < files.len() ==> #[trigger] a[i] == b[i],
    ensures
        survivors_of(files, a) == survivors_of(files, b),
    decreases files.len(),
{
    if files.len() > 0 {
        lemma_survivors_same(files.drop_last(), a, b);
        assert(a[files.len() - 1] == b[files.len() - 1]);
    }
}

} // verus!
