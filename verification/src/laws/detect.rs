//! Laws of detection.

use vstd::prelude::*;

use crate::binary::{scaled_by, seconds};
use crate::detect::cli::{
    analyze_args, base_args, duration_within, padding_within, search_args, survivors_of,
    CliCapabilities, THRESHOLD_MAX,
};
use crate::detect::library::{library_awaits, library_move, LibraryAct, LibraryEvent, LibraryStage};
use crate::detect::job::{analyzed_move, cleaned_move, searched_move, settle, Act, Move};
use crate::detect::{collected, readable, result_of, DetectOptions, Reading, SidecarSnapshot, Told};
use crate::error::Fault;
use crate::exec::ExecResult;
use crate::model::Detection;
use crate::paths::{holds, no_path_twice, steps};
use crate::numbers::fixed_secs;
use crate::text::decimal;

verus! {

/// A detection that succeeds gives one result for each video, in the place of the
/// video: what was read for it, or nothing. In one of them at least something was
/// found.
pub proof fn results_belong_to_their_videos(readings: Seq<Reading>)
    requires
        collected(readings) is Ok,
    ensures
        ({
            let list = collected(readings)->Ok_0;
            &&& list.len() == readings.len()
            &&& forall|i: int|
                0 <= i < list.len() ==> #[trigger] list[i] == result_of(readings[i])
            &&& forall|i: int| 0 <= i < readings.len() ==> #[trigger] readings[i] is Ok
            &&& exists|i: int| 0 <= i < list.len() && !(#[trigger] list[i]).empty()
        }),
{
    lemma_all_readable(readings);
}

proof fn lemma_all_readable(readings: Seq<Reading>)
    ensures
        readable(readings) <= readings.len(),
        readable(readings) == readings.len() ==> forall|i: int|
            0 <= i < readings.len() ==> #[trigger] readings[i] is Ok,
    decreases readings.len(),
{
    if readings.len() > 0 && readings[0] is Ok {
        let rest = readings.drop_first();
        lemma_all_readable(rest);
        if readable(readings) == readings.len() {
            assert forall|i: int| 0 <= i < readings.len() implies #[trigger] readings[i] is Ok by {
                if i > 0 {
                    assert(rest[i - 1] is Ok);
                }
            }
        }
    }
}

/// Whether a path is one of the first `n`, and is there now but was not before.
pub open spec fn was_left(s: SidecarSnapshot, now: Seq<bool>, n: nat, path: Seq<char>) -> bool {
    exists|i: int| 0 <= i < n && #[trigger] s.is_new(now, i) && s.entries@[i].0@ == path
}

/// Of the files beside the videos just those are removed that this run left, each
/// once: a file that was there before stays, and so does one that is not there.
pub proof fn only_new_files_are_removed(snapshot: SidecarSnapshot, now: Seq<bool>)
    requires
        now.len() == snapshot.entries@.len(),
    ensures
        ({
            let removed = snapshot.new_among(now, snapshot.entries@.len());
            &&& forall|k: int|
                0 <= k < removed.len() ==> was_left(
                    snapshot,
                    now,
                    snapshot.entries@.len(),
                    #[trigger] removed[k],
                )
            &&& forall|i: int|
                0 <= i < snapshot.entries@.len() && #[trigger] snapshot.is_new(now, i) ==> holds(
                    removed,
                    steps(snapshot.entries@[i].0@),
                )
            &&& no_path_twice(removed)
        }),
{
    lemma_new_among(snapshot, now, snapshot.entries@.len());
}

/// To clean up again removes nothing: where the removed files are gone and no other
/// has come, none is left.
pub proof fn cleaning_up_again_removes_nothing(
    snapshot: SidecarSnapshot,
    now: Seq<bool>,
    later: Seq<bool>,
)
    requires
        now.len() == snapshot.entries@.len(),
        later.len() == snapshot.entries@.len(),
        forall|i: int|
            0 <= i < later.len() && #[trigger] later[i] ==> now[i] && !holds(
                snapshot.new_among(now, snapshot.entries@.len()),
                steps(snapshot.entries@[i].0@),
            ),
    ensures
        snapshot.new_among(later, snapshot.entries@.len()).len() == 0,
{
    let n = snapshot.entries@.len();
    lemma_new_among(snapshot, now, n);
    lemma_new_among(snapshot, later, n);
    let again = snapshot.new_among(later, n);
    if again.len() > 0 {
        assert(was_left(snapshot, later, n, again[0]));
        let i = choose|i: int|
            0 <= i < n && #[trigger] snapshot.is_new(later, i) && snapshot.entries@[i].0@
                == again[0];
        assert(later[i]);
        assert(snapshot.is_new(now, i));
    }
}

proof fn lemma_new_among(s: SidecarSnapshot, now: Seq<bool>, n: nat)
    requires
        n <= s.entries@.len(),
    ensures
        forall|k: int|
            0 <= k < s.new_among(now, n).len() ==> was_left(
                s,
                now,
                n,
                #[trigger] s.new_among(now, n)[k],
            ),
        forall|i: int|
            0 <= i < n && #[trigger] s.is_new(now, i) ==> holds(
                s.new_among(now, n),
                steps(s.entries@[i].0@),
            ),
        no_path_twice(s.new_among(now, n)),
    decreases n,
{
    if n > 0 {
        let m = (n - 1) as nat;
        lemma_new_among(s, now, m);
        let before = s.new_among(now, m);
        let all = s.new_among(now, n);
        let path = s.entries@[n - 1].0@;
        assert(forall|k: int| 0 <= k < before.len() ==> all[k] == before[k]);
        assert forall|k: int| 0 <= k < all.len() implies was_left(s, now, n, #[trigger] all[k]) by {
            if k < before.len() {
                assert(was_left(s, now, m, before[k]));
                let i = choose|i: int|
                    0 <= i < m && #[trigger] s.is_new(now, i) && s.entries@[i].0@ == before[k];
                assert(s.is_new(now, i) && s.entries@[i].0@ == all[k]);
            } else {
                assert(s.is_new(now, n - 1) && s.entries@[n - 1].0@ == all[k]);
            }
        }
        assert forall|i: int| 0 <= i < n && #[trigger] s.is_new(now, i) implies holds(
            all,
            steps(s.entries@[i].0@),
        ) by {
            if i < m || holds(before, steps(path)) {
                let want = steps(s.entries@[i].0@);
                assert(holds(before, want));
                let j = choose|j: int| 0 <= j < before.len() && steps(#[trigger] before[j]) == want;
                assert(steps(all[j]) == want);
            } else {
                assert(steps(all[before.len() as int]) == steps(path));
            }
        }
    } else {
        assert(s.new_among(now, n).len() == 0);
    }
}

proof fn lemma_decimal_start(n: nat)
    ensures
        decimal(n).len() > 0,
        decimal(n)[0] != '-',
    decreases n,
{
    if n >= 10 {
        lemma_decimal_start(n / 10);
        assert(decimal(n)[0] == decimal(n / 10)[0]);
    }
}

/// needle is never told to take all fingerprints again while it compares the
/// videos: `--analyze` is not among the options of the search. The videos come
/// last, behind `--`, so that none is taken for an option.
pub proof fn the_search_never_analyzes(
    videos: Seq<Seq<char>>,
    opts: DetectOptions,
    caps: CliCapabilities,
    i: int,
)
    requires
        0 <= i < search_args(videos, opts, caps).len() - videos.len(),
    ensures
        search_args(videos, opts, caps)[i] != "--analyze"@,
        search_args(videos, opts, caps)[search_args(videos, opts, caps).len() - videos.len() - 1]
            == "--"@,
        search_args(videos, opts, caps).skip(search_args(videos, opts, caps).len() - videos.len())
            == videos,
{
    reveal_strlit("--analyze");
    reveal_strlit("--no-threading");
    reveal_strlit("search");
    reveal_strlit("--write-skip-files");
    reveal_strlit("--hash-match-threshold");
    reveal_strlit("--min-opening-duration");
    reveal_strlit("--min-ending-duration");
    reveal_strlit("--time-padding");
    reveal_strlit("--include-endings");
    reveal_strlit("--");
    reveal_strlit("-");
    lemma_decimal_start(
        if opts.hash_match_threshold > THRESHOLD_MAX {
            THRESHOLD_MAX as nat
        } else {
            opts.hash_match_threshold as nat
        },
    );
    lemma_decimal_start(duration_within(opts.min_opening_duration_secs) as nat);
    lemma_decimal_start(duration_within(opts.min_ending_duration_secs) as nat);
    let padding = fixed_secs(padding_within(opts.time_padding_secs), 1, 3);
    assert(padding[0] != '-') by {
        let n = padding_within(opts.time_padding_secs)->Finite_0 as nat;
        let b = scaled_by(seconds(n), 1, 1);
        let unit = vstd::arithmetic::power::pow(10, 3) as nat;
        let whole = crate::numbers::nearest(b.num() * unit, b.den()) / unit;
        lemma_decimal_start(whole);
        assert(padding[0] == decimal(whole)[0]);
    }
    let args = search_args(videos, opts, caps);
    let base = base_args(opts).len() as int;
    assert(args.skip(args.len() - videos.len()) =~= videos);
    let want = "--analyze"@;
    assert(want[0] == '-' && want.len() == 9 && want[2] == 'a');
    if i < base {
        assert(args[i] == "--no-threading"@);
    } else if i < base + 10 {
        assert(i == base || i == base + 1 || i == base + 2 || i == base + 3 || i == base + 4 || i
            == base + 5 || i == base + 6 || i == base + 7 || i == base + 8 || i == base + 9);
        assert(args[base] == "search"@);
        assert(args[base + 1] == "--write-skip-files"@);
        assert(args[base + 2] == "--hash-match-threshold"@);
        assert(args[base + 4] == "--min-opening-duration"@);
        assert(args[base + 6] == "--min-ending-duration"@);
        assert(args[base + 8] == "--time-padding"@);
        assert(args[base + 9] == padding);
    } else {
        assert(args[i] == "--include-endings"@ || args[i] == "--"@);
    }
}

/// An option that needle does not know is not given to it: without it the
/// arguments are the same whether endings are wanted or not.
pub proof fn unknown_options_are_not_given(
    video: Seq<char>,
    videos: Seq<Seq<char>>,
    opts: DetectOptions,
    caps: CliCapabilities,
)
    ensures
        !caps.analyze_include_endings ==> analyze_args(video, opts, caps) == analyze_args(
            video,
            DetectOptions { include_endings: false, ..opts },
            caps,
        ),
        !caps.search_include_endings ==> search_args(videos, opts, caps) == search_args(
            videos,
            DetectOptions { include_endings: false, ..opts },
            caps,
        ),
{
}

/// Whether a move leaves nothing of needle behind: the detection goes on, or
/// removes what needle left before it ends.
pub open spec fn cleans_up(m: Move) -> bool {
    m.phase !is Over
}

/// Unless they are to stay, what needle leaves is removed however the detection
/// goes: once fingerprints are being taken, it does not end without.
pub proof fn begun_detections_clean_up(
    exe: Seq<char>,
    opts: DetectOptions,
    caps: CliCapabilities,
    files: Seq<Seq<char>>,
    failed: Seq<bool>,
    ran: Result<ExecResult, String>,
    cancelled: bool,
    notes: Seq<Told>,
    result: Result<Seq<Detection>, Fault>,
)
    requires
        !opts.keep_sidecars,
    ensures
        cleans_up(analyzed_move(exe, opts, caps, files, failed, cancelled)),
        cleans_up(searched_move(opts, ran, cancelled)),
        cleans_up(settle(opts, notes, result)),
{
}

/// With needle as a library too, what it leaves is removed however the detection
/// goes, unless it is to stay: once a detection has begun, it ends after a clean-up
/// only, and with the result that it had before.
pub proof fn begun_library_detections_clean_up(
    files: Seq<Seq<char>>,
    opts: DetectOptions,
    stage: LibraryStage,
    event: LibraryEvent,
)
    requires
        !opts.keep_sidecars,
        library_awaits(files.len(), opts, stage, event),
    ensures
        ({
            let next = library_move(files, opts, stage, event);
            &&& next.act is Finish <==> stage is Clean
            &&& next.stage is Over <==> stage is Clean
            &&& next.act is Finish ==> next.act == LibraryAct::Finish(stage->result)
            &&& next.act is Clean <==> next.stage is Clean
        }),
{
}

/// The steps of a detection with needle as a library follow on each other: none is
/// left out, and none comes twice.
pub proof fn library_steps_come_in_order(
    files: Seq<Seq<char>>,
    opts: DetectOptions,
    stage: LibraryStage,
    event: LibraryEvent,
)
    requires
        library_awaits(files.len(), opts, stage, event),
    ensures
        ({
            let next = library_move(files, opts, stage, event);
            &&& next.act is Analyze ==> stage is Look
            &&& next.act is Compare ==> stage is Analyze
            &&& next.act is Read ==> stage is Compare
            &&& next.act !is Look
            &&& next.act is Analyze <==> next.stage is Analyze
            &&& next.act is Compare <==> next.stage is Compare
            &&& next.act is Read <==> next.stage is Read
        }),
{
}

/// Cleaning up changes nothing of what came of the detection.
pub proof fn cleaning_up_keeps_the_result(
    result: Result<Seq<Detection>, Fault>,
    paths: Seq<Seq<char>>,
    removed: Seq<Result<(), String>>,
)
    ensures
        cleaned_move(result, paths, removed).act == Act::Finish(result),
{
}

/// Videos whose fingerprints could be taken are compared in the order of the list,
/// and no others are.
pub proof fn survivors_keep_their_order(files: Seq<Seq<char>>, failed: Seq<bool>) -> (at: Seq<int>)
    requires
        failed.len() == files.len(),
    ensures
        at.len() == survivors_of(files, failed).len(),
        forall|k: int|
            0 <= k < at.len() ==> 0 <= #[trigger] at[k] < files.len() && !failed[at[k]]
                && survivors_of(files, failed)[k] == files[at[k]],
        forall|j: int, k: int| 0 <= j < k < at.len() ==> #[trigger] at[j] < #[trigger] at[k],
        forall|i: int|
            0 <= i < files.len() && !failed[i] ==> exists|k: int|
                0 <= k < at.len() && #[trigger] at[k] == i,
{
    lemma_survivors(files, failed)
}

proof fn lemma_survivors(files: Seq<Seq<char>>, failed: Seq<bool>) -> (at: Seq<int>)
    requires
        failed.len() >= files.len(),
    ensures
        at.len() == survivors_of(files, failed).len(),
        forall|k: int|
            0 <= k < at.len() ==> 0 <= #[trigger] at[k] < files.len() && !failed[at[k]]
                && survivors_of(files, failed)[k] == files[at[k]],
        forall|j: int, k: int| 0 <= j < k < at.len() ==> #[trigger] at[j] < #[trigger] at[k],
        forall|i: int|
            0 <= i < files.len() && !failed[i] ==> exists|k: int|
                0 <= k < at.len() && #[trigger] at[k] == i,
    decreases files.len(),
{
    if files.len() == 0 {
        Seq::empty()
    } else {
        let n = files.len() - 1;
        let before = lemma_survivors(files.drop_last(), failed);
        if failed[n] {
            before
        } else {
            let at = before.push(n);
            assert forall|i: int| 0 <= i < files.len() && !failed[i] implies exists|k: int|
                0 <= k < at.len() && #[trigger] at[k] == i by {
                if i == n {
                    assert(at[before.len() as int] == n);
                } else {
                    let k = choose|k: int| 0 <= k < before.len() && #[trigger] before[k] == i;
                    assert(at[k] == i);
                }
            }
            at
        }
    }
}

} // verus!
