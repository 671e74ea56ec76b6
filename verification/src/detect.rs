//! Detection: handing the videos to needle and taking back where each one has its
//! opening and its ending.
//!
//! There are two ways to use needle: as a program ([`cli`]), which is the usual
//! one, and as a library ([`library`]). Both give one result for each video, in
//! the order of the videos.
//!
//! The program is run in two steps. `needle analyze` takes the fingerprints of
//! one video at a time, so that there is something to report and a failure costs
//! one video only; `needle search` then compares them all. `needle search
//! --analyze` is never used: it would take all fingerprints again in one go.

use vstd::prelude::*;

use crate::error::{outcome, CoreError, Fault};
use crate::exec::answered;
use crate::model::Detection;
use crate::paths::{file_name, file_name_of, holds, holds_path, no_path_twice, steps};
use crate::pipeline::{display_name, segment_text, shown_name};
use crate::secs::{zero, Secs};
use crate::skipfile::{sidecar_paths, sidecars};
use crate::text::{decimal, decimal_text, joined, texts};

pub mod cli;
pub mod job;
pub mod library;

verus! {

/// What is told while detection goes on.
#[derive(Debug, PartialEq, Eq)]
pub enum DetectEvent {
    /// A new stage has begun.
    Stage(String),
    /// A line for the user to read.
    Log(String),
    /// A video is analysed, the `index`th of `total`.
    EpisodeDone { index: usize, total: usize, name: String },
    /// A video could not be analysed. The others are.
    EpisodeFailed { index: usize, total: usize, name: String, error: String },
}

/// What is told, with its texts as sequences of characters.
pub enum Told {
    Stage(Seq<char>),
    Log(Seq<char>),
    EpisodeDone { index: nat, total: nat, name: Seq<char> },
    EpisodeFailed { index: nat, total: nat, name: Seq<char>, error: Seq<char> },
}

impl View for DetectEvent {
    type V = Told;

    open spec fn view(&self) -> Told {
        match *self {
            DetectEvent::Stage(s) => Told::Stage(s@),
            DetectEvent::Log(s) => Told::Log(s@),
            DetectEvent::EpisodeDone { index, total, name } => Told::EpisodeDone {
                index: index as nat,
                total: total as nat,
                name: name@,
            },
            DetectEvent::EpisodeFailed { index, total, name, error } => Told::EpisodeFailed {
                index: index as nat,
                total: total as nat,
                name: name@,
                error: error@,
            },
        }
    }
}

/// The views of what is told.
pub open spec fn told(v: Seq<DetectEvent>) -> Seq<Told> {
    v.map_values(|e: DetectEvent| e@)
}

/// Adds to what is told.
pub fn tell(out: &mut Vec<DetectEvent>, event: DetectEvent)
    ensures
        told(final(out)@) == told(old(out)@).push(event@),
{
    let ghost before = out@;
    out.push(event);
    assert(told(out@) =~= told(before).push(event@));
}

/// Adds a line to what is told.
pub fn tell_log(out: &mut Vec<DetectEvent>, line: &str)
    ensures
        told(final(out)@) == told(old(out)@).push(Told::Log(line@)),
{
    tell(out, DetectEvent::Log(line.to_string()));
}

/// Adds the beginning of a stage to what is told.
pub fn tell_stage(out: &mut Vec<DetectEvent>, stage: &str)
    ensures
        told(final(out)@) == told(old(out)@).push(Told::Stage(stage@)),
{
    tell(out, DetectEvent::Stage(stage.to_string()));
}

/// How detection is done.
#[derive(Debug, Clone, Copy, PartialEq, Eq, Structural)]
pub struct DetectOptions {
    /// Whether endings are looked for too.
    pub include_endings: bool,
    /// How much two fingerprints may differ: 0 not at all, 32 altogether.
    pub hash_match_threshold: u32,
    /// How long an opening is at least.
    pub min_opening_duration_secs: u32,
    /// How long an ending is at least.
    pub min_ending_duration_secs: u32,
    /// By how much an opening starts later and an ending ends earlier than found.
    pub time_padding_secs: Secs,
    /// Whether needle uses threads.
    pub threading: bool,
    /// Whether fingerprints that are there already are taken anew. Those that were
    /// taken without endings would be used as they are.
    pub force_reanalyze: bool,
    /// Whether the files stay that needle leaves beside the videos. If not, those
    /// that were not there before are removed.
    pub keep_sidecars: bool,
    /// How many videos are analysed at once.
    pub analyze_parallelism: usize,
}

/// How many videos are analysed at once on a machine with so many processors:
/// half of them, at least one and at most four.
pub open spec fn parallelism_for(cores: Option<usize>) -> int {
    let half = (match cores {
        Some(n) => n,
        None => 4,
    }) / 2;
    if half < 1 {
        1
    } else if half > 4 {
        4
    } else {
        half as int
    }
}

/// How many videos are analysed at once, unless the user wants something else.
/// Where the number of processors is unknown, four are assumed.
pub fn default_parallelism(cores: Option<usize>) -> (r: usize)
    ensures
        r == parallelism_for(cores),
        1 <= r <= 4,
{
    let n: usize = match cores {
        Some(n) => n,
        None => 4,
    };
    let half: usize = n / 2;
    if half < 1 {
        1
    } else if half > 4 {
        4
    } else {
        half
    }
}

/// What is done unless the user wants something else, on a machine with so many
/// processors.
pub open spec fn default_options(cores: Option<usize>) -> DetectOptions {
    DetectOptions {
        include_endings: true,
        hash_match_threshold: 10,
        min_opening_duration_secs: 20,
        min_ending_duration_secs: 20,
        time_padding_secs: zero(),
        threading: true,
        force_reanalyze: false,
        keep_sidecars: false,
        analyze_parallelism: parallelism_for(cores) as usize,
    }
}

impl DetectOptions {
    /// What is done unless the user wants something else: needle's own settings.
    pub fn new(cores: Option<usize>) -> (r: DetectOptions)
        ensures
            r == default_options(cores),
    {
        DetectOptions {
            include_endings: true,
            hash_match_threshold: 10,
            min_opening_duration_secs: 20,
            min_ending_duration_secs: 20,
            time_padding_secs: Secs::Finite(0),
            threading: true,
            force_reanalyze: false,
            keep_sidecars: false,
            analyze_parallelism: default_parallelism(cores),
        }
    }
}

/// A flag that the user's wish to stop raises. It is shared between threads; what
/// it holds at a moment is known only by looking.
pub type CancelFlag = std::sync::Arc<std::sync::atomic::AtomicBool>;

/// A flag that is not raised: one that `AtomicBool::new` gives for `false`. What
/// it holds later is for the threads that share it to say.
pub fn new_cancel_flag() -> (r: CancelFlag)
    ensures
        call_ensures(std::sync::atomic::AtomicBool::new, (false,), *r),
{
    std::sync::Arc::new(std::sync::atomic::AtomicBool::new(false))
}

/// Turns the user's wish to stop into the error for it.
pub fn check_cancel(cancelled: bool) -> (r: Result<(), CoreError>)
    ensures
        outcome(r) == (if cancelled {
            Err(Fault::Cancelled)
        } else {
            Ok(())
        }),
{
    if cancelled {
        Err(CoreError::Cancelled)
    } else {
        Ok(())
    }
}

/// Which files were beside the videos before needle ran.
///
/// Only what this run left is removed after it. Fingerprints that the user took
/// are the user's.
#[derive(Debug)]
pub struct SidecarSnapshot {
    /// Each file that needle may leave, and whether it was there.
    pub entries: Vec<(String, bool)>,
}

/// Every file that needle may leave beside the videos.
pub open spec fn all_sidecars(files: Seq<Seq<char>>) -> Seq<Seq<char>>
    decreases files.len(),
{
    if files.len() == 0 {
        Seq::empty()
    } else {
        all_sidecars(files.drop_last()) + sidecars(files.last())
    }
}

impl SidecarSnapshot {
    /// The paths of the entries.
    pub open spec fn paths(self) -> Seq<Seq<char>> {
        self.entries@.map_values(|e: (String, bool)| e.0@)
    }

    /// Looks at every file that needle may leave beside the videos.
    pub fn take<F: Fn(&str) -> bool>(files: &[String], is_file: F) -> (r: SidecarSnapshot)
        requires
            forall|p: &str| call_requires(is_file, (p,)),
        ensures
            r.paths() == all_sidecars(texts(files@)),
            forall|i: int|
                0 <= i < r.entries@.len() ==> answered(
                    is_file,
                    (#[trigger] r.entries@[i]).0@,
                    r.entries@[i].1,
                ),
    {
        let mut entries: Vec<(String, bool)> = Vec::new();
        let ghost view = |e: (String, bool)| e.0@;
        assert(entries@.map_values(view) =~= Seq::<Seq<char>>::empty());
        let mut i: usize = 0;
        while i < files.len()
            invariant
                i <= files@.len(),
                view == (|e: (String, bool)| e.0@),
                forall|p: &str| call_requires(is_file, (p,)),
                entries@.map_values(view) == all_sidecars(texts(files@).take(i as int)),
                forall|k: int|
                    0 <= k < entries@.len() ==> answered(
                        is_file,
                        (#[trigger] entries@[k]).0@,
                        entries@[k].1,
                    ),
            decreases files@.len() - i,
        {
            let paths = sidecar_paths(files[i].as_str());
            let ghost before = entries@.map_values(view);
            let mut j: usize = 0;
            assert(before + texts(paths@).take(0) =~= before);
            while j < paths.len()
                invariant
                    j <= paths@.len(),
                    view == (|e: (String, bool)| e.0@),
                    forall|p: &str| call_requires(is_file, (p,)),
                    entries@.map_values(view) == before + texts(paths@).take(j as int),
                    forall|k: int|
                        0 <= k < entries@.len() ==> answered(
                            is_file,
                            (#[trigger] entries@[k]).0@,
                            entries@[k].1,
                        ),
                decreases paths@.len() - j,
            {
                let place = paths[j].as_str();
                let existed = is_file(place);
                assert(answered(is_file, place@, existed));
                let ghost old_entries = entries@;
                entries.push((paths[j].clone(), existed));
                j += 1;
                assert(entries@.map_values(view) =~= old_entries.map_values(view).push(place@));
                assert(texts(paths@).take(j as int) =~= texts(paths@).take(j - 1).push(place@));
                assert(entries@.map_values(view) =~= before + texts(paths@).take(j as int));
            }
            assert(texts(paths@).take(j as int) =~= texts(paths@));
            assert(texts(files@).take(i + 1).drop_last() =~= texts(files@).take(i as int));
            i += 1;
        }
        assert(texts(files@).take(i as int) =~= texts(files@));
        SidecarSnapshot { entries }
    }

    /// Whether the `i`th file is to be removed: it is there and was not before.
    pub open spec fn is_new(self, now: Seq<bool>, i: int) -> bool {
        now[i] && !self.entries@[i].1
    }

    /// The first `n` files' part of what is to be removed. Two videos can share a
    /// file, which is removed once.
    pub open spec fn new_among(self, now: Seq<bool>, n: nat) -> Seq<Seq<char>>
        decreases n,
    {
        if n == 0 {
            Seq::empty()
        } else {
            let before = self.new_among(now, (n - 1) as nat);
            let path = self.entries@[n - 1].0@;
            if self.is_new(now, n - 1) && !holds(before, steps(path)) {
                before.push(path)
            } else {
                before
            }
        }
    }

    /// The files that this run left, each once: those that are there now and were
    /// not before. `now` tells of each entry whether it is there now.
    pub fn left_behind(&self, now: &[bool]) -> (r: Vec<String>)
        requires
            now@.len() == self.entries@.len(),
        ensures
            texts(r@) == self.new_among(now@, self.entries@.len()),
            no_path_twice(texts(r@)),
    {
        let mut out: Vec<String> = Vec::new();
        assert(texts(out@) =~= Seq::<Seq<char>>::empty());
        let mut i: usize = 0;
        while i < self.entries.len()
            invariant
                i <= self.entries@.len(),
                now@.len() == self.entries@.len(),
                texts(out@) == self.new_among(now@, i as nat),
                no_path_twice(texts(out@)),
            decreases self.entries@.len() - i,
        {
            let ghost before = texts(out@);
            if now[i] && !self.entries[i].1 && !holds_path(&out, self.entries[i].0.as_str()) {
                let ghost path = self.entries@[i as int].0@;
                out.push(self.entries[i].0.clone());
                assert(texts(out@) =~= before.push(path));
                assert forall|a: int, b: int| 0 <= a < b < texts(out@).len() implies steps(
                    #[trigger] texts(out@)[a],
                ) != steps(#[trigger] texts(out@)[b]) by {
                    assert(texts(out@)[a] == before[a]);
                    if b < before.len() {
                        assert(texts(out@)[b] == before[b]);
                    }
                }
            }
            i += 1;
        }
        out
    }
}

/// What is told of the removal of one file.
pub open spec fn removal_note(path: Seq<char>, removed: Result<(), String>) -> Told {
    match removed {
        Ok(_) => Told::Log(
            "已清理临时文件："@ + match file_name_of(path) {
                Some(n) => n,
                None => Seq::empty(),
            },
        ),
        Err(e) => Told::Log("清理 "@ + path + " 失败（不影响结果）："@ + e@),
    }
}

/// What is told of the removal of files.
pub open spec fn removal_notes(paths: Seq<Seq<char>>, removed: Seq<Result<(), String>>) -> Seq<
    Told,
> {
    Seq::new(paths.len(), |i: int| removal_note(paths[i], removed[i]))
}

/// How many files were removed.
pub open spec fn removed_count(removed: Seq<Result<(), String>>) -> nat
    decreases removed.len(),
{
    if removed.len() == 0 {
        0
    } else {
        removed_count(removed.drop_last()) + if removed.last() is Ok {
            1nat
        } else {
            0nat
        }
    }
}

/// Tells of the removal of the files that were left, and counts those that are
/// gone. A file that cannot be removed makes no failure of a detection that went
/// well.
pub fn cleanup_new(
    paths: &[String],
    removed: &[Result<(), String>],
    emit: &mut Vec<DetectEvent>,
) -> (r: usize)
    requires
        paths@.len() == removed@.len(),
    ensures
        r == removed_count(removed@),
        told(final(emit)@) == told(old(emit)@) + removal_notes(texts(paths@), removed@),
{
    let ghost before = told(emit@);
    let ghost notes = removal_notes(texts(paths@), removed@);
    let mut count: usize = 0;
    let mut i: usize = 0;
    assert(before + notes.take(0) =~= before);
    while i < paths.len()
        invariant
            i <= paths@.len(),
            paths@.len() == removed@.len(),
            notes == removal_notes(texts(paths@), removed@),
            count == removed_count(removed@.take(i as int)),
            count <= i,
            told(emit@) == before + notes.take(i as int),
        decreases paths@.len() - i,
    {
        assert(removed@.take(i + 1).drop_last() =~= removed@.take(i as int));
        match &removed[i] {
            Ok(_) => {
                count += 1;
                let name = match file_name(paths[i].as_str()) {
                    Some(n) => n,
                    None => String::new(),
                };
                assert(name@ == (match file_name_of(paths@[i as int]@) {
                    Some(n) => n,
                    None => Seq::<char>::empty(),
                }));
                tell_log(emit, "已清理临时文件：".to_string().concat(name.as_str()).as_str());
            },
            Err(e) => {
                let line = "清理 ".to_string().concat(paths[i].as_str()).concat(
                    " 失败（不影响结果）：",
                ).concat(e.as_str());
                tell_log(emit, line.as_str());
            },
        }
        i += 1;
        assert(told(emit@) =~= before + notes.take(i as int));
    }
    assert(removed@.take(i as int) =~= removed@);
    assert(notes.take(i as int) =~= notes);
    count
}

/// What was read of one video's results.
pub type Reading = Result<Option<Detection>, CoreError>;

/// What is told of one video's results.
pub open spec fn finding_text(d: Option<Detection>) -> Seq<char> {
    match d {
        Some(d) => joined(
            (match d.opening {
                Some(s) => seq!["片头 "@ + segment_text(s)],
                None => Seq::empty(),
            }) + (match d.ending {
                Some(s) => seq!["片尾 "@ + segment_text(s)],
                None => Seq::empty(),
            }),
            "，"@,
        ),
        None => "未检测到片头或片尾"@,
    }
}

/// The line on the results of the `i`th video.
pub open spec fn finding_note(files: Seq<Seq<char>>, i: int, d: Option<Detection>) -> Told {
    Told::Log(
        "["@ + decimal((i + 1) as nat) + "/"@ + decimal(files.len()) + "] "@ + shown_name(files[i])
            + " -> "@ + finding_text(d),
    )
}

/// How many results could be read before the first one that could not.
pub open spec fn readable(readings: Seq<Reading>) -> nat
    decreases readings.len(),
{
    if readings.len() == 0 || readings[0] is Err {
        0
    } else {
        1 + readable(readings.drop_first())
    }
}

/// The result that was read; where there was none, one without opening and ending.
pub open spec fn result_of(r: Reading) -> Detection {
    match r {
        Ok(Some(d)) => d,
        _ => Detection { opening: None, ending: None },
    }
}

/// The results, each in the place of its video. An error where one could not be
/// read, and where there is no opening and no ending in any of them.
pub open spec fn collected(readings: Seq<Reading>) -> Result<Seq<Detection>, Fault> {
    let n = readable(readings);
    let all = readings.map_values(|r: Reading| result_of(r));
    if n < readings.len() {
        Err(readings[n as int]->Err_0@)
    } else if forall|i: int| 0 <= i < all.len() ==> (#[trigger] all[i]).empty() {
        Err(Fault::NoDetectionAtAll)
    } else {
        Ok(all)
    }
}

/// What is told of the results, up to the first that could not be read.
pub open spec fn finding_notes(files: Seq<Seq<char>>, readings: Seq<Reading>) -> Seq<Told> {
    Seq::new(
        readable(readings),
        |i: int| finding_note(files, i, readings[i]->Ok_0),
    )
}

/// A list of detections, or the error, by their views.
pub open spec fn list_view(r: Result<Vec<Detection>, CoreError>) -> Result<Seq<Detection>, Fault> {
    match r {
        Ok(v) => Ok(v@),
        Err(e) => Err(e@),
    }
}

proof fn lemma_readable(readings: Seq<Reading>, n: int)
    requires
        0 <= n <= readings.len(),
        forall|i: int| 0 <= i < n ==> (#[trigger] readings[i]) is Ok,
        n < readings.len() ==> readings[n] is Err,
    ensures
        readable(readings) == n,
    decreases n,
{
    if n > 0 {
        let rest = readings.drop_first();
        assert(readings[0] is Ok);
        assert forall|i: int| 0 <= i < n - 1 implies (#[trigger] rest[i]) is Ok by {
            assert(readings[i + 1] is Ok);
        }
        lemma_readable(rest, n - 1);
    }
}

fn describe_finding(d: &Option<Detection>) -> (r: String)
    ensures
        r@ == finding_text(*d),
{
    match d {
        Some(d) => {
            let mut parts: Vec<String> = Vec::new();
            if let Some(s) = d.opening {
                parts.push("片头 ".to_string().concat(s.display().as_str()));
            }
            if let Some(s) = d.ending {
                parts.push("片尾 ".to_string().concat(s.display().as_str()));
            }
            assert(texts(parts@) =~= (match d.opening {
                Some(s) => seq!["片头 "@ + segment_text(s)],
                None => Seq::empty(),
            }) + (match d.ending {
                Some(s) => seq!["片尾 "@ + segment_text(s)],
                None => Seq::empty(),
            }));
            crate::text::join(&parts, "，")
        },
        None => "未检测到片头或片尾".to_string(),
    }
}

/// Puts the results together that were read for the videos, one for each and in
/// their order, and tells of each.
pub fn collect_detections(
    files: &[String],
    readings: &[Reading],
    emit: &mut Vec<DetectEvent>,
) -> (r: Result<Vec<Detection>, CoreError>)
    requires
        files@.len() == readings@.len(),
    ensures
        list_view(r) == collected(readings@),
        told(final(emit)@) == told(old(emit)@) + finding_notes(texts(files@), readings@),
{
    let ghost before = told(emit@);
    let ghost names = texts(files@);
    let total: usize = files.len();
    let mut out: Vec<Detection> = Vec::new();
    let mut any = false;
    let mut i: usize = 0;
    let ghost notes = |n: int| Seq::new(
        n as nat,
        |k: int| finding_note(names, k, readings@[k]->Ok_0),
    );
    assert(before + notes(0) =~= before);
    while i < total
        invariant
            total == files@.len(),
            files@.len() == readings@.len(),
            i <= total,
            names == texts(files@),
            notes == (|n: int| Seq::new(
                n as nat,
                |k: int| finding_note(names, k, readings@[k]->Ok_0),
            )),
            before == told(old(emit)@),
            forall|k: int| 0 <= k < i ==> (#[trigger] readings@[k]) is Ok,
            out@.len() == i,
            forall|k: int| 0 <= k < i ==> #[trigger] out@[k] == result_of(readings@[k]),
            any == exists|k: int| 0 <= k < i && !(#[trigger] out@[k]).empty(),
            told(emit@) == before + notes(i as int),
        decreases total - i,
    {
        let det = match &readings[i] {
            Ok(d) => *d,
            Err(e) => {
                proof {
                    lemma_readable(readings@, i as int);
                    assert(notes(i as int) =~= finding_notes(names, readings@));
                }
                return Err(e.clone());
            },
        };
        let line = "[".to_string().concat(decimal_text(i as u128 + 1).as_str()).concat("/").concat(
            decimal_text(total as u128).as_str(),
        ).concat("] ").concat(display_name(files[i].as_str()).as_str()).concat(" -> ").concat(
            describe_finding(&det).as_str(),
        );
        tell_log(emit, line.as_str());
        let d = match det {
            Some(d) => d,
            None => Detection::default(),
        };
        let ghost earlier = out@;
        if !d.is_empty() {
            any = true;
        }
        out.push(d);
        proof {
            assert(forall|k: int| 0 <= k < i ==> out@[k] == earlier[k]);
            assert(out@[i as int] == d);
            if exists|k: int| 0 <= k < i && !(#[trigger] earlier[k]).empty() {
                let k = choose|k: int| 0 <= k < i && !(#[trigger] earlier[k]).empty();
                assert(!out@[k].empty());
            }
        }
        i += 1;
        assert(told(emit@) =~= before + notes(i as int));
    }
    proof {
        lemma_readable(readings@, total as int);
        assert(notes(total as int) =~= finding_notes(names, readings@));
        assert(out@ =~= readings@.map_values(|r: Reading| result_of(r)));
    }
    if !any {
        return Err(CoreError::NoDetectionAtAll);
    }
    Ok(out)
}

} // verus!
