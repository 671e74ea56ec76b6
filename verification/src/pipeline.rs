//! From a handful of paths to the finished videos: finding the videos, reading
//! what they are, planning the cuts, cutting one after the other.
//!
//! Outputs go to a directory of the user's choice, under the name of the input
//! with a suffix. The inputs are never written to.

use vstd::prelude::*;

use crate::cut::{CutMode, CutOutcome, CutRequest, Fraction};
use crate::error::CoreError;
use crate::model::{
    copy_segments, keep_segments, kept, stamp, sum_lengths, total_length, Detection, EpisodeFile,
    EpisodeTask, Segment, TaskKind,
};
use crate::paths::{
    extension, extension_in, extension_of, file_name, file_name_of, file_stem, file_stem_of,
    is_sorted_set, join_name, joined_name, last_name, name_beside, name_start, same_path,
    sort_paths, stem_in, steps,
};
use crate::laws::steps::outputs_are_not_their_inputs;
use crate::probe::MediaInfo;
use crate::secs::{zero, Secs};
use crate::text::{chars_of, joined, lower_chars, lower_text, same_chars, texts};

verus! {

/// The extensions of video files.
pub const VIDEO_EXTENSIONS: [&'static str; 11] = [
    "mp4",
    "mkv",
    "avi",
    "mov",
    "m4v",
    "webm",
    "ts",
    "wmv",
    "flv",
    "mpg",
    "mpeg",
];

/// The extensions of video files, as sequences of characters.
pub open spec fn video_extensions() -> Seq<Seq<char>> {
    seq![
        "mp4"@,
        "mkv"@,
        "avi"@,
        "mov"@,
        "m4v"@,
        "webm"@,
        "ts"@,
        "wmv"@,
        "flv"@,
        "mpg"@,
        "mpeg"@,
    ]
}

/// What is put behind the name of an output, unless the user wants something else.
pub const DEFAULT_OUTPUT_SUFFIX: &'static str = "_trimmed";

/// Whether the path is that of a video, by its extension, in upper or lower case.
pub open spec fn is_video(path: Seq<char>) -> bool {
    extension_of(path) matches Some(e) && video_extensions().contains(lower_text(e))
}

/// Whether the path is that of a video, by its extension.
pub fn is_video_file(path: &str) -> (r: bool)
    ensures
        r == is_video(path@),
{
    let ext = match extension(path) {
        Some(e) => e,
        None => {
            return false;
        },
    };
    let low = lower_chars(chars_of(ext.as_str()).as_slice());
    let known = VIDEO_EXTENSIONS;
    let ghost all = video_extensions();
    assert(forall|i: int| 0 <= i < 11 ==> (#[trigger] known@[i])@ == all[i]);
    let mut i: usize = 0;
    while i < 11
        invariant
            i <= 11,
            all == video_extensions(),
            low@ == lower_text(extension_of(path@)->0),
            extension_of(path@) is Some,
            forall|j: int| 0 <= j < 11 ==> (#[trigger] known@[j])@ == all[j],
            forall|j: int| 0 <= j < i ==> all[j] != low@,
        decreases 11 - i,
    {
        if same_chars(chars_of(known[i]).as_slice(), low.as_slice()) {
            assert(all[i as int] == low@);
            return true;
        }
        i += 1;
    }
    false
}

/// Whether the path leads to something hidden: its name begins with a point.
pub open spec fn hidden(path: Seq<char>) -> bool {
    file_name_of(path) matches Some(n) && n[0] == '.'
}

/// Whether the path leads to something hidden.
pub fn is_hidden(path: &str) -> (r: bool)
    ensures
        r == hidden(path@),
{
    match file_name(path) {
        Some(n) => {
            let v = chars_of(n.as_str());
            v[0] == '.'
        },
        None => false,
    }
}

/// What is found at a path.
#[derive(Debug, PartialEq, Eq)]
pub enum PathEntry {
    File(String),
    /// A directory with what is in it. One that cannot be read has nothing in it.
    Dir { path: String, entries: Vec<PathEntry> },
    /// Nothing: what was dragged in may be gone again.
    Missing(String),
}

impl PathEntry {
    pub open spec fn path(self) -> Seq<char> {
        match self {
            PathEntry::File(p) => p@,
            PathEntry::Dir { path, .. } => path@,
            PathEntry::Missing(p) => p@,
        }
    }

    /// How many entries there are in a directory.
    pub open spec fn width(self) -> nat {
        match self {
            PathEntry::Dir { entries, .. } => entries.len() as nat,
            _ => 0,
        }
    }

    /// The videos in this entry of a directory. What is hidden is passed over; so
    /// are directories, unless those are wanted too.
    pub open spec fn videos_inside(self, recursive: bool) -> Seq<Seq<char>>
        decreases self, self.width() + 2,
    {
        if hidden(self.path()) {
            Seq::empty()
        } else {
            match self {
                PathEntry::Dir { path, entries } => if recursive {
                    self.videos_among(entries.len() as nat, recursive)
                } else {
                    Seq::empty()
                },
                _ => if is_video(self.path()) {
                    seq![self.path()]
                } else {
                    Seq::empty()
                },
            }
        }
    }

    /// The videos in the first `n` entries of a directory.
    pub open spec fn videos_among(self, n: nat, recursive: bool) -> Seq<Seq<char>>
        decreases self, n + 1,
    {
        match self {
            PathEntry::Dir { path, entries } => if n == 0 || n > entries.len() {
                Seq::empty()
            } else {
                self.videos_among((n - 1) as nat, recursive) + entries[n
                    - 1].videos_inside(recursive)
            },
            _ => Seq::empty(),
        }
    }

    /// The videos at a path that the user gave.
    pub open spec fn videos(self, recursive: bool) -> Seq<Seq<char>> {
        match self {
            PathEntry::File(p) => if is_video(p@) {
                seq![p@]
            } else {
                Seq::empty()
            },
            PathEntry::Dir { path, entries } => self.videos_among(entries.len() as nat, recursive),
            PathEntry::Missing(_) => Seq::empty(),
        }
    }
}

/// The videos at the first paths that the user gave.
pub open spec fn videos_at(list: Seq<PathEntry>, recursive: bool) -> Seq<Seq<char>>
    decreases list.len(),
{
    if list.len() == 0 {
        Seq::empty()
    } else {
        videos_at(list.drop_last(), recursive) + list.last().videos(recursive)
    }
}

/// Whether a directory that was found in another one is to be looked into.
pub fn looks_into(path: &str, recursive: bool) -> (r: bool)
    ensures
        r == (recursive && !hidden(path@)),
{
    recursive && !is_hidden(path)
}

fn add_video(out: &mut Vec<String>, path: &String)
    ensures
        texts(final(out)@) == texts(old(out)@) + (if is_video(path@) {
            seq![path@]
        } else {
            Seq::empty()
        }),
{
    let ghost before = texts(out@);
    if is_video_file(path.as_str()) {
        out.push(path.clone());
        assert(texts(out@) =~= before + seq![path@]);
    } else {
        assert(texts(out@) =~= before + Seq::empty());
    }
}

/// Adds the videos in a directory to those that were found.
fn collect_videos(dir: &PathEntry, recursive: bool, out: &mut Vec<String>)
    ensures
        texts(final(out)@) == texts(old(out)@) + dir.videos_among(dir.width(), recursive),
    decreases dir,
{
    let ghost before = texts(out@);
    match dir {
        PathEntry::Dir { path: _, entries } => {
            let mut i: usize = 0;
            assert(before + dir.videos_among(0, recursive) =~= before);
            while i < entries.len()
                invariant
                    i <= entries@.len(),
                    *dir matches PathEntry::Dir { path: _, entries: same } && same == *entries,
                    texts(out@) == before + dir.videos_among(i as nat, recursive),
                decreases entries@.len() - i,
            {
                let entry = &entries[i];
                let ghost sofar = texts(out@);
                match entry {
                    PathEntry::Dir { path, entries: _ } => {
                        if looks_into(path.as_str(), recursive) {
                            collect_videos(entry, recursive, out);
                        }
                    },
                    PathEntry::File(path) => {
                        if !is_hidden(path.as_str()) {
                            add_video(out, path);
                        }
                    },
                    PathEntry::Missing(path) => {
                        if !is_hidden(path.as_str()) {
                            add_video(out, path);
                        }
                    },
                }
                assert(texts(out@) =~= sofar + entry.videos_inside(recursive));
                i += 1;
                assert(texts(out@) =~= before + dir.videos_among(i as nat, recursive));
            }
        },
        _ => {
            assert(texts(out@) =~= before + dir.videos_among(dir.width(), recursive));
        },
    }
}

/// The videos at the paths that the user gave, each once and in order. The names
/// of episodes are in the order of their playing.
///
/// A directory stands for the videos in it, and in the directories below where
/// `recursive` is set. Hidden ones are passed over.
pub fn scan_videos(paths: &[PathEntry], recursive: bool) -> (r: Result<Vec<String>, CoreError>)
    ensures
        r is Ok,
        is_sorted_set(texts(r->Ok_0@), videos_at(paths@, recursive)),
{
    let mut out: Vec<String> = Vec::new();
    assert(texts(out@) =~= Seq::<Seq<char>>::empty());
    let mut i: usize = 0;
    while i < paths.len()
        invariant
            i <= paths@.len(),
            texts(out@) == videos_at(paths@.take(i as int), recursive),
        decreases paths@.len() - i,
    {
        let entry = &paths[i];
        assert(paths@.take(i + 1).drop_last() =~= paths@.take(i as int));
        let ghost sofar = texts(out@);
        match entry {
            PathEntry::File(path) => {
                add_video(&mut out, path);
            },
            PathEntry::Dir { path: _, entries: _ } => {
                collect_videos(entry, recursive, &mut out);
            },
            PathEntry::Missing(_) => {
                assert(texts(out@) =~= sofar + Seq::empty());
            },
        }
        i += 1;
    }
    assert(paths@.take(paths@.len() as int) =~= paths@);
    Ok(sort_paths(&out))
}

/// The name of a path for the user: the file name, or the path where there is none.
pub open spec fn shown_name(path: Seq<char>) -> Seq<char> {
    match file_name_of(path) {
        Some(n) => n,
        None => path,
    }
}

/// The name of a path for the user.
pub fn display_name(path: &str) -> (r: String)
    ensures
        r@ == shown_name(path@),
{
    match file_name(path) {
        Some(n) => n,
        None => path.to_string(),
    }
}

/// The episode at a path, from its size and from what was read of its content.
/// One that could not be read stays on the list, with its length unknown.
pub open spec fn episode_of(
    path: String,
    size: Option<u64>,
    info: Result<MediaInfo, CoreError>,
) -> EpisodeFile {
    EpisodeFile {
        path,
        size_bytes: match size {
            Some(n) => n,
            None => 0,
        },
        duration_secs: match info {
            Ok(i) => Some(i.duration_secs),
            Err(_) => None,
        },
        width: match info {
            Ok(i) => i.width,
            Err(_) => None,
        },
        height: match info {
            Ok(i) => i.height,
            Err(_) => None,
        },
        has_audio: match info {
            Ok(i) => i.has_audio,
            Err(_) => true,
        },
    }
}

/// What comes next when the content of many videos is read.
#[derive(Debug, PartialEq)]
pub enum ProbeAction {
    /// The user stopped it.
    Cancelled,
    /// This video is read, the `current`th of `total`.
    Probe { path: String, current: usize, total: usize, name: String },
    /// All are read.
    Done,
}

/// The reading of many videos, one after the other.
#[derive(Debug)]
pub struct ProbeRun {
    pub paths: Vec<String>,
    /// The episodes that are read.
    pub files: Vec<EpisodeFile>,
}

impl ProbeRun {
    /// An episode has been read for each path before the next one.
    pub open spec fn wf(self) -> bool {
        &&& self.files@.len() <= self.paths@.len()
        &&& forall|i: int|
            0 <= i < self.files@.len() ==> (#[trigger] self.files@[i]).path == self.paths@[i]
    }

    /// Begins to read.
    pub fn new(paths: Vec<String>) -> (r: ProbeRun)
        ensures
            r.paths == paths,
            r.files@.len() == 0,
            r.wf(),
    {
        ProbeRun { paths, files: Vec::new() }
    }

    /// What comes next.
    pub fn next(&self, cancelled: bool) -> (r: ProbeAction)
        requires
            self.wf(),
        ensures
            match r {
                ProbeAction::Done => self.files@.len() == self.paths@.len(),
                ProbeAction::Cancelled => self.files@.len() < self.paths@.len() && cancelled,
                ProbeAction::Probe { path, current, total, name } => {
                    &&& self.files@.len() < self.paths@.len() && !cancelled
                    &&& path == self.paths@[self.files@.len() as int]
                    &&& current == self.files@.len() + 1
                    &&& total == self.paths@.len()
                    &&& name@ == shown_name(path@)
                },
            },
    {
        let done: usize = self.files.len();
        let total: usize = self.paths.len();
        if done == total {
            return ProbeAction::Done;
        }
        if cancelled {
            return ProbeAction::Cancelled;
        }
        let path = self.paths[done].clone();
        let name = display_name(path.as_str());
        ProbeAction::Probe { path, current: done + 1, total, name }
    }

    /// Takes what was read of the next video. That it could not be read does not
    /// stop the others.
    pub fn probed(&mut self, size: Option<u64>, info: Result<MediaInfo, CoreError>)
        requires
            old(self).wf(),
            old(self).files@.len() < old(self).paths@.len(),
        ensures
            final(self).paths == old(self).paths,
            final(self).files@ == old(self).files@.push(
                episode_of(old(self).paths@[old(self).files@.len() as int], size, info),
            ),
            final(self).wf(),
    {
        let path = self.paths[self.files.len()].clone();
        let size_bytes: u64 = match size {
            Some(n) => n,
            None => 0,
        };
        let file = match info {
            Ok(i) => EpisodeFile {
                path,
                size_bytes,
                duration_secs: Some(i.duration_secs),
                width: i.width,
                height: i.height,
                has_audio: i.has_audio,
            },
            Err(_) => EpisodeFile {
                path,
                size_bytes,
                duration_secs: None,
                width: None,
                height: None,
                has_audio: true,
            },
        };
        self.files.push(file);
    }
}

/// The path of an output: the name of the input with the suffix, under the
/// input's extension. What is in an mkv may not fit into anything else.
pub open spec fn output_for(input: Seq<char>, out_dir: Seq<char>, suffix: Seq<char>) -> Seq<char> {
    let stem = match file_stem_of(input) {
        Some(s) => s,
        None => "output"@,
    };
    let ext = match extension_of(input) {
        Some(e) => e,
        None => "mkv"@,
    };
    joined_name(out_dir, stem + suffix + "."@ + ext)
}

/// The path of an output.
pub fn output_path_for(input: &str, out_dir: &str, suffix: &str) -> (r: String)
    ensures
        r@ == output_for(input@, out_dir@, suffix@),
{
    let stem = match file_stem(input) {
        Some(s) => s,
        None => "output".to_string(),
    };
    let ext = match extension(input) {
        Some(e) => e,
        None => "mkv".to_string(),
    };
    let name = stem.concat(suffix).concat(".").concat(ext.as_str());
    join_name(out_dir, name.as_str())
}

/// An output beside the input: its name with the usual suffix.
pub open spec fn spare_output(input: Seq<char>) -> Seq<char> {
    let name = last_name(input);
    input.take(name_start(input)) + stem_in(name) + DEFAULT_OUTPUT_SUFFIX@ + "."@ + (
    match extension_in(name) {
        Some(e) => e,
        None => "mkv"@,
    })
}

/// The output that is planned for an input. It is never the input itself: where
/// the directory and the suffix would make it that, the usual suffix is put in.
pub open spec fn planned_output(input: Seq<char>, out_dir: Seq<char>, suffix: Seq<char>) -> Seq<
    char,
> {
    let output = output_for(input, out_dir, suffix);
    if steps(output) == steps(input) {
        spare_output(input)
    } else {
        output
    }
}

/// The output that is planned for an input, which is never the input itself.
pub fn plan_output(input: &str, out_dir: &str, suffix: &str) -> (r: String)
    ensures
        r@ == planned_output(input@, out_dir@, suffix@),
        steps(r@) != steps(input@),
{
    proof {
        outputs_are_not_their_inputs(input@, out_dir@, suffix@);
    }
    let output = output_path_for(input, out_dir, suffix);
    if !same_path(output.as_str(), input) {
        return output;
    }
    name_beside(input, DEFAULT_OUTPUT_SUFFIX)
}

/// What is kept of a video whose length may be unknown.
pub open spec fn planned_keep(duration: Option<Secs>, d: Detection) -> Seq<Segment> {
    match duration {
        Some(t) => kept(t, d),
        None => Seq::empty(),
    }
}

/// What is to be done with a video: it is ready where something is kept and
/// something is cut away.
pub open spec fn planned_kind(duration: Option<Secs>, d: Detection) -> TaskKind {
    match duration {
        None => TaskKind::DurationUnknown,
        Some(t) => if kept(t, d).len() == 0 {
            TaskKind::NothingToKeep
        } else if zero().before(t.minus_spec(total_length(kept(t, d)))) {
            TaskKind::Ready
        } else {
            TaskKind::NoDetection
        },
    }
}

/// Whether something is cut away of a task that is ready.
pub open spec fn removes_when_ready(task: EpisodeTask) -> bool {
    task.kind is Ready ==> (task.removed_spec() matches Some(t) && zero().before(t))
}

/// Whether a task follows from its file and from what was detected.
pub open spec fn is_planned(task: EpisodeTask) -> bool {
    &&& task.keep@ == planned_keep(task.file.duration_secs, task.detection)
    &&& task.kind == planned_kind(task.file.duration_secs, task.detection)
}

/// What was detected in the `i`th video; nothing where the list is too short.
pub open spec fn detection_at(detections: Seq<Detection>, i: int) -> Detection {
    if 0 <= i < detections.len() {
        detections[i]
    } else {
        Detection { opening: None, ending: None }
    }
}

/// What is kept, and what is to be done.
fn plan_cut(duration: Option<Secs>, detection: &Detection) -> (r: (Vec<Segment>, TaskKind))
    ensures
        r.0@ == planned_keep(duration, *detection),
        r.1 == planned_kind(duration, *detection),
{
    match duration {
        None => (Vec::new(), TaskKind::DurationUnknown),
        Some(t) => {
            let keep = keep_segments(t, detection);
            let kind = if keep.len() == 0 {
                TaskKind::NothingToKeep
            } else if Secs::Finite(0).lt(t.minus(sum_lengths(&keep))) {
                TaskKind::Ready
            } else {
                TaskKind::NoDetection
            };
            (keep, kind)
        },
    }
}

/// The plan for all videos. Each one is sorted into a kind, and only the ready
/// ones will be cut. No output is the path of its input. Where `detections` is too short, nothing was detected.
pub fn build_tasks(
    files: &[EpisodeFile],
    detections: &[Detection],
    out_dir: &str,
    suffix: &str,
) -> (r: Vec<EpisodeTask>)
    ensures
        r@.len() == files@.len(),
        forall|i: int|
            0 <= i < r@.len() ==> {
                let task = #[trigger] r@[i];
                &&& task.file == files@[i]
                &&& task.detection == detection_at(detections@, i)
                &&& task.output@ == planned_output(files@[i].path@, out_dir@, suffix@)
                &&& steps(task.output@) != steps(task.file.path@)
                &&& is_planned(task)
                &&& removes_when_ready(task)
            },
{
    let mut out: Vec<EpisodeTask> = Vec::new();
    let mut i: usize = 0;
    while i < files.len()
        invariant
            i <= files@.len(),
            out@.len() == i,
            forall|j: int|
                0 <= j < i ==> {
                    let task = #[trigger] out@[j];
                    &&& task.file == files@[j]
                    &&& task.detection == detection_at(detections@, j)
                    &&& task.output@ == planned_output(files@[j].path@, out_dir@, suffix@)
                    &&& steps(task.output@) != steps(task.file.path@)
                    &&& is_planned(task)
                },
        decreases files@.len() - i,
    {
        let detection = if i < detections.len() {
            detections[i]
        } else {
            Detection::default()
        };
        let (keep, kind) = plan_cut(files[i].duration_secs, &detection);
        let output = plan_output(files[i].path.as_str(), out_dir, suffix);
        out.push(EpisodeTask { file: files[i].clone(), detection, keep, output, kind });
        i += 1;
    }
    out
}

/// Plans one video anew. To be called whenever its detection was changed: the
/// plan would otherwise still be the old one.
pub fn recompute_task(task: &mut EpisodeTask)
    ensures
        final(task).file == old(task).file,
        final(task).detection == old(task).detection,
        final(task).output == old(task).output,
        is_planned(*final(task)),
        removes_when_ready(*final(task)),
{
    let (keep, kind) = plan_cut(task.file.duration_secs, &task.detection);
    task.kind = kind;
    task.keep = keep;
}

/// Whoever wants to know how the cutting of many videos goes on.
pub trait CutSink {
    /// A line for the user to read.
    fn line(&mut self, task_index: usize, line: &str);

    /// How much of a video is done.
    fn progress(&mut self, task_index: usize, fraction: Fraction);

    /// A video is done, well or not.
    fn finished(&mut self, task_index: usize, outcome: &Result<CutOutcome, CoreError>);
}

/// What came of cutting many videos.
#[derive(Debug, Clone, Copy, PartialEq, Eq, Structural)]
pub struct CutSummary {
    pub succeeded: usize,
    pub failed: usize,
    /// Those that were not to be cut.
    pub skipped: usize,
    /// How much the outputs hold.
    pub produced_secs: Secs,
}

impl Default for CutSummary {
    fn default() -> (r: Self)
        ensures
            r == (CutSummary { succeeded: 0, failed: 0, skipped: 0, produced_secs: zero() }),
    {
        CutSummary { succeeded: 0, failed: 0, skipped: 0, produced_secs: Secs::Finite(0) }
    }
}

/// What comes next when many videos are cut.
#[derive(Debug, PartialEq)]
pub enum BatchAction {
    /// This video is not to be cut; `line` says why.
    Skip { index: usize, line: String },
    /// This video is cut.
    Cut { index: usize, request: CutRequest },
    /// Nothing more is to be done.
    Done,
}

/// The cutting of many videos, one after the other: two at once would only make
/// the disk slower.
pub struct CutBatch {
    pub tasks: Vec<EpisodeTask>,
    pub mode: CutMode,
    pub overwrite: bool,
    /// How many videos are done or under way.
    pub index: usize,
    /// Whether the last of them is under way.
    pub cutting: bool,
    /// Whether the rest is left as it is, since the user stopped it.
    pub stopped: bool,
    pub summary: CutSummary,
}

/// How many videos are not to be cut.
pub open spec fn unready_count(tasks: Seq<EpisodeTask>) -> nat
    decreases tasks.len(),
{
    if tasks.len() == 0 {
        0
    } else {
        unready_count(tasks.drop_last()) + if tasks.last().kind is Ready {
            0nat
        } else {
            1nat
        }
    }
}

impl CutBatch {
    /// Every video that is done has been counted once, and as skipped just those
    /// that are not ready.
    pub open spec fn wf(self) -> bool {
        &&& self.index <= self.tasks@.len()
        &&& self.summary.skipped == unready_count(self.tasks@.take(self.index as int))
        &&& self.cutting ==> self.index > 0
        &&& self.summary.succeeded + self.summary.failed + self.summary.skipped + (if self.cutting {
            1int
        } else {
            0int
        }) == self.index
    }

    /// Begins with the first video.
    pub fn new(tasks: Vec<EpisodeTask>, mode: CutMode, overwrite: bool) -> (r: CutBatch)
        ensures
            r.wf(),
            r.tasks == tasks,
            r.mode == mode,
            r.overwrite == overwrite,
            r.index == 0,
            !r.cutting,
            !r.stopped,
            r.summary == (CutSummary { succeeded: 0, failed: 0, skipped: 0, produced_secs: zero() }),
    {
        assert(tasks@.take(0) =~= Seq::<EpisodeTask>::empty());
        CutBatch {
            tasks,
            mode,
            overwrite,
            index: 0,
            cutting: false,
            stopped: false,
            summary: CutSummary::default(),
        }
    }

    /// What comes next. A video that is not ready is counted as skipped at once.
    pub fn next(&mut self, cancelled: bool) -> (r: BatchAction)
        requires
            old(self).wf(),
            !old(self).cutting,
        ensures
            final(self).wf(),
            final(self).tasks == old(self).tasks,
            final(self).mode == old(self).mode,
            final(self).overwrite == old(self).overwrite,
            ({
                let over = old(self).stopped || cancelled || old(self).index
                    == old(self).tasks@.len();
                let task = old(self).tasks@[old(self).index as int];
                match r {
                    BatchAction::Done => {
                        &&& over
                        &&& final(self).index == old(self).index
                        &&& final(self).summary == old(self).summary
                        &&& !final(self).cutting
                        &&& final(self).stopped == (old(self).stopped || old(self).index
                            < old(self).tasks@.len())
                    },
                    BatchAction::Skip { index, line } => {
                        &&& !over
                        &&& task.kind !is Ready
                        &&& index == old(self).index
                        &&& line@ == "跳过（"@ + task.kind.label_spec() + "）"@
                        &&& final(self).index == old(self).index + 1
                        &&& final(self).summary == (CutSummary {
                            skipped: (old(self).summary.skipped + 1) as usize,
                            ..old(self).summary
                        })
                        &&& !final(self).cutting
                        &&& !final(self).stopped
                    },
                    BatchAction::Cut { index, request } => {
                        &&& !over
                        &&& task.kind is Ready
                        &&& index == old(self).index
                        &&& request.input == task.file.path
                        &&& request.output == task.output
                        &&& request.keep@ == task.keep@
                        &&& request.mode == old(self).mode
                        &&& request.overwrite == old(self).overwrite
                        &&& final(self).index == old(self).index + 1
                        &&& final(self).summary == old(self).summary
                        &&& final(self).cutting
                        &&& !final(self).stopped
                    },
                }
            }),
    {
        let total: usize = self.tasks.len();
        let index: usize = self.index;
        if index == total || self.stopped {
            return BatchAction::Done;
        }
        if cancelled {
            self.stopped = true;
            return BatchAction::Done;
        }
        assert(self.tasks@.take(index + 1).drop_last() =~= self.tasks@.take(index as int));
        self.index = index + 1;
        if !self.tasks[index].kind.is_actionable() {
            let skipped: usize = self.summary.skipped + 1;
            self.summary = CutSummary { skipped, ..self.summary };
            let line = "跳过（".to_string().concat(self.tasks[index].kind.label()).concat("）");
            return BatchAction::Skip { index, line };
        }
        self.cutting = true;
        let task = &self.tasks[index];
        let request = CutRequest {
            input: task.file.path.clone(),
            output: task.output.clone(),
            keep: copy_segments(&task.keep),
            mode: self.mode,
            overwrite: self.overwrite,
        };
        BatchAction::Cut { index, request }
    }

    /// Takes what came of the video under way. A failure does not stop the others;
    /// that the user stopped it does.
    pub fn finished(&mut self, outcome: &Result<CutOutcome, CoreError>)
        requires
            old(self).wf(),
            old(self).cutting,
        ensures
            final(self).wf(),
            final(self).tasks == old(self).tasks,
            final(self).mode == old(self).mode,
            final(self).overwrite == old(self).overwrite,
            final(self).index == old(self).index,
            !final(self).cutting,
            final(self).stopped == (old(self).stopped || (outcome matches Err(e)
                && e is Cancelled)),
            match *outcome {
                Ok(o) => final(self).summary == (CutSummary {
                    succeeded: (old(self).summary.succeeded + 1) as usize,
                    produced_secs: old(self).summary.produced_secs.plus_spec(o.kept_secs),
                    ..old(self).summary
                }),
                Err(_) => final(self).summary == (CutSummary {
                    failed: (old(self).summary.failed + 1) as usize,
                    ..old(self).summary
                }),
            },
    {
        self.cutting = false;
        match outcome {
            Ok(o) => {
                let succeeded: usize = self.summary.succeeded + 1;
                let produced_secs = self.summary.produced_secs.plus(o.kept_secs);
                self.summary = CutSummary { succeeded, produced_secs, ..self.summary };
            },
            Err(e) => {
                let failed: usize = self.summary.failed + 1;
                self.summary = CutSummary { failed, ..self.summary };
                match e {
                    CoreError::Cancelled => {
                        self.stopped = true;
                    },
                    _ => {},
                }
            },
        }
    }
}

/// How much is kept of all videos that are to be cut.
pub open spec fn actionable_length(tasks: Seq<EpisodeTask>) -> Secs
    decreases tasks.len(),
{
    if tasks.len() == 0 {
        zero()
    } else {
        let before = actionable_length(tasks.drop_last());
        match tasks.last().kept_spec() {
            Some(t) => if tasks.last().kind is Ready {
                before.plus_spec(t)
            } else {
                before
            },
            None => before,
        }
    }
}

/// How much is kept of all videos that are to be cut.
pub fn total_actionable_secs(tasks: &[EpisodeTask]) -> (r: Secs)
    ensures
        r == actionable_length(tasks@),
{
    let mut sum = Secs::Finite(0);
    let mut i: usize = 0;
    while i < tasks.len()
        invariant
            i <= tasks@.len(),
            sum == actionable_length(tasks@.take(i as int)),
        decreases tasks@.len() - i,
    {
        assert(tasks@.take(i + 1).drop_last() =~= tasks@.take(i as int));
        if tasks[i].kind.is_actionable() {
            match tasks[i].kept_secs() {
                Some(t) => {
                    sum = sum.plus(t);
                },
                None => {},
            }
        }
        i += 1;
    }
    assert(tasks@.take(tasks@.len() as int) =~= tasks@);
    sum
}

/// A segment as text.
pub open spec fn segment_text(s: Segment) -> Seq<char> {
    stamp(s.start) + " - "@ + stamp(s.end)
}

/// What is kept, as text: `00:02:12.000 - 00:22:10.000`, with ` + ` between two.
pub open spec fn keep_text(keep: Seq<Segment>) -> Seq<char> {
    joined(keep.map_values(|s: Segment| segment_text(s)), " + "@)
}

/// What is kept, as text.
pub fn describe_keep(keep: &[Segment]) -> (r: String)
    ensures
        r@ == keep_text(keep@),
{
    let mut list: Vec<String> = Vec::new();
    let mut i: usize = 0;
    while i < keep.len()
        invariant
            i <= keep@.len(),
            list@.len() == i,
            forall|j: int| 0 <= j < i ==> (#[trigger] list@[j])@ == segment_text(keep@[j]),
        decreases keep@.len() - i,
    {
        list.push(keep[i].display());
        i += 1;
    }
    assert(texts(list@) =~= keep@.map_values(|s: Segment| segment_text(s)));
    crate::text::join(&list, " + ")
}

} // verus!
