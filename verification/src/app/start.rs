//! What the user does, and what becomes of the state: adding videos, starting
//! detection, cutting and previews.

use vstd::prelude::*;

use crate::app::messages::only_row;
use crate::app::{logged, App, Busy, Launch, Line, LogLevel};
use crate::cut::Fraction;
use crate::error::CoreError;
use crate::model::EpisodeTask;
use crate::paths::{same_path, steps};
use crate::pipeline::{
    is_planned, output_for, output_path_for, recompute_task, video_extensions, VIDEO_EXTENSIONS,
};
use crate::rows::{no_progress, PreviewState, Row, RowStatus};
use crate::text::{decimal, decimal_text, joined, maybe_string, texts};
use crate::worker::{is_choice, pick_detector, NEEDLE_LIB};

verus! {

/// Whether a path is that of a row.
pub open spec fn on_list(rows: Seq<Row>, path: Seq<char>) -> bool {
    exists|i: int| 0 <= i < rows.len() && steps((#[trigger] rows[i]).task.file.path@) == steps(path)
}

/// Those of the paths that are not on the list yet.
pub open spec fn fresh_paths(rows: Seq<Row>, paths: Seq<Seq<char>>) -> Seq<Seq<char>>
    decreases paths.len(),
{
    if paths.len() == 0 {
        paths
    } else if on_list(rows, paths.last()) {
        fresh_paths(rows, paths.drop_last())
    } else {
        fresh_paths(rows, paths.drop_last()).push(paths.last())
    }
}

/// What is told where there is no ffmpeg to read the videos with.
pub const NO_FFMPEG_TO_READ: &'static str =
    "ffmpeg 不可用，无法读取视频信息。请先安装 ffmpeg 或在本页指定它的目录。";

/// What is told when videos are added: the line, and the videos to be read.
pub open spec fn adding(
    app: App,
    scanned: Result<Vec<String>, CoreError>,
) -> (Line, Option<Seq<Seq<char>>>) {
    if app.busy != Busy::Idle {
        ((LogLevel::Warn, "任务进行中，暂不接受新文件"@), None)
    } else {
        match scanned {
            Err(e) => ((LogLevel::Error, "扫描失败："@ + e@.text()), None),
            Ok(paths) => {
                let fresh = fresh_paths(app.rows@, texts(paths@));
                if paths@.len() == 0 {
                    (
                        (
                            LogLevel::Warn,
                            "这些路径里没有找到视频文件（支持："@ + joined(
                                video_extensions(),
                                " / "@,
                            ) + "）"@,
                        ),
                        None,
                    )
                } else if fresh.len() == 0 {
                    ((LogLevel::Info, "这些文件已经在列表里了"@), None)
                } else if app.tools is None {
                    ((LogLevel::Error, NO_FFMPEG_TO_READ@), None)
                } else {
                    (
                        (
                            LogLevel::Info,
                            "开始探测 "@ + decimal(fresh.len()) + " 个新文件的媒体信息…"@,
                        ),
                        Some(fresh),
                    )
                }
            },
        }
    }
}

fn extensions_text() -> (r: String)
    ensures
        r@ == joined(video_extensions(), " / "@),
{
    let known = VIDEO_EXTENSIONS;
    let ghost all = video_extensions();
    assert(forall|i: int| 0 <= i < 11 ==> (#[trigger] known@[i])@ == all[i]);
    let mut list: Vec<String> = Vec::new();
    let mut i: usize = 0;
    while i < 11
        invariant
            i <= 11,
            forall|j: int| 0 <= j < 11 ==> (#[trigger] known@[j])@ == all[j],
            list@.len() == i,
            forall|j: int| 0 <= j < i ==> (#[trigger] list@[j])@ == all[j],
        decreases 11 - i,
    {
        list.push(known[i].to_string());
        i += 1;
    }
    assert(texts(list@) =~= all);
    crate::text::join(&list, " / ")
}

/// What is told where one episode is not enough for a detection.
pub const TOO_FEW: &'static str =
    "检测需要至少 2 集。只有 1 集的时候请手动填写片头片尾时间戳，然后直接切割。";

/// What is told where there is no needle for a detection.
pub const NO_DETECTOR: &'static str =
    "没有可用的检测后端（没找到 needle）。请把 needle 装好并放进 PATH 后点「重新检查工具」；或者手动填写片头片尾时间戳，然后直接切割。";

/// What is told where needle is used as a library.
pub const LIBRARY_WARNING: &'static str =
    "当前后端是库直链，无法回报逐集进度，也无法在阶段中途取消 —— 这是 needle-rs 库接口本身的限制（分析调用没有回调也没有取消入口）。";

/// The paths of the episodes on the list.
pub open spec fn row_paths(rows: Seq<Row>) -> Seq<Seq<char>> {
    rows.map_values(|r: Row| r.task.file.path@)
}

/// The state once a detection was asked for, and what is started.
pub open spec fn after_start_detect(before: App, after: App, launch: Option<Launch>) -> bool {
    if before.busy != Busy::Idle {
        after == before && launch is None
    } else if before.rows@.len() < 2 {
        &&& after == (App { logs: after.logs, ..before })
        &&& after.log_lines() == logged(before.log_lines(), LogLevel::Warn, TOO_FEW@)
        &&& launch is None
    } else {
        match before.detector {
            None => {
                &&& after == (App { logs: after.logs, ..before })
                &&& after.log_lines() == logged(before.log_lines(), LogLevel::Error, NO_DETECTOR@)
                &&& launch is None
            },
            Some(d) => {
                let told = logged(
                    before.log_lines(),
                    LogLevel::Info,
                    "检测后端："@ + d.description(),
                );
                &&& after == (App {
                    logs: after.logs,
                    busy: Busy::Detecting,
                    counter: (0, before.rows.len()),
                    progress: no_progress(),
                    ..before
                })
                &&& after.log_lines() == (if d is Library {
                    logged(told, LogLevel::Warn, LIBRARY_WARNING@)
                } else {
                    told
                })
                &&& launch matches Some(Launch::Detect { detector, files, opts }) && detector == d
                    && texts(files@) == row_paths(before.rows@) && opts == before.detect_opts
            },
        }
    }
}

/// How many of the episodes are to be cut.
pub open spec fn ready_count(rows: Seq<Row>) -> nat
    decreases rows.len(),
{
    if rows.len() == 0 {
        0
    } else {
        ready_count(rows.drop_last()) + if rows.last().task.kind is Ready {
            1nat
        } else {
            0nat
        }
    }
}

/// What is told where there is nothing to cut.
pub const NOTHING_TO_CUT: &'static str =
    "没有可切割的剧集。要么还没跑检测，要么所有集都没检测到片头片尾。";

/// Whether the row waits to be cut: planned anew, with the output where it is
/// wanted now.
pub open spec fn row_queued(before: Row, after: Row, out_dir: Seq<char>, suffix: Seq<char>) -> bool {
    &&& after == (Row {
        task: after.task,
        status: after.status,
        progress: no_progress(),
        log: after.log,
        ..before
    })
    &&& after.task.file == before.task.file
    &&& after.task.detection == before.task.detection
    &&& after.task.output@ == output_for(before.task.file.path@, out_dir, suffix)
    &&& is_planned(after.task)
    &&& after.log@.len() == 0
    &&& match after.status {
        RowStatus::Queued => after.task.kind is Ready,
        RowStatus::Skipped(why) => after.task.kind !is Ready && why@
            == after.task.kind.label_spec(),
        _ => false,
    }
}

/// Whether a task is the copy of another.
pub open spec fn same_task(a: EpisodeTask, b: EpisodeTask) -> bool {
    &&& a.file == b.file
    &&& a.detection == b.detection
    &&& a.keep@ == b.keep@
    &&& a.output == b.output
    &&& a.kind == b.kind
}

/// The state once cutting was asked for, and what is started.
pub open spec fn after_start_cut(before: App, after: App, launch: Option<Launch>) -> bool {
    if before.busy != Busy::Idle {
        after == before && launch is None
    } else if before.cutter is None {
        &&& after == (App { logs: after.logs, ..before })
        &&& after.log_lines() == logged(
            before.log_lines(),
            LogLevel::Error,
            "ffmpeg 不可用，无法切割"@,
        )
        &&& launch is None
    } else if before.out_dir is None {
        &&& after == (App { logs: after.logs, ..before })
        &&& after.log_lines() == logged(before.log_lines(), LogLevel::Warn, "还没选择输出目录"@)
        &&& launch is None
    } else if ready_count(before.rows@) == 0 {
        &&& after == (App { logs: after.logs, ..before })
        &&& after.log_lines() == logged(before.log_lines(), LogLevel::Warn, NOTHING_TO_CUT@)
        &&& launch is None
    } else {
        let dir = before.out_dir->0@;
        &&& after == (App {
            rows: after.rows,
            busy: Busy::Cutting,
            progress: no_progress(),
            stage: after.stage,
            logs: after.logs,
            ..before
        })
        &&& after.stage@ == "开始切割"@
        &&& after.log_lines() == logged(
            before.log_lines(),
            LogLevel::Info,
            "开始切割 "@ + decimal(ready_count(before.rows@)) + " 集，输出到 "@ + dir + "（"@
                + before.cut_mode.label_spec() + "）"@,
        )
        &&& after.rows@.len() == before.rows@.len()
        &&& forall|i: int|
            0 <= i < after.rows@.len() ==> row_queued(
                before.rows@[i],
                #[trigger] after.rows@[i],
                dir,
                before.out_suffix@,
            )
        &&& launch matches Some(Launch::Cut { cutter, tasks, mode, overwrite }) && {
            &&& Some(cutter) == before.cutter
            &&& mode == before.cut_mode
            &&& overwrite == before.overwrite
            &&& tasks@.len() == after.rows@.len()
            &&& forall|i: int|
                0 <= i < tasks@.len() ==> same_task(#[trigger] tasks@[i], after.rows@[i].task)
        }
    }
}

/// The state once a frame was asked for, and what is started.
pub open spec fn after_request_preview(
    before: App,
    after: App,
    index: usize,
    launch: Option<Launch>,
) -> bool {
    match before.cutter {
        None => {
            &&& after == (App { logs: after.logs, ..before })
            &&& after.log_lines() == logged(
                before.log_lines(),
                LogLevel::Error,
                "ffmpeg 不可用，无法抽帧"@,
            )
            &&& launch is None
        },
        Some(c) => if index >= before.rows@.len() {
            after == before && launch is None
        } else {
            let row = before.rows@[index as int];
            &&& after == (App { rows: after.rows, preview_row: Some(index), ..before })
            &&& only_row(before, after, index as int)
            &&& after.rows@[index as int] == (Row {
                preview: PreviewState { loading: true, error: None, ..row.preview },
                ..row
            })
            &&& launch == Some(
                Launch::Preview {
                    cutter: c,
                    video: row.task.file.path,
                    at_secs: row.preview_time_spec(),
                    index,
                },
            )
        },
    }
}

impl App {
    fn is_listed(&self, path: &str) -> (r: bool)
        ensures
            r == on_list(self.rows@, path@),
    {
        let mut i: usize = 0;
        while i < self.rows.len()
            invariant
                i <= self.rows@.len(),
                forall|k: int|
                    0 <= k < i ==> steps((#[trigger] self.rows@[k]).task.file.path@) != steps(
                        path@,
                    ),
            decreases self.rows@.len() - i,
        {
            if same_path(self.rows[i].task.file.path.as_str(), path) {
                return true;
            }
            i += 1;
        }
        false
    }

    fn not_listed(&self, paths: &[String]) -> (r: Vec<String>)
        ensures
            texts(r@) == fresh_paths(self.rows@, texts(paths@)),
    {
        let mut out: Vec<String> = Vec::new();
        let mut i: usize = 0;
        assert(texts(out@) =~= fresh_paths(self.rows@, texts(paths@).take(0)));
        while i < paths.len()
            invariant
                i <= paths@.len(),
                texts(out@) == fresh_paths(self.rows@, texts(paths@).take(i as int)),
            decreases paths@.len() - i,
        {
            let ghost before = texts(out@);
            assert(texts(paths@).take(i + 1).drop_last() =~= texts(paths@).take(i as int));
            if !self.is_listed(paths[i].as_str()) {
                out.push(paths[i].clone());
                assert(texts(out@) =~= before.push(paths@[i as int]@));
            }
            i += 1;
        }
        assert(texts(paths@).take(i as int) =~= texts(paths@));
        out
    }

    /// Adds the videos that were found to the list, once they are read. Those on
    /// the list already are left out: no file is on it twice.
    pub fn add_inputs(&mut self, scanned: Result<Vec<String>, CoreError>) -> (r: Option<Launch>)
        ensures
            ({
                let (line, fresh) = adding(*old(self), scanned);
                &&& final(self).log_lines() == logged(old(self).log_lines(), line.0, line.1)
                &&& match fresh {
                    None => r is None && *final(self) == (App {
                        logs: final(self).logs,
                        ..*old(self)
                    }),
                    Some(list) => {
                        &&& *final(self) == (App {
                            logs: final(self).logs,
                            busy: Busy::Probing,
                            ..*old(self)
                        })
                        &&& r matches Some(Launch::Probe { tools, paths }) && Some(tools)
                            == old(self).tools && texts(paths@) == list
                    },
                }
            }),
    {
        if self.busy != Busy::Idle {
            self.log(LogLevel::Warn, "任务进行中，暂不接受新文件");
            return None;
        }
        let paths = match scanned {
            Ok(v) => v,
            Err(e) => {
                let line = "扫描失败：".to_string().concat(e.message().as_str());
                self.log(LogLevel::Error, line.as_str());
                return None;
            },
        };
        if paths.len() == 0 {
            let line = "这些路径里没有找到视频文件（支持：".to_string().concat(
                extensions_text().as_str(),
            ).concat("）");
            self.log(LogLevel::Warn, line.as_str());
            return None;
        }
        let fresh = self.not_listed(&paths);
        assert(texts(fresh@).len() == fresh@.len());
        if fresh.len() == 0 {
            self.log(LogLevel::Info, "这些文件已经在列表里了");
            return None;
        }
        let tools = match &self.tools {
            Some(t) => t.clone(),
            None => {
                self.log(LogLevel::Error, NO_FFMPEG_TO_READ);
                return None;
            },
        };
        let line = "开始探测 ".to_string().concat(decimal_text(fresh.len() as u128).as_str()).concat(
            " 个新文件的媒体信息…",
        );
        self.log(LogLevel::Info, line.as_str());
        self.busy = Busy::Probing;
        Some(Launch::Probe { tools, paths: fresh })
    }

    /// The name of the way in which needle is used.
    pub fn detector_label(&self) -> (r: &'static str)
        ensures
            r@ == (match self.detector {
                Some(d) => d.label_spec(),
                None => "未就绪"@,
            }),
    {
        match &self.detector {
            Some(d) => d.label(),
            None => "未就绪",
        }
    }

    fn all_paths(&self) -> (r: Vec<String>)
        ensures
            texts(r@) == row_paths(self.rows@),
    {
        let mut out: Vec<String> = Vec::new();
        let mut i: usize = 0;
        while i < self.rows.len()
            invariant
                i <= self.rows@.len(),
                out@.len() == i,
                forall|k: int| 0 <= k < i ==> (#[trigger] out@[k])@
                    == self.rows@[k].task.file.path@,
            decreases self.rows@.len() - i,
        {
            out.push(self.rows[i].task.file.path.clone());
            i += 1;
        }
        assert(texts(out@) =~= row_paths(self.rows@));
        out
    }

    /// Starts a detection.
    pub fn start_detect(&mut self) -> (r: Option<Launch>)
        ensures
            after_start_detect(*old(self), *final(self), r),
    {
        if self.busy != Busy::Idle {
            return None;
        }
        if self.rows.len() < 2 {
            self.log(LogLevel::Warn, TOO_FEW);
            return None;
        }
        let files = self.all_paths();
        let detector = match &self.detector {
            Some(d) => d.clone(),
            None => {
                self.log(LogLevel::Error, NO_DETECTOR);
                return None;
            },
        };
        let line = "检测后端：".to_string().concat(detector.describe().as_str());
        self.log(LogLevel::Info, line.as_str());
        if !detector.has_fine_grained_progress() {
            self.log(LogLevel::Warn, LIBRARY_WARNING);
        }
        self.busy = Busy::Detecting;
        self.counter = (0, self.rows.len());
        self.progress = Fraction::Of { part: 0, whole: 1 };
        Some(Launch::Detect { detector, files, opts: self.detect_opts })
    }

    /// How many of the episodes are to be cut.
    pub fn count_ready(&self) -> (r: usize)
        ensures
            r == ready_count(self.rows@),
    {
        let mut n: usize = 0;
        let mut i: usize = 0;
        while i < self.rows.len()
            invariant
                i <= self.rows@.len(),
                n == ready_count(self.rows@.take(i as int)),
                n <= i,
            decreases self.rows@.len() - i,
        {
            assert(self.rows@.take(i + 1).drop_last() =~= self.rows@.take(i as int));
            if self.rows[i].task.kind.is_actionable() {
                n += 1;
            }
            i += 1;
        }
        assert(self.rows@.take(i as int) =~= self.rows@);
        n
    }

    fn queue_row(&mut self, i: usize, out_dir: &str) -> (r: EpisodeTask)
        requires
            i < old(self).rows@.len(),
        ensures
            *final(self) == (App { rows: final(self).rows, ..*old(self) }),
            only_row(*old(self), *final(self), i as int),
            row_queued(
                old(self).rows@[i as int],
                final(self).rows@[i as int],
                out_dir@,
                old(self).out_suffix@,
            ),
            same_task(r, final(self).rows@[i as int].task),
    {
        let output = output_path_for(
            self.rows[i].task.file.path.as_str(),
            out_dir,
            self.out_suffix.as_str(),
        );
        let row = &mut self.rows[i];
        row.task.output = output;
        recompute_task(&mut row.task);
        row.status = if row.task.kind.is_actionable() {
            RowStatus::Queued
        } else {
            RowStatus::Skipped(row.task.kind.label().to_string())
        };
        row.progress = Fraction::Of { part: 0, whole: 1 };
        row.log.clear();
        row.task.clone()
    }

    /// Starts to cut all episodes that are to be cut. Every one is planned anew:
    /// the times, the directory and the suffix may have been changed.
    pub fn start_cut(&mut self) -> (r: Option<Launch>)
        ensures
            after_start_cut(*old(self), *final(self), r),
    {
        if self.busy != Busy::Idle {
            return None;
        }
        let cutter = match &self.cutter {
            Some(c) => c.clone(),
            None => {
                self.log(LogLevel::Error, "ffmpeg 不可用，无法切割");
                return None;
            },
        };
        let out_dir = match &self.out_dir {
            Some(d) => d.clone(),
            None => {
                self.log(LogLevel::Warn, "还没选择输出目录");
                return None;
            },
        };
        let actionable = self.count_ready();
        if actionable == 0 {
            self.log(LogLevel::Warn, NOTHING_TO_CUT);
            return None;
        }
        let ghost start = *self;
        let mut tasks: Vec<EpisodeTask> = Vec::new();
        let mut i: usize = 0;
        while i < self.rows.len()
            invariant
                i <= self.rows@.len(),
                *self == (App { rows: self.rows, ..start }),
                self.rows@.len() == start.rows@.len(),
                tasks@.len() == i,
                forall|k: int|
                    0 <= k < i ==> row_queued(
                        start.rows@[k],
                        #[trigger] self.rows@[k],
                        out_dir@,
                        start.out_suffix@,
                    ),
                forall|k: int| 0 <= k < i ==> same_task(
                    #[trigger] tasks@[k],
                    self.rows@[k].task,
                ),
                forall|k: int| i <= k < self.rows@.len() ==> #[trigger] self.rows@[k]
                    == start.rows@[k],
            decreases self.rows@.len() - i,
        {
            let ghost before = self.rows@;
            let task = self.queue_row(i, out_dir.as_str());
            tasks.push(task);
            assert(forall|k: int| 0 <= k < i ==> self.rows@[k] == before[k]);
            i += 1;
        }
        self.busy = Busy::Cutting;
        self.progress = Fraction::Of { part: 0, whole: 1 };
        self.stage = "开始切割".to_string();
        let line = "开始切割 ".to_string().concat(decimal_text(actionable as u128).as_str()).concat(
            " 集，输出到 ",
        ).concat(out_dir.as_str()).concat("（").concat(self.cut_mode.label()).concat("）");
        self.log(LogLevel::Info, line.as_str());
        Some(Launch::Cut { cutter, tasks, mode: self.cut_mode, overwrite: self.overwrite })
    }

    /// Asks for the frame of a row that shows where the cut will be.
    pub fn request_preview(&mut self, index: usize) -> (r: Option<Launch>)
        ensures
            after_request_preview(*old(self), *final(self), index, r),
    {
        let cutter = match &self.cutter {
            Some(c) => c.clone(),
            None => {
                self.log(LogLevel::Error, "ffmpeg 不可用，无法抽帧");
                return None;
            },
        };
        if index >= self.rows.len() {
            return None;
        }
        let at_secs = self.rows[index].preview_time();
        let video = self.rows[index].task.file.path.clone();
        let row = &mut self.rows[index];
        row.preview.loading = true;
        row.preview.error = None;
        self.preview_row = Some(index);
        Some(Launch::Preview { cutter, video, at_secs, index })
    }

    /// Drops what the user typed into a row and brings back what was detected: in
    /// the fields, and in the plan.
    pub fn reset_row(&mut self, index: usize)
        ensures
            *final(self) == (App { rows: final(self).rows, ..*old(self) }),
            only_row(*old(self), *final(self), index as int),
            index < old(self).rows@.len() ==> {
                let before = old(self).rows@[index as int];
                let after = final(self).rows@[index as int];
                &&& after.shows_detection()
                &&& after.task.detection == before.detected
                &&& after.task.file == before.task.file
                &&& after.task.output == before.task.output
                &&& is_planned(after.task)
                &&& after == (Row {
                    task: after.task,
                    opening_start: after.opening_start,
                    opening_end: after.opening_end,
                    ending_start: after.ending_start,
                    ending_end: after.ending_end,
                    edit_error: None,
                    ..before
                })
            },
    {
        if index < self.rows.len() {
            let row = &mut self.rows[index];
            row.reset_texts_from_detection();
            row.task.detection = row.detected;
            recompute_task(&mut row.task);
        }
    }

    /// Takes everything off the list.
    pub fn clear_rows(&mut self)
        ensures
            *final(self) == (App {
                rows: final(self).rows,
                preview_row: None,
                status_line: final(self).status_line,
                ..*old(self)
            }),
            final(self).rows@.len() == 0,
            final(self).status_line@ == "列表已清空"@,
    {
        self.rows = Vec::new();
        self.preview_row = None;
        self.status_line = "列表已清空".to_string();
    }

    /// Empties the log.
    pub fn clear_log(&mut self)
        ensures
            *final(self) == (App { logs: final(self).logs, ..*old(self) }),
            final(self).logs@.len() == 0,
    {
        self.logs.clear();
    }

    /// Tells that the user wants to stop.
    pub fn cancel_requested(&mut self)
        ensures
            *final(self) == (App { logs: final(self).logs, ..*old(self) }),
            final(self).log_lines() == logged(
                old(self).log_lines(),
                LogLevel::Warn,
                "已请求取消，正在等待当前步骤停下…"@,
            ),
    {
        self.log(LogLevel::Warn, "已请求取消，正在等待当前步骤停下…");
    }

    /// Tells that the programs are looked for once more.
    pub fn checking_tools(&mut self)
        ensures
            *final(self) == (App { status_line: final(self).status_line, ..*old(self) }),
            final(self).status_line@ == "正在重新检查工具…"@,
    {
        self.status_line = "正在重新检查工具…".to_string();
    }

    /// Chooses the directory for the outputs. Those of all rows go there.
    pub fn choose_output(&mut self, dir: &str)
        ensures
            *final(self) == (App {
                rows: final(self).rows,
                out_dir: final(self).out_dir,
                status_line: final(self).status_line,
                ..*old(self)
            }),
            final(self).status_line@ == "输出目录："@ + dir@,
            maybe_string(final(self).out_dir) == Some(dir@),
            final(self).rows@.len() == old(self).rows@.len(),
            forall|i: int|
                0 <= i < final(self).rows@.len() ==> {
                    let before = old(self).rows@[i];
                    let after = #[trigger] final(self).rows@[i];
                    &&& after.task.output@ == output_for(
                        before.task.file.path@,
                        dir@,
                        old(self).out_suffix@,
                    )
                    &&& after == (Row {
                        task: EpisodeTask { output: after.task.output, ..before.task },
                        ..before
                    })
                },
    {
        self.status_line = "输出目录：".to_string().concat(dir);
        self.out_dir = Some(dir.to_string());
        let ghost start = *self;
        let mut i: usize = 0;
        while i < self.rows.len()
            invariant
                i <= self.rows@.len(),
                *self == (App { rows: self.rows, ..start }),
                self.rows@.len() == start.rows@.len(),
                forall|k: int|
                    0 <= k < i ==> {
                        let before = start.rows@[k];
                        let after = #[trigger] self.rows@[k];
                        &&& after.task.output@ == output_for(
                            before.task.file.path@,
                            dir@,
                            start.out_suffix@,
                        )
                        &&& after == (Row {
                            task: EpisodeTask { output: after.task.output, ..before.task },
                            ..before
                        })
                    },
                forall|k: int| i <= k < self.rows@.len() ==> #[trigger] self.rows@[k]
                    == start.rows@[k],
            decreases self.rows@.len() - i,
        {
            let ghost before = self.rows@;
            let output = output_path_for(
                self.rows[i].task.file.path.as_str(),
                dir,
                self.out_suffix.as_str(),
            );
            let row = &mut self.rows[i];
            row.task.output = output;
            assert(forall|k: int| 0 <= k < self.rows@.len() && k != i ==> self.rows@[k]
                == before[k]);
            i += 1;
        }
    }

    /// Chooses in which way needle is used, where both are there.
    pub fn choose_library(&mut self, prefer: bool)
        ensures
            *final(self) == (App {
                prefer_library: prefer,
                detector: final(self).detector,
                ..*old(self)
            }),
            old(self).prefer_library == prefer ==> final(self).detector == old(self).detector,
            old(self).prefer_library != prefer ==> is_choice(
                match old(self).tool_info {
                    Some(t) => maybe_string(t.needle),
                    None => None,
                },
                prefer,
                NEEDLE_LIB,
                final(self).detector,
            ),
    {
        if self.prefer_library == prefer {
            return;
        }
        self.prefer_library = prefer;
        let none: Option<String> = None;
        self.detector = match &self.tool_info {
            Some(t) => pick_detector(&t.needle, prefer),
            None => pick_detector(&none, prefer),
        };
    }
}

} // verus!
