//! What the working threads report, and what becomes of the state.

use vstd::prelude::*;

use crate::app::{logged, App, Busy, Effect, Line, LogLevel, MAX_ROW_LINES};
use crate::cut::{Cutter, Fraction};
use crate::detect::{DetectEvent, Told};
use crate::model::{Detection, EpisodeFile};
use crate::numbers::{fixed_secs, fixed_secs_text};
use crate::paths::{file_name, file_name_of, parent, parent_of};
use crate::pipeline::{
    build_tasks, detection_at, is_planned, planned_output, recompute_task, CutSummary,
};
use crate::probe::FfmpegTools;
use crate::rows::{no_progress, one_place, PreviewState, Row, RowStatus};
use crate::secs::{zero, Secs};
use crate::show::{non_empty, non_empty_spec, short_version, short_version_of};
use crate::text::{decimal, decimal_text, maybe_string};
use crate::worker::{
    is_choice, pick_detector, CutInfo, DetectorChoice, ToolInfo, WorkerMessage, NEEDLE_LIB,
};

verus! {

/// The directory of a path; nothing where it has none.
pub open spec fn dir_of(path: Seq<char>) -> Seq<char> {
    match parent_of(path) {
        Some(d) => d,
        None => Seq::empty(),
    }
}

fn dir_text(path: &str) -> (r: String)
    ensures
        r@ == dir_of(path@),
{
    match parent(path) {
        Some(d) => d,
        None => String::new(),
    }
}

/// The directory in which ffmpeg was found. An empty one is none: it would stand
/// for the directory that the program happens to run in.
pub fn tools_dir(info: &ToolInfo) -> (r: Option<String>)
    ensures
        maybe_string(r) == non_empty_spec(dir_of(info.ffmpeg@)),
{
    non_empty(dir_text(info.ffmpeg.as_str()).as_str())
}

/// What is told where needle is missing.
pub const NO_NEEDLE: &'static str =
    "没找到 needle，自动检测不可用。你仍然可以手动填片头片尾时间戳后直接切割；或者把 needle 可执行文件放进 PATH，再点「重新检查工具」。（needle 官方 release 有单文件 Windows 版，下载解压即用）";

/// The log once the programs were found.
pub open spec fn tools_log(
    log: Seq<Line>,
    info: ToolInfo,
    detector: Option<DetectorChoice>,
) -> Seq<Line> {
    let one = logged(log, LogLevel::Info, "ffmpeg："@ + info.ffmpeg@);
    let two = match info.needle_version {
        Some(v) => logged(one, LogLevel::Info, "needle："@ + v@),
        None => one,
    };
    match detector {
        Some(d) => logged(two, LogLevel::Info, "检测后端："@ + d.label_spec()),
        None => logged(two, LogLevel::Warn, NO_NEEDLE@),
    }
}

/// The state once the programs were looked for. `found` is what is in the
/// directory of ffmpeg.
pub open spec fn after_tools(
    before: App,
    after: App,
    result: Result<ToolInfo, String>,
    found: Option<FfmpegTools>,
) -> bool {
    match result {
        Ok(info) => {
            &&& after == (App {
                status_line: after.status_line,
                ffmpeg_dir: after.ffmpeg_dir,
                needle_dir: after.needle_dir,
                tools: found,
                cutter: after.cutter,
                detector: after.detector,
                logs: after.logs,
                tool_error: None,
                tool_info: Some(info),
                ..before
            })
            &&& after.status_line@ == "ffmpeg："@ + short_version_of(info.ffmpeg_version@)
                + "　needle："@ + match info.needle_version {
                Some(v) => v@,
                None => "未找到"@,
            }
            &&& after.ffmpeg_dir@ == dir_of(info.ffmpeg@)
            &&& match found {
                Some(t) => after.cutter matches Some(c) && c.ffmpeg == t.ffmpeg,
                None => after.cutter == before.cutter,
            }
            &&& match info.needle {
                Some(p) => after.needle_dir@ == dir_of(p@),
                None => after.needle_dir == before.needle_dir,
            }
            &&& is_choice(
                maybe_string(info.needle),
                before.prefer_library,
                NEEDLE_LIB,
                after.detector,
            )
            &&& after.log_lines() == tools_log(before.log_lines(), info, after.detector)
        },
        Err(e) => {
            &&& after == (App {
                tool_error: Some(e),
                status_line: after.status_line,
                logs: after.logs,
                ..before
            })
            &&& after.status_line@ == "ffmpeg 不可用"@
            &&& after.log_lines() == logged(before.log_lines(), LogLevel::Error, e@)
        },
    }
}

/// `part` of `whole`, as it is counted.
pub open spec fn count_fraction(part: usize, whole: usize) -> Fraction {
    if whole == 0 {
        no_progress()
    } else {
        Fraction::Of { part: part as i128, whole: whole as i128 }
    }
}

fn count(part: usize, whole: usize) -> (r: Fraction)
    ensures
        r == count_fraction(part, whole),
{
    if whole == 0 {
        Fraction::Of { part: 0, whole: 1 }
    } else {
        Fraction::Of { part: part as i128, whole: whole as i128 }
    }
}

/// The state while videos are read.
pub open spec fn after_probe_progress(
    before: App,
    after: App,
    current: usize,
    total: usize,
    name: Seq<char>,
) -> bool {
    &&& after == (App {
        counter: (current, total),
        progress: count_fraction(current, total),
        stage: after.stage,
        ..before
    })
    &&& after.stage@ == "探测媒体信息："@ + name
}

/// The directory for the outputs: the one that was chosen, or else that of the
/// first video.
pub open spec fn out_dir_for(chosen: Option<String>, files: Seq<EpisodeFile>) -> Seq<char> {
    match chosen {
        Some(d) => d@,
        None => if files.len() == 0 {
            "."@
        } else {
            match parent_of(files[0].path@) {
                Some(d) => d,
                None => "."@,
            }
        },
    }
}

/// Whether the row is that of a new episode.
pub open spec fn is_new_row(
    row: Row,
    file: EpisodeFile,
    out_dir: Seq<char>,
    suffix: Seq<char>,
) -> bool {
    &&& row.task.file == file
    &&& row.task.detection.empty()
    &&& row.detected == row.task.detection
    &&& row.task.output@ == planned_output(file.path@, out_dir, suffix)
    &&& is_planned(row.task)
    &&& row.shows_detection()
    &&& row.status is Idle
    &&& row.progress == no_progress()
    &&& row.log@.len() == 0
    &&& !row.preview.loading && !row.preview.has_picture
}

/// The state once new episodes were put on the list, behind those that are there.
pub open spec fn after_build_rows(before: App, after: App, files: Seq<EpisodeFile>) -> bool {
    let dir = out_dir_for(before.out_dir, files);
    let n = before.rows@.len();
    &&& after == (App { rows: after.rows, out_dir: after.out_dir, preview_row: None, ..before })
    &&& maybe_string(after.out_dir) == Some(dir)
    &&& after.rows@.len() == n + files.len()
    &&& after.rows@.take(n as int) == before.rows@
    &&& forall|i: int|
        0 <= i < files.len() ==> is_new_row(
            #[trigger] after.rows@[n + i],
            files[i],
            dir,
            before.out_suffix@,
        )
}

/// What is told where one episode is not enough.
pub const ONE_EPISODE: &'static str =
    "检测需要至少 2 集才能做跨集比对。只有 1 集时请手动填时间戳。";

/// The state once videos were read.
pub open spec fn after_probe_done(
    before: App,
    after: App,
    result: Result<Vec<EpisodeFile>, String>,
) -> bool {
    &&& after == (App {
        busy: Busy::Idle,
        rows: after.rows,
        out_dir: after.out_dir,
        preview_row: after.preview_row,
        logs: after.logs,
        status_line: after.status_line,
        stage: after.stage,
        progress: no_progress(),
        ..before
    })
    &&& after.stage@.len() == 0
    &&& match result {
        Ok(files) => {
            let told = logged(
                before.log_lines(),
                LogLevel::Info,
                "导入完成，共 "@ + decimal(files@.len()) + " 个视频文件"@,
            );
            &&& after_build_rows(
                before,
                (App {
                    rows: after.rows,
                    out_dir: after.out_dir,
                    preview_row: after.preview_row,
                    ..before
                }),
                files@,
            )
            &&& after.log_lines() == (if after.rows@.len() < 2 {
                logged(told, LogLevel::Warn, ONE_EPISODE@)
            } else {
                told
            })
            &&& after.status_line@ == "已导入 "@ + decimal(files@.len()) + " 个文件"@
        },
        Err(e) => {
            &&& after.rows == before.rows
            &&& after.out_dir == before.out_dir
            &&& after.preview_row == before.preview_row
            &&& after.log_lines() == logged(
                before.log_lines(),
                LogLevel::Error,
                "探测失败："@ + e@,
            )
            &&& after.status_line@ == "探测失败"@
        },
    }
}

/// The state after something was told while detection goes on.
pub open spec fn after_detect_event(before: App, after: App, event: Told) -> bool {
    match event {
        Told::Stage(s) => {
            &&& after == (App { stage: after.stage, logs: after.logs, ..before })
            &&& after.stage@ == s
            &&& after.log_lines() == logged(
                before.log_lines(),
                LogLevel::Info,
                "== "@ + s + " =="@,
            )
        },
        Told::Log(l) => {
            &&& after == (App { logs: after.logs, ..before })
            &&& after.log_lines() == logged(before.log_lines(), LogLevel::Info, l)
        },
        Told::EpisodeDone { index, total, name } => {
            &&& after == (App {
                counter: (index as usize, total as usize),
                progress: after.progress,
                logs: after.logs,
                ..before
            })
            &&& after.progress == (Fraction::Of {
                part: index as i128,
                whole: if total == 0 {
                    1
                } else {
                    total as i128
                },
            })
            &&& after.log_lines() == logged(
                before.log_lines(),
                LogLevel::Info,
                "分析完成 ["@ + decimal(index) + "/"@ + decimal(total) + "] "@ + name,
            )
        },
        Told::EpisodeFailed { index, total, name, error } => {
            &&& after == (App {
                counter: (index as usize, total as usize),
                progress: after.progress,
                logs: after.logs,
                ..before
            })
            &&& after.progress == (Fraction::Of {
                part: index as i128,
                whole: if total == 0 {
                    1
                } else {
                    total as i128
                },
            })
            &&& after.log_lines() == logged(
                before.log_lines(),
                LogLevel::Warn,
                "分析失败 ["@ + decimal(index) + "/"@ + decimal(total) + "] "@ + name + "："@
                    + error,
            )
        },
    }
}

impl App {
    /// Takes over what is known of the programs.
    pub fn on_tools_checked(
        &mut self,
        result: Result<ToolInfo, String>,
        found: Option<FfmpegTools>,
    )
        ensures
            after_tools(*old(self), *final(self), result, found),
    {
        match result {
            Ok(info) => {
                let needle_text = match &info.needle_version {
                    Some(v) => v.clone(),
                    None => "未找到".to_string(),
                };
                self.status_line = "ffmpeg：".to_string().concat(
                    short_version(info.ffmpeg_version.as_str()).as_str(),
                ).concat("　needle：").concat(needle_text.as_str());
                self.ffmpeg_dir = dir_text(info.ffmpeg.as_str());
                match &found {
                    Some(t) => {
                        self.cutter = Some(Cutter { ffmpeg: t.ffmpeg.clone() });
                    },
                    None => {},
                }
                self.tools = found;
                match &info.needle {
                    Some(p) => {
                        self.needle_dir = dir_text(p.as_str());
                    },
                    None => {},
                }
                self.detector = pick_detector(&info.needle, self.prefer_library);
                let line = "ffmpeg：".to_string().concat(info.ffmpeg.as_str());
                self.log(LogLevel::Info, line.as_str());
                match &info.needle_version {
                    Some(v) => {
                        let line = "needle：".to_string().concat(v.as_str());
                        self.log(LogLevel::Info, line.as_str());
                    },
                    None => {},
                }
                let label: Option<&'static str> = match &self.detector {
                    Some(d) => Some(d.label()),
                    None => None,
                };
                match label {
                    Some(label) => {
                        let line = "检测后端：".to_string().concat(label);
                        self.log(LogLevel::Info, line.as_str());
                    },
                    None => {
                        self.log(LogLevel::Warn, NO_NEEDLE);
                    },
                }
                self.tool_error = None;
                self.tool_info = Some(info);
            },
            Err(e) => {
                self.status_line = "ffmpeg 不可用".to_string();
                self.log(LogLevel::Error, e.as_str());
                self.tool_error = Some(e);
            },
        }
    }

    /// Takes over how far the reading of the videos is.
    pub fn on_probe_progress(&mut self, current: usize, total: usize, name: &str)
        ensures
            after_probe_progress(*old(self), *final(self), current, total, name@),
    {
        self.counter = (current, total);
        self.progress = count(current, total);
        self.stage = "探测媒体信息：".to_string().concat(name);
    }

    /// Puts new episodes on the list, behind those that are there.
    pub fn build_rows(&mut self, files: &[EpisodeFile])
        ensures
            after_build_rows(*old(self), *final(self), files@),
    {
        let dir = match &self.out_dir {
            Some(d) => d.clone(),
            None => if files.len() == 0 {
                ".".to_string()
            } else {
                match parent(files[0].path.as_str()) {
                    Some(d) => d,
                    None => ".".to_string(),
                }
            },
        };
        assert(dir@ == out_dir_for(self.out_dir, files@));
        let detections: Vec<Detection> = Vec::new();
        let tasks = build_tasks(files, &detections, dir.as_str(), self.out_suffix.as_str());
        self.out_dir = Some(dir.clone());
        let ghost first = self.rows@;
        let mut i: usize = 0;
        assert(first.take(first.len() as int) =~= first);
        while i < tasks.len()
            invariant
                i <= tasks@.len(),
                tasks@.len() == files@.len(),
                forall|k: int|
                    0 <= k < tasks@.len() ==> {
                        let task = #[trigger] tasks@[k];
                        &&& task.file == files@[k]
                        &&& task.detection == detection_at(Seq::empty(), k)
                        &&& task.output@ == planned_output(files@[k].path@, dir@, old(self).out_suffix@)
                        &&& is_planned(task)
                    },
                self.rows@.len() == first.len() + i,
                self.rows@.take(first.len() as int) == first,
                *self == (App { rows: self.rows, out_dir: Some(dir), ..*old(self) }),
                forall|k: int|
                    0 <= k < i ==> is_new_row(
                        #[trigger] self.rows@[first.len() + k],
                        files@[k],
                        dir@,
                        old(self).out_suffix@,
                    ),
            decreases tasks@.len() - i,
        {
            let ghost rows = self.rows@;
            let row = Row::new(tasks[i].clone());
            assert(tasks@[i as int].file == files@[i as int]);
            self.rows.push(row);
            assert(self.rows@.take(first.len() as int) =~= rows.take(first.len() as int));
            assert forall|k: int| 0 <= k < i implies #[trigger] self.rows@[first.len() + k]
                == rows[first.len() + k] by {}
            i += 1;
        }
        self.preview_row = None;
    }

    /// Takes over the videos that were read.
    pub fn on_probe_done(&mut self, result: Result<Vec<EpisodeFile>, String>)
        ensures
            after_probe_done(*old(self), *final(self), result),
    {
        self.busy = Busy::Idle;
        match &result {
            Ok(files) => {
                self.build_rows(files);
                let line = "导入完成，共 ".to_string().concat(
                    decimal_text(files.len() as u128).as_str(),
                ).concat(" 个视频文件");
                self.log(LogLevel::Info, line.as_str());
                if self.rows.len() < 2 {
                    self.log(LogLevel::Warn, ONE_EPISODE);
                }
                self.status_line = "已导入 ".to_string().concat(
                    decimal_text(files.len() as u128).as_str(),
                ).concat(" 个文件");
            },
            Err(e) => {
                let line = "探测失败：".to_string().concat(e.as_str());
                self.log(LogLevel::Error, line.as_str());
                self.status_line = "探测失败".to_string();
            },
        }
        self.stage = String::new();
        self.progress = Fraction::Of { part: 0, whole: 1 };
    }

    /// Takes over what is told while detection goes on.
    pub fn handle_detect_event(&mut self, event: DetectEvent)
        ensures
            after_detect_event(*old(self), *final(self), event@),
    {
        match event {
            DetectEvent::Stage(s) => {
                let line = "== ".to_string().concat(s.as_str()).concat(" ==");
                self.stage = s;
                self.log(LogLevel::Info, line.as_str());
            },
            DetectEvent::Log(l) => {
                self.log(LogLevel::Info, l.as_str());
            },
            DetectEvent::EpisodeDone { index, total, name } => {
                self.counter = (index, total);
                self.progress = episode_progress(index, total);
                let line = "分析完成 [".to_string().concat(
                    decimal_text(index as u128).as_str(),
                ).concat("/").concat(decimal_text(total as u128).as_str()).concat("] ").concat(
                    name.as_str(),
                );
                self.log(LogLevel::Info, line.as_str());
            },
            DetectEvent::EpisodeFailed { index, total, name, error } => {
                self.counter = (index, total);
                self.progress = episode_progress(index, total);
                let line = "分析失败 [".to_string().concat(
                    decimal_text(index as u128).as_str(),
                ).concat("/").concat(decimal_text(total as u128).as_str()).concat("] ").concat(
                    name.as_str(),
                ).concat("：").concat(error.as_str());
                self.log(LogLevel::Warn, line.as_str());
            },
        }
    }

    /// Warns where the openings of the episodes start at very different times.
    /// Something else may have come among the episodes.
    pub fn warn_on_inconsistent_openings(&mut self)
        ensures
            *final(self) == (App { logs: final(self).logs, ..*old(self) }),
            final(self).log_lines() == warned(old(self).log_lines(), old(self).rows@),
    {
        let mut count: usize = 0;
        let mut min = Secs::PosInf;
        let mut max = Secs::NegInf;
        let mut i: usize = 0;
        while i < self.rows.len()
            invariant
                *self == *old(self),
                i <= self.rows@.len(),
                count == opening_starts(self.rows@.take(i as int)).len(),
                count <= i,
                min == earliest(opening_starts(self.rows@.take(i as int))),
                max == latest(opening_starts(self.rows@.take(i as int))),
            decreases self.rows@.len() - i,
        {
            let ghost sofar = opening_starts(self.rows@.take(i as int));
            assert(self.rows@.take(i + 1).drop_last() =~= self.rows@.take(i as int));
            if let Some(o) = self.rows[i].task.detection.opening {
                count += 1;
                if o.start.lt(min) {
                    min = o.start;
                }
                if max.lt(o.start) {
                    max = o.start;
                }
                assert(sofar.push(o.start).drop_last() =~= sofar);
            }
            i += 1;
        }
        assert(self.rows@.take(i as int) =~= self.rows@);
        if count < 2 {
            return;
        }
        let spread = max.minus(min);
        if Secs::Finite(MAX_SPREAD_NANOS).lt(spread) {
            let line = "各集片头起点相差 ".to_string().concat(
                fixed_secs_text(spread, 1, 0).as_str(),
            ).concat(" 秒（最早 ").concat(fixed_secs_text(min, 1, 1).as_str()).concat(
                "s，最晚 ",
            ).concat(fixed_secs_text(max, 1, 1).as_str()).concat(
                "s），差异偏大。请用右侧预览逐集确认切点，或检查这批文件是不是同一个剧集。",
            );
            self.log(LogLevel::Warn, line.as_str());
        }
    }

    /// Takes over what was detected, each result for the episode in its place.
    pub fn on_detect_done(&mut self, result: Result<Vec<Detection>, String>)
        ensures
            after_detect_done(*old(self), *final(self), result),
    {
        self.busy = Busy::Idle;
        self.stage = String::new();
        match &result {
            Ok(detections) => {
                let mut found: usize = 0;
                let mut i: usize = 0;
                let ghost start = *self;
                while i < detections.len() && i < self.rows.len()
                    invariant
                        i <= detections@.len(),
                        i <= self.rows@.len(),
                        *self == (App { rows: self.rows, ..start }),
                        self.rows@.len() == start.rows@.len(),
                        found == found_among(detections@, i as nat),
                        found <= i,
                        forall|k: int|
                            0 <= k < i ==> row_detected(
                                start.rows@[k],
                                #[trigger] self.rows@[k],
                                detections@[k],
                            ),
                        forall|k: int|
                            i <= k < self.rows@.len() ==> #[trigger] self.rows@[k]
                                == start.rows@[k],
                    decreases detections@.len() - i,
                {
                    let det = detections[i];
                    self.take_detection(i, det);
                    if !det.is_empty() {
                        found += 1;
                    }
                    i += 1;
                }
                let line = "检测完成：".to_string().concat(
                    decimal_text(self.rows.len() as u128).as_str(),
                ).concat(" 集里 ").concat(decimal_text(found as u128).as_str()).concat(
                    " 集找到了片头或片尾",
                );
                self.log(LogLevel::Info, line.as_str());
                self.warn_on_inconsistent_openings();
                self.status_line = "检测完成，".to_string().concat(
                    decimal_text(found as u128).as_str(),
                ).concat(" 集有结果");
            },
            Err(e) => {
                let line = "检测失败：".to_string().concat(e.as_str());
                self.log(LogLevel::Error, line.as_str());
                self.status_line = "检测失败".to_string();
            },
        }
    }

    fn take_detection(&mut self, i: usize, det: Detection)
        requires
            i < old(self).rows@.len(),
        ensures
            *final(self) == (App { rows: final(self).rows, ..*old(self) }),
            only_row(*old(self), *final(self), i as int),
            row_detected(old(self).rows@[i as int], final(self).rows@[i as int], det),
    {
        let row = &mut self.rows[i];
        row.detected = det;
        row.task.detection = det;
        row.reset_texts_from_detection();
        recompute_task(&mut row.task);
        row.status = RowStatus::Idle;
    }
}

/// Nothing on the list has changed but one row.
pub open spec fn only_row(before: App, after: App, i: int) -> bool {
    &&& after.rows@.len() == before.rows@.len()
    &&& forall|k: int| 0 <= k < after.rows@.len() && k != i ==> #[trigger] after.rows@[k]
        == before.rows@[k]
}

fn episode_progress(index: usize, total: usize) -> (r: Fraction)
    ensures
        r == (Fraction::Of {
            part: index as i128,
            whole: if total == 0 {
                1
            } else {
                total as i128
            },
        }),
{
    let whole: i128 = if total == 0 {
        1
    } else {
        total as i128
    };
    Fraction::Of { part: index as i128, whole }
}

/// By how much the starts of the openings may differ, in nanoseconds: half a minute.
pub const MAX_SPREAD_NANOS: i128 = 30_000_000_000;

/// Where the openings start that were detected.
pub open spec fn opening_starts(rows: Seq<Row>) -> Seq<Secs>
    decreases rows.len(),
{
    if rows.len() == 0 {
        Seq::empty()
    } else {
        let before = opening_starts(rows.drop_last());
        match rows.last().task.detection.opening {
            Some(o) => before.push(o.start),
            None => before,
        }
    }
}

/// The earliest of the times.
pub open spec fn earliest(list: Seq<Secs>) -> Secs
    decreases list.len(),
{
    if list.len() == 0 {
        Secs::PosInf
    } else {
        let m = earliest(list.drop_last());
        if list.last().before(m) {
            list.last()
        } else {
            m
        }
    }
}

/// The latest of the times.
pub open spec fn latest(list: Seq<Secs>) -> Secs
    decreases list.len(),
{
    if list.len() == 0 {
        Secs::NegInf
    } else {
        let m = latest(list.drop_last());
        if m.before(list.last()) {
            list.last()
        } else {
            m
        }
    }
}

/// The log with a warning, where the openings start at very different times.
pub open spec fn warned(log: Seq<Line>, rows: Seq<Row>) -> Seq<Line> {
    let starts = opening_starts(rows);
    let min = earliest(starts);
    let max = latest(starts);
    let spread = max.minus_spec(min);
    if starts.len() >= 2 && Secs::Finite(MAX_SPREAD_NANOS).before(spread) {
        logged(
            log,
            LogLevel::Warn,
            "各集片头起点相差 "@ + fixed_secs(spread, 1, 0) + " 秒（最早 "@ + one_place(
                min,
            ) + "s，最晚 "@ + one_place(max)
                + "s），差异偏大。请用右侧预览逐集确认切点，或检查这批文件是不是同一个剧集。"@,
        )
    } else {
        log
    }
}

/// Whether the row has taken over what was detected.
pub open spec fn row_detected(before: Row, after: Row, d: Detection) -> bool {
    &&& after == (Row {
        task: after.task,
        detected: d,
        opening_start: after.opening_start,
        opening_end: after.opening_end,
        ending_start: after.ending_start,
        ending_end: after.ending_end,
        edit_error: None,
        status: RowStatus::Idle,
        ..before
    })
    &&& after.task.detection == d
    &&& after.task.file == before.task.file
    &&& after.task.output == before.task.output
    &&& is_planned(after.task)
    &&& after.shows_detection()
}

/// In how many of the first `n` something was found.
pub open spec fn found_among(list: Seq<Detection>, n: nat) -> nat
    decreases n,
{
    if n == 0 {
        0
    } else {
        found_among(list, (n - 1) as nat) + if list[n - 1].empty() {
            0nat
        } else {
            1nat
        }
    }
}

/// The state once detection is done.
pub open spec fn after_detect_done(
    before: App,
    after: App,
    result: Result<Vec<Detection>, String>,
) -> bool {
    &&& after == (App {
        busy: Busy::Idle,
        stage: after.stage,
        rows: after.rows,
        logs: after.logs,
        status_line: after.status_line,
        ..before
    })
    &&& after.stage@.len() == 0
    &&& match result {
        Ok(d) => {
            let rows = before.rows@.len();
            let n = if d@.len() < rows {
                d@.len()
            } else {
                rows
            };
            let found = found_among(d@, n);
            &&& after.rows@.len() == rows
            &&& forall|i: int|
                0 <= i < n ==> row_detected(before.rows@[i], #[trigger] after.rows@[i], d@[i])
            &&& forall|i: int| n <= i < rows ==> #[trigger] after.rows@[i] == before.rows@[i]
            &&& after.log_lines() == warned(
                logged(
                    before.log_lines(),
                    LogLevel::Info,
                    "检测完成："@ + decimal(rows) + " 集里 "@ + decimal(found)
                        + " 集找到了片头或片尾"@,
                ),
                after.rows@,
            )
            &&& after.status_line@ == "检测完成，"@ + decimal(found) + " 集有结果"@
        },
        Err(e) => {
            &&& after.rows == before.rows
            &&& after.log_lines() == logged(
                before.log_lines(),
                LogLevel::Error,
                "检测失败："@ + e@,
            )
            &&& after.status_line@ == "检测失败"@
        },
    }
}

/// The lines of a row.
pub open spec fn row_lines(log: Seq<String>) -> Seq<Seq<char>> {
    log.map_values(|l: String| l@)
}

/// The lines of a row with one more. The oldest makes room for it.
pub open spec fn row_logged(log: Seq<Seq<char>>, line: Seq<char>) -> Seq<Seq<char>> {
    (if log.len() >= MAX_ROW_LINES {
        log.skip(1)
    } else {
        log
    }).push(line)
}

/// The state after ffmpeg wrote a line about an episode.
pub open spec fn after_cut_line(before: App, after: App, index: usize, line: Seq<char>) -> bool {
    &&& after == (App { rows: after.rows, logs: after.logs, ..before })
    &&& after.log_lines() == logged(before.log_lines(), LogLevel::Info, line)
    &&& only_row(before, after, index as int)
    &&& index < before.rows@.len() ==> {
        let old_row = before.rows@[index as int];
        let row = after.rows@[index as int];
        &&& row == (Row { log: row.log, ..old_row })
        &&& row_lines(row.log@) == row_logged(row_lines(old_row.log@), line)
    }
}

/// A fraction between nothing and all.
pub open spec fn within_range(f: Fraction) -> Fraction {
    match f {
        Fraction::Of { part, whole } => if part < 0 {
            Fraction::Of { part: 0, whole: 1 }
        } else if part > whole {
            Fraction::Of { part: 1, whole: 1 }
        } else {
            f
        },
        Fraction::Unknown => f,
    }
}

fn clamp_fraction(f: Fraction) -> (r: Fraction)
    ensures
        r == within_range(f),
{
    match f {
        Fraction::Of { part, whole } => if part < 0 {
            Fraction::Of { part: 0, whole: 1 }
        } else if part > whole {
            Fraction::Of { part: 1, whole: 1 }
        } else {
            f
        },
        Fraction::Unknown => f,
    }
}

/// The state while an episode is cut.
pub open spec fn after_cut_progress(before: App, after: App, index: usize, f: Fraction) -> bool {
    &&& after == (App { rows: after.rows, ..before })
    &&& only_row(before, after, index as int)
    &&& index < before.rows@.len() ==> after.rows@[index as int] == (Row {
        progress: within_range(f),
        ..before.rows@[index as int]
    })
}

/// What is told of an episode that was cut.
pub open spec fn finished_line(index: usize, result: Result<CutInfo, String>) -> Line {
    match result {
        Ok(info) => (
            LogLevel::Info,
            "["@ + decimal((index + 1) as nat) + "] 完成，保留 "@ + one_place(info.kept_secs)
                + "s -> "@ + match file_name_of(info.output@) {
                Some(n) => n,
                None => Seq::empty(),
            },
        ),
        Err(e) => (LogLevel::Error, "["@ + decimal((index + 1) as nat) + "] 失败："@ + e@),
    }
}

/// The state once an episode was cut.
pub open spec fn after_cut_finished(
    before: App,
    after: App,
    index: usize,
    result: Result<CutInfo, String>,
) -> bool {
    let line = finished_line(index, result);
    &&& after == (App { rows: after.rows, logs: after.logs, ..before })
    &&& after.log_lines() == logged(before.log_lines(), line.0, line.1)
    &&& only_row(before, after, index as int)
    &&& index < before.rows@.len() ==> {
        let old_row = before.rows@[index as int];
        after.rows@[index as int] == (Row {
            progress: Fraction::Of { part: 1, whole: 1 },
            status: match result {
                Ok(_) => RowStatus::Done {
                    removed_secs: match old_row.task.removed_spec() {
                        Some(t) => t,
                        None => zero(),
                    },
                },
                Err(e) => RowStatus::Failed(e),
            },
            ..old_row
        })
    }
}

/// What came of all.
pub open spec fn summary_text(s: CutSummary) -> Seq<char> {
    "切割结束：成功 "@ + decimal(s.succeeded as nat) + "，失败 "@ + decimal(s.failed as nat)
        + "，跳过 "@ + decimal(s.skipped as nat) + "，共产出 "@ + fixed_secs(
        s.produced_secs,
        60,
        1,
    ) + " 分钟"@
}

/// The state once all episodes were cut.
pub open spec fn after_all_cut(before: App, after: App, s: CutSummary) -> bool {
    &&& after == (App {
        busy: Busy::Idle,
        stage: after.stage,
        progress: Fraction::Of { part: 1, whole: 1 },
        status_line: after.status_line,
        logs: after.logs,
        ..before
    })
    &&& after.stage@.len() == 0
    &&& after.status_line@ == summary_text(s)
    &&& after.log_lines() == logged(
        before.log_lines(),
        if s.failed > 0 {
            LogLevel::Warn
        } else {
            LogLevel::Info
        },
        summary_text(s),
    )
}

/// The directory to show once all episodes were cut: that of the outputs, where
/// there are any.
pub open spec fn dir_to_show(app: App, s: CutSummary) -> Option<Seq<char>> {
    if s.succeeded > 0 {
        maybe_string(app.out_dir)
    } else {
        None
    }
}

/// The state after a frame could not be had.
pub open spec fn after_preview_failed(before: App, after: App, index: usize, error: String) -> bool {
    &&& after == (App { rows: after.rows, logs: after.logs, ..before })
    &&& after.log_lines() == logged(
        before.log_lines(),
        LogLevel::Warn,
        "抽帧预览失败："@ + error@,
    )
    &&& only_row(before, after, index as int)
    &&& index < before.rows@.len() ==> {
        let old_row = before.rows@[index as int];
        after.rows@[index as int] == (Row {
            preview: PreviewState { loading: false, error: Some(error), ..old_row.preview },
            ..old_row
        })
    }
}

/// The state after a picture was loaded, or could not be.
pub open spec fn after_picture(
    before: App,
    after: App,
    index: usize,
    decoded: Result<(), String>,
    at_secs: Secs,
) -> bool {
    &&& after == (App { rows: after.rows, ..before })
    &&& only_row(before, after, index as int)
    &&& index < before.rows@.len() ==> {
        let old_row = before.rows@[index as int];
        let row = after.rows@[index as int];
        &&& row == (Row { preview: row.preview, ..old_row })
        &&& match decoded {
            Ok(_) => row.preview == (PreviewState {
                loading: false,
                has_picture: true,
                at_secs: Some(at_secs),
                error: None,
            }),
            Err(e) => {
                &&& row.preview == (PreviewState {
                    loading: false,
                    error: row.preview.error,
                    ..old_row.preview
                })
                &&& maybe_string(row.preview.error) == Some("图片解码失败："@ + e@)
            },
        }
    }
}

/// What becomes of the state with a message, and what is to be done at once.
pub open spec fn after_message(
    before: App,
    after: App,
    msg: WorkerMessage,
    found: Option<FfmpegTools>,
    effect: Effect,
) -> bool {
    match msg {
        WorkerMessage::ToolsChecked(result) => after_tools(before, after, result, found)
            && effect is Nothing,
        WorkerMessage::ProbeProgress { current, total, name } => after_probe_progress(
            before,
            after,
            current,
            total,
            name@,
        ) && effect is Nothing,
        WorkerMessage::ProbeDone(result) => after_probe_done(before, after, result)
            && effect is Nothing,
        WorkerMessage::Detect(event) => after_detect_event(before, after, event@)
            && effect is Nothing,
        WorkerMessage::DetectDone(result) => after_detect_done(before, after, result)
            && effect is Nothing,
        WorkerMessage::CutLine { index, line } => after_cut_line(before, after, index, line@)
            && effect is Nothing,
        WorkerMessage::CutProgress { index, fraction } => after_cut_progress(
            before,
            after,
            index,
            fraction,
        ) && effect is Nothing,
        WorkerMessage::CutFinished { index, result } => after_cut_finished(
            before,
            after,
            index,
            result,
        ) && effect is Nothing,
        WorkerMessage::CutAllDone(s) => after_all_cut(before, after, s) && match effect {
            Effect::OpenDir(d) => dir_to_show(before, s) == Some(d@),
            Effect::Nothing => dir_to_show(before, s) is None,
            _ => false,
        },
        WorkerMessage::PreviewReady { index, png, at_secs } => after == before && effect == (
        Effect::LoadPicture { index, png, at_secs }),
        WorkerMessage::PreviewFailed { index, error } => after_preview_failed(
            before,
            after,
            index,
            error,
        ) && effect is Nothing,
    }
}

impl App {
    /// Takes over a line that ffmpeg wrote about an episode.
    pub fn on_cut_line(&mut self, index: usize, line: &str)
        ensures
            after_cut_line(*old(self), *final(self), index, line@),
    {
        if index < self.rows.len() {
            let row = &mut self.rows[index];
            let ghost before = row.log@;
            if row.log.len() >= MAX_ROW_LINES {
                let _oldest = row.log.pop_front();
                assert(row_lines(row.log@) =~= row_lines(before).skip(1));
            }
            let ghost kept = row.log@;
            row.log.push_back(line.to_string());
            assert(row_lines(row.log@) =~= row_lines(kept).push(line@));
        }
        self.log(LogLevel::Info, line);
    }

    /// Takes over how far the cutting of an episode is.
    pub fn on_cut_progress(&mut self, index: usize, fraction: Fraction)
        ensures
            after_cut_progress(*old(self), *final(self), index, fraction),
    {
        if index < self.rows.len() {
            let row = &mut self.rows[index];
            row.progress = clamp_fraction(fraction);
        }
    }

    /// Takes over what came of the cutting of an episode.
    pub fn on_cut_finished(&mut self, index: usize, result: Result<CutInfo, String>)
        ensures
            after_cut_finished(*old(self), *final(self), index, result),
    {
        let number = decimal_text(index as u128 + 1);
        let (level, line) = match &result {
            Ok(info) => {
                let name = match file_name(info.output.as_str()) {
                    Some(n) => n,
                    None => String::new(),
                };
                assert(name@ == (match file_name_of(info.output@) {
                    Some(n) => n,
                    None => Seq::<char>::empty(),
                }));
                (
                    LogLevel::Info,
                    "[".to_string().concat(number.as_str()).concat("] 完成，保留 ").concat(
                        fixed_secs_text(info.kept_secs, 1, 1).as_str(),
                    ).concat("s -> ").concat(name.as_str()),
                )
            },
            Err(e) => (
                LogLevel::Error,
                "[".to_string().concat(number.as_str()).concat("] 失败：").concat(e.as_str()),
            ),
        };
        assert((level, line@) == finished_line(index, result));
        if index < self.rows.len() {
            let row = &mut self.rows[index];
            let removed = match row.task.removed_secs() {
                Some(t) => t,
                None => Secs::Finite(0),
            };
            row.progress = Fraction::Of { part: 1, whole: 1 };
            row.status = match result {
                Ok(_) => RowStatus::Done { removed_secs: removed },
                Err(e) => RowStatus::Failed(e),
            };
        }
        self.log(level, line.as_str());
    }

    /// Takes over what came of all.
    pub fn on_all_cut(&mut self, s: CutSummary) -> (r: Option<String>)
        ensures
            after_all_cut(*old(self), *final(self), s),
            maybe_string(r) == dir_to_show(*old(self), s),
    {
        self.busy = Busy::Idle;
        self.stage = String::new();
        self.progress = Fraction::Of { part: 1, whole: 1 };
        let text = "切割结束：成功 ".to_string().concat(
            decimal_text(s.succeeded as u128).as_str(),
        ).concat("，失败 ").concat(decimal_text(s.failed as u128).as_str()).concat("，跳过 ").concat(
            decimal_text(s.skipped as u128).as_str(),
        ).concat("，共产出 ").concat(
            fixed_secs_text(s.produced_secs, 60, 1).as_str(),
        ).concat(" 分钟");
        let level = if s.failed > 0 {
            LogLevel::Warn
        } else {
            LogLevel::Info
        };
        self.log(level, text.as_str());
        self.status_line = text;
        if s.succeeded > 0 {
            match &self.out_dir {
                Some(d) => Some(d.clone()),
                None => None,
            }
        } else {
            None
        }
    }

    /// Takes over that a frame could not be had.
    pub fn on_preview_failed(&mut self, index: usize, error: String)
        ensures
            after_preview_failed(*old(self), *final(self), index, error),
    {
        let line = "抽帧预览失败：".to_string().concat(error.as_str());
        if index < self.rows.len() {
            let row = &mut self.rows[index];
            row.preview.loading = false;
            row.preview.error = Some(error);
        }
        self.log(LogLevel::Warn, line.as_str());
    }

    /// Takes over that a picture was loaded, or could not be.
    pub fn load_preview_texture(
        &mut self,
        index: usize,
        decoded: Result<(), String>,
        at_secs: Secs,
    )
        ensures
            after_picture(*old(self), *final(self), index, decoded, at_secs),
    {
        if index < self.rows.len() {
            let row = &mut self.rows[index];
            row.preview.loading = false;
            match decoded {
                Ok(_) => {
                    row.preview.has_picture = true;
                    row.preview.at_secs = Some(at_secs);
                    row.preview.error = None;
                },
                Err(e) => {
                    row.preview.error = Some(
                        "图片解码失败：".to_string().concat(e.as_str()),
                    );
                },
            }
        }
    }

    /// Takes over what a working thread reports. `found` is what is in the
    /// directory of ffmpeg, where the message is that the programs were looked for.
    pub fn handle_message(&mut self, msg: WorkerMessage, found: Option<FfmpegTools>) -> (r: Effect)
        ensures
            after_message(*old(self), *final(self), msg, found, r),
    {
        match msg {
            WorkerMessage::ToolsChecked(result) => {
                self.on_tools_checked(result, found);
                Effect::Nothing
            },
            WorkerMessage::ProbeProgress { current, total, name } => {
                self.on_probe_progress(current, total, name.as_str());
                Effect::Nothing
            },
            WorkerMessage::ProbeDone(result) => {
                self.on_probe_done(result);
                Effect::Nothing
            },
            WorkerMessage::Detect(event) => {
                self.handle_detect_event(event);
                Effect::Nothing
            },
            WorkerMessage::DetectDone(result) => {
                self.on_detect_done(result);
                Effect::Nothing
            },
            WorkerMessage::CutLine { index, line } => {
                self.on_cut_line(index, line.as_str());
                Effect::Nothing
            },
            WorkerMessage::CutProgress { index, fraction } => {
                self.on_cut_progress(index, fraction);
                Effect::Nothing
            },
            WorkerMessage::CutFinished { index, result } => {
                self.on_cut_finished(index, result);
                Effect::Nothing
            },
            WorkerMessage::CutAllDone(s) => match self.on_all_cut(s) {
                Some(dir) => Effect::OpenDir(dir),
                None => Effect::Nothing,
            },
            WorkerMessage::PreviewReady { index, png, at_secs } => Effect::LoadPicture {
                index,
                png,
                at_secs,
            },
            WorkerMessage::PreviewFailed { index, error } => {
                self.on_preview_failed(index, error);
                Effect::Nothing
            },
        }
    }
}

} // verus!
