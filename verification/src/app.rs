//! The state behind the window: what is on the list, what is going on, what the
//! user is told.
//!
//! The window only draws this state and hands over what the user does and what
//! the working threads report. What is to be started then comes back as a
//! [`Launch`], what is to be done at once as an [`Effect`].

use std::collections::VecDeque;

use vstd::prelude::*;

use crate::cut::{CutMode, Cutter, Fraction};
use crate::detect::{default_options, DetectOptions};
use crate::model::EpisodeTask;
use crate::pipeline::DEFAULT_OUTPUT_SUFFIX;
use crate::probe::FfmpegTools;
use crate::rows::{no_progress, Row};
use crate::secs::Secs;
use crate::worker::{DetectorChoice, ToolInfo};

pub mod messages;
pub mod start;
pub mod views;

verus! {

/// How many lines the log keeps.
pub const MAX_LOG_LINES: usize = 1000;

/// How many lines of ffmpeg a row keeps.
pub const MAX_ROW_LINES: usize = 200;

/// How serious a line of the log is.
#[derive(Debug, Clone, Copy, PartialEq, Eq, Structural)]
pub enum LogLevel {
    Info,
    Warn,
    Error,
}

/// A line of the log.
#[derive(Debug)]
pub struct LogLine {
    pub level: LogLevel,
    pub text: String,
}

/// A line of the log, with its text as a sequence of characters.
pub type Line = (LogLevel, Seq<char>);

/// The lines of the log.
pub open spec fn lines(logs: Seq<LogLine>) -> Seq<Line> {
    logs.map_values(|l: LogLine| (l.level, l.text@))
}

/// The log with a line more. The oldest makes room for it where it is full.
pub open spec fn logged(log: Seq<Line>, level: LogLevel, text: Seq<char>) -> Seq<Line> {
    (if log.len() >= MAX_LOG_LINES {
        log.skip(1)
    } else {
        log
    }).push((level, text))
}

/// What is going on.
#[derive(Debug, Clone, Copy, PartialEq, Eq, Structural)]
pub enum Busy {
    Idle,
    Probing,
    Detecting,
    Cutting,
}

/// The state behind the window.
#[derive(Debug)]
pub struct App {
    pub tools: Option<FfmpegTools>,
    pub cutter: Option<Cutter>,
    pub tool_info: Option<ToolInfo>,
    pub tool_error: Option<String>,
    /// The directories that the user named for the programs, or nothing.
    pub ffmpeg_dir: String,
    pub needle_dir: String,
    pub rows: Vec<Row>,
    /// Whether directories below those that are given are looked into.
    pub recursive_scan: bool,
    /// The row whose frame is shown.
    pub preview_row: Option<usize>,
    /// How needle is used; not known before the programs were looked for.
    pub detector: Option<DetectorChoice>,
    pub prefer_library: bool,
    pub detect_opts: DetectOptions,
    pub out_dir: Option<String>,
    pub out_suffix: String,
    pub overwrite: bool,
    pub cut_mode: CutMode,
    pub busy: Busy,
    pub stage: String,
    /// How many are done, of how many.
    pub counter: (usize, usize),
    pub progress: Fraction,
    pub logs: VecDeque<LogLine>,
    pub status_line: String,
}

/// Work that is to be started.
#[derive(Debug)]
pub enum Launch {
    Probe { tools: FfmpegTools, paths: Vec<String> },
    Detect { detector: DetectorChoice, files: Vec<String>, opts: DetectOptions },
    Cut { cutter: Cutter, tasks: Vec<EpisodeTask>, mode: CutMode, overwrite: bool },
    Preview { cutter: Cutter, video: String, at_secs: Secs, index: usize },
}

/// What is to be done at once.
#[derive(Debug)]
pub enum Effect {
    Nothing,
    /// Show a directory to the user.
    OpenDir(String),
    /// Load a picture, and remove its file.
    LoadPicture { index: usize, png: String, at_secs: Secs },
}

impl App {
    /// The window before anything was done. `cores` is the number of processors.
    pub fn new(cores: Option<usize>) -> (r: App)
        ensures
            r.tools is None && r.cutter is None && r.tool_info is None && r.tool_error is None,
            r.ffmpeg_dir@.len() == 0 && r.needle_dir@.len() == 0,
            r.rows@.len() == 0 && r.preview_row is None && !r.recursive_scan,
            r.detector is None && !r.prefer_library,
            r.out_dir is None && r.out_suffix@ == DEFAULT_OUTPUT_SUFFIX@,
            !r.overwrite && r.cut_mode is Fast && r.busy is Idle,
            r.stage@.len() == 0 && r.counter == (0usize, 0usize) && r.progress == no_progress(),
            r.logs@.len() == 0,
            r.status_line@ == "正在检查 ffmpeg / needle…"@,
            r.detect_opts == default_options(cores),
    {
        App {
            tools: None,
            cutter: None,
            tool_info: None,
            tool_error: None,
            ffmpeg_dir: String::new(),
            needle_dir: String::new(),
            rows: Vec::new(),
            recursive_scan: false,
            preview_row: None,
            detector: None,
            prefer_library: false,
            detect_opts: DetectOptions::new(cores),
            out_dir: None,
            out_suffix: DEFAULT_OUTPUT_SUFFIX.to_string(),
            overwrite: false,
            cut_mode: CutMode::Fast,
            busy: Busy::Idle,
            stage: String::new(),
            counter: (0, 0),
            progress: Fraction::Of { part: 0, whole: 1 },
            logs: VecDeque::new(),
            status_line: "正在检查 ffmpeg / needle…".to_string(),
        }
    }

    /// The lines of the log.
    pub open spec fn log_lines(self) -> Seq<Line> {
        lines(self.logs@)
    }

    /// Adds a line to the log.
    pub fn log(&mut self, level: LogLevel, text: &str)
        ensures
            final(self).log_lines() == logged(old(self).log_lines(), level, text@),
            *final(self) == (App { logs: final(self).logs, ..*old(self) }),
    {
        let ghost before = self.logs@;
        if self.logs.len() >= MAX_LOG_LINES {
            let _oldest = self.logs.pop_front();
            assert(lines(self.logs@) =~= lines(before).skip(1));
        }
        let ghost kept = self.logs@;
        self.logs.push_back(LogLine { level, text: text.to_string() });
        assert(lines(self.logs@) =~= lines(kept).push((level, text@)));
    }
}

} // verus!
