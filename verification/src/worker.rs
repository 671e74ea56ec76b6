//! What the threads that do the work and the window tell each other.

use vstd::prelude::*;

use crate::cut::{CutOutcome, Fraction};
use crate::detect::cli::CliDetector;
use crate::detect::DetectEvent;
use crate::error::CoreError;
use crate::model::{Detection, EpisodeFile};
use crate::paths::{join, joined_path};
use crate::pipeline::CutSummary;
use crate::probe::FfmpegTools;
use crate::secs::Secs;
use crate::text::{decimal, decimal_text, maybe_string};

verus! {

/// Whether needle is there as a library. It is not, unless it was built in.
pub const NEEDLE_LIB: bool = false;

/// The way in which needle is used.
#[derive(Debug, PartialEq, Eq)]
pub enum DetectorChoice {
    /// As a program.
    Cli(CliDetector),
    /// As a library.
    Library,
}

impl Clone for DetectorChoice {
    fn clone(&self) -> (r: Self)
        ensures
            r == *self,
    {
        match self {
            DetectorChoice::Cli(d) => DetectorChoice::Cli(d.clone()),
            DetectorChoice::Library => DetectorChoice::Library,
        }
    }
}

impl DetectorChoice {
    /// The name of the way.
    pub open spec fn label_spec(self) -> Seq<char> {
        match self {
            DetectorChoice::Cli(_) => "needle 子进程"@,
            DetectorChoice::Library => "needle-rs 库直链"@,
        }
    }

    /// The way, with the program that is run.
    pub open spec fn description(self) -> Seq<char> {
        match self {
            DetectorChoice::Cli(d) => "needle 子进程（"@ + d.needle_exe@ + "）"@,
            DetectorChoice::Library => "needle-rs 库直链（不产生 .needle.dat）"@,
        }
    }

    pub fn label(&self) -> (r: &'static str)
        ensures
            r@ == self.label_spec(),
    {
        match self {
            DetectorChoice::Cli(_) => "needle 子进程",
            DetectorChoice::Library => "needle-rs 库直链",
        }
    }

    pub fn describe(&self) -> (r: String)
        ensures
            r@ == self.description(),
    {
        match self {
            DetectorChoice::Cli(d) => "needle 子进程（".to_string().concat(
                d.needle_exe.as_str(),
            ).concat("）"),
            DetectorChoice::Library => "needle-rs 库直链（不产生 .needle.dat）".to_string(),
        }
    }

    /// Whether there is something to tell of each video, and whether the user's
    /// wish to stop is heeded at once.
    pub fn has_fine_grained_progress(&self) -> (r: bool)
        ensures
            r == (self is Cli),
    {
        match self {
            DetectorChoice::Cli(_) => true,
            DetectorChoice::Library => false,
        }
    }
}

/// The way in which needle is used: as a library where the user prefers that, as
/// a program where there is one, as a library where there is none. `built_in`
/// tells whether there is a library at all.
pub open spec fn is_choice(
    needle: Option<Seq<char>>,
    prefer_library: bool,
    built_in: bool,
    choice: Option<DetectorChoice>,
) -> bool {
    match choice {
        Some(DetectorChoice::Library) => built_in && (prefer_library || needle is None),
        Some(DetectorChoice::Cli(d)) => needle == Some(d.needle_exe@) && !(built_in
            && prefer_library),
        None => needle is None && !built_in,
    }
}

/// The way in which needle is used, where it may be there as a library or not.
pub fn choose_detector(needle: &Option<String>, prefer_library: bool, built_in: bool) -> (r: Option<
    DetectorChoice,
>)
    ensures
        is_choice(maybe_string(*needle), prefer_library, built_in, r),
{
    if built_in && prefer_library {
        return Some(DetectorChoice::Library);
    }
    match needle {
        Some(p) => Some(DetectorChoice::Cli(CliDetector::new(p.as_str()))),
        None => if built_in {
            Some(DetectorChoice::Library)
        } else {
            None
        },
    }
}

/// The way in which needle is used.
pub fn pick_detector(needle: &Option<String>, prefer_library: bool) -> (r: Option<DetectorChoice>)
    ensures
        is_choice(maybe_string(*needle), prefer_library, NEEDLE_LIB, r),
{
    choose_detector(needle, prefer_library, NEEDLE_LIB)
}

/// What is known of the programs.
#[derive(Debug, PartialEq, Eq)]
pub struct ToolInfo {
    pub ffmpeg: String,
    pub ffmpeg_version: String,
    pub needle: Option<String>,
    pub needle_version: Option<String>,
}

/// What came of cutting a video.
#[derive(Debug, PartialEq)]
pub struct CutInfo {
    pub output: String,
    pub kept_secs: Secs,
}

/// What the threads tell the window.
#[derive(Debug)]
pub enum WorkerMessage {
    /// The programs were looked for. The error is for the user to read.
    ToolsChecked(Result<ToolInfo, String>),
    ProbeProgress { current: usize, total: usize, name: String },
    ProbeDone(Result<Vec<EpisodeFile>, String>),
    Detect(DetectEvent),
    DetectDone(Result<Vec<Detection>, String>),
    CutLine { index: usize, line: String },
    CutProgress { index: usize, fraction: Fraction },
    CutFinished { index: usize, result: Result<CutInfo, String> },
    CutAllDone(CutSummary),
    /// A frame is there; `png` is a picture that is to be removed.
    PreviewReady { index: usize, png: String, at_secs: Secs },
    PreviewFailed { index: usize, error: String },
}

/// What is known of the programs: ffmpeg and ffprobe must be there, and needle
/// may be missing, since openings and endings can be typed in.
pub fn tools_checked(
    tools: Result<FfmpegTools, CoreError>,
    ffmpeg_version: Result<String, CoreError>,
    needle: Result<CliDetector, CoreError>,
    needle_version: Result<String, CoreError>,
) -> (r: Result<ToolInfo, String>)
    ensures
        match tools {
            Err(e) => r matches Err(text) && text@ == e@.text(),
            Ok(t) => r matches Ok(info) && {
                &&& info.ffmpeg == t.ffmpeg
                &&& info.ffmpeg_version@ == (match ffmpeg_version {
                    Ok(v) => v@,
                    Err(_) => "版本未知"@,
                })
                &&& info.needle == (match needle {
                    Ok(d) => Some(d.needle_exe),
                    Err(_) => None,
                })
                &&& info.needle_version == (match (needle, needle_version) {
                    (Ok(_), Ok(v)) => Some(v),
                    _ => None,
                })
            },
        },
{
    match tools {
        Err(e) => Err(e.message()),
        Ok(t) => {
            let version = match ffmpeg_version {
                Ok(v) => v,
                Err(_) => "版本未知".to_string(),
            };
            let (path, needle_version) = match needle {
                Ok(d) => (
                    Some(d.needle_exe),
                    match needle_version {
                        Ok(v) => Some(v),
                        Err(_) => None,
                    },
                ),
                Err(_) => (None, None),
            };
            Ok(
                ToolInfo {
                    ffmpeg: t.ffmpeg,
                    ffmpeg_version: version,
                    needle: path,
                    needle_version,
                },
            )
        },
    }
}

/// What the window is told of a video that was cut.
pub fn cut_info(outcome: &Result<CutOutcome, CoreError>) -> (r: Result<CutInfo, String>)
    ensures
        match *outcome {
            Ok(o) => r == Ok::<CutInfo, String>(
                CutInfo { output: o.output, kept_secs: o.kept_secs },
            ),
            Err(e) => r matches Err(text) && text@ == e@.text(),
        },
{
    match outcome {
        Ok(o) => Ok(CutInfo { output: o.output.clone(), kept_secs: o.kept_secs }),
        Err(e) => Err(e.message()),
    }
}

/// The picture for a frame of a video. The time keeps two pictures of one video
/// apart.
pub fn preview_path(temp_dir: &str, index: usize, millis: u128) -> (r: String)
    ensures
        r@ == joined_path(
            joined_path(temp_dir@, "intro-outro-remover-preview"@),
            "frame-"@ + decimal(index as nat) + "-"@ + decimal(millis as nat) + ".png"@,
        ),
{
    let dir = join(temp_dir, "intro-outro-remover-preview");
    let name = "frame-".to_string().concat(decimal_text(index as u128).as_str()).concat("-").concat(
        decimal_text(millis).as_str(),
    ).concat(".png");
    join(dir.as_str(), name.as_str())
}

} // verus!
