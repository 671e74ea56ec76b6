//! The engine of a tool that cuts the common opening and ending out of every
//! episode of a television season.
//!
//! ```text
//! scan_videos      the videos among the paths that the user gave
//!      ↓
//! ProbeRun         length, picture and sound of each, with ffprobe
//!      ↓
//! DetectJob        where each has its opening and its ending, with needle as a
//! LibraryJob       program, or as a library
//!      ↓
//! build_tasks      what is kept of each, and whether it is to be cut at all
//!      ↓
//! CutBatch         one after the other is cut with ffmpeg, by a CutJob
//! ```
//!
//! Programs are run, files read and windows drawn elsewhere. This crate decides
//! what is run and read, and what follows from what came of it; every decision
//! has a contract. Beyond the contracts, [`laws`] states what holds of the whole.
//!
//! Times are whole nanoseconds ([`secs`]), written as numbers of 64 bits are
//! ([`binary`]), and paths are texts ([`paths`]).

pub mod app;
pub mod bignum;
pub mod binary;
pub mod cut;
pub mod detect;
pub mod error;
pub mod exec;
pub mod fonts;
pub mod laws;
pub mod model;
pub mod needle;
pub mod numbers;
pub mod paths;
pub mod pipeline;
pub mod probe;
pub mod rows;
pub mod secs;
pub mod show;
pub mod skipfile;
pub mod text;
pub mod worker;

pub use cut::{CutMode, CutObserver, CutOutcome, CutRequest, Cutter, NoopObserver};
pub use detect::cli::CliDetector;
pub use detect::library::LibraryDetector;
pub use detect::{new_cancel_flag, CancelFlag, DetectEvent, DetectOptions};
pub use error::CoreError;
pub use model::{
    format_clock, format_timestamp, keep_segments, parse_timestamp, Detection, EpisodeFile,
    EpisodeTask, Segment, TaskKind,
};
pub use pipeline::{CutSink, CutSummary};
pub use probe::{FfmpegTools, MediaInfo};
