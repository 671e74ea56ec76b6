//! Cutting a video with ffmpeg: taking out the opening and the ending and putting
//! the rest into a new file.
//!
//! There are two modes. `-ss` always stands before `-i`.
//!
//! | Mode | Command | Precision | Quality |
//! |---|---|---|---|
//! | [`CutMode::Fast`] | `-ss`, `-t`, `-c copy` | starts at a key frame, up to some seconds early | as it was |
//! | [`CutMode::Precise`] | `-ss`, `-t`, new encoding | to the frame | libx264, CRF 18 |
//!
//! The length is given with `-t`: what `-to` means depends on where `-ss` stands.
//!
//! One piece takes one run of ffmpeg. Several pieces go to files of their own in
//! a hidden directory beside the output and are joined from there. What is run,
//! written and removed, and in which order, is decided by a [`CutJob`]; doing it
//! is left to the caller.

use vstd::prelude::*;

use crate::error::{outcome, CoreError, Fault};
use crate::exec::{CommandLine, ExecResult, Stream, Words};
use crate::model::Segment;
use crate::numbers::{fixed_secs, fixed_secs_text, parse_time, spelled, MICROSECONDS, SECONDS};
use crate::paths::{join, joined_path, parent, parent_of, same_path, steps};
use crate::secs::{zero, Secs};
use crate::text::{
    chars_of, decimal, decimal_text, find_char, first_at, lemma_first_at, maybe_string, pieces,
    replace_char, replaced, same_chars, split_chars, text_of, trim, trim_chars, trimmed,
};

pub mod job;

verus! {

/// The quality of a new encoding; 18 is close to what the eye can tell apart.
pub const PRECISE_CRF: &'static str = "18";

/// The speed of a new encoding.
pub const PRECISE_PRESET: &'static str = "medium";

/// How a video is cut.
#[derive(Debug, Clone, Copy, PartialEq, Eq, Structural)]
pub enum CutMode {
    /// The streams are copied. It takes seconds, and starts at a key frame.
    Fast,
    /// The streams are encoded anew. It is precise, and takes its time.
    Precise,
}

impl CutMode {
    /// What the window shows for the mode.
    pub open spec fn label_spec(self) -> Seq<char> {
        match self {
            CutMode::Fast => "快速（流复制，无损）"@,
            CutMode::Precise => "精确（重新编码，帧精确）"@,
        }
    }

    pub fn label(&self) -> (r: &'static str)
        ensures
            r@ == self.label_spec(),
    {
        match self {
            CutMode::Fast => "快速（流复制，无损）",
            CutMode::Precise => "精确（重新编码，帧精确）",
        }
    }

    /// Whether the output starts where it was told to, and not a little earlier.
    pub fn is_frame_accurate(&self) -> (r: bool)
        ensures
            r == (self is Precise),
    {
        match self {
            CutMode::Precise => true,
            CutMode::Fast => false,
        }
    }
}

/// What is to be cut.
#[derive(Debug, PartialEq)]
pub struct CutRequest {
    pub input: String,
    pub output: String,
    /// What is kept: ascending and without overlaps.
    pub keep: Vec<Segment>,
    pub mode: CutMode,
    /// Whether an output that is there already may be replaced.
    pub overwrite: bool,
}

/// What came of cutting.
#[derive(Debug, PartialEq)]
pub struct CutOutcome {
    pub output: String,
    /// How much the output holds, by the plan.
    pub kept_secs: Secs,
    /// How many pieces there are in it.
    pub segments: usize,
    /// Whether the pieces had to be joined.
    pub used_concat: bool,
}

/// How much of something is done.
#[derive(Debug, Clone, Copy, PartialEq, Eq, Structural)]
pub enum Fraction {
    /// `part` of `whole`: not less than nothing and not more than all.
    Of { part: i128, whole: i128 },
    /// It cannot be told.
    Unknown,
}

/// `done` of `total`, where `total` is more than nothing.
pub open spec fn fraction_of(done: Secs, total: Secs) -> Fraction {
    match (done, total) {
        (Secs::Finite(a), Secs::Finite(b)) => if a <= 0 {
            Fraction::Of { part: 0, whole: 1 }
        } else if a >= b {
            Fraction::Of { part: 1, whole: 1 }
        } else {
            Fraction::Of { part: a, whole: b }
        },
        (Secs::PosInf, Secs::Finite(_)) => Fraction::Of { part: 1, whole: 1 },
        (Secs::NegInf, Secs::Finite(_)) => Fraction::Of { part: 0, whole: 1 },
        (Secs::Finite(_), Secs::PosInf) => Fraction::Of { part: 0, whole: 1 },
        _ => Fraction::Unknown,
    }
}

impl Fraction {
    /// The fraction lies between nothing and all.
    pub open spec fn in_range(self) -> bool {
        self matches Fraction::Of { part, whole } ==> 0 <= part <= whole && whole > 0
    }

    /// `done` of `total`.
    pub fn new(done: Secs, total: Secs) -> (r: Fraction)
        requires
            !total.no_later(zero()),
        ensures
            r == fraction_of(done, total),
            r.in_range(),
    {
        match (done, total) {
            (Secs::Finite(a), Secs::Finite(b)) => if a <= 0 {
                Fraction::Of { part: 0, whole: 1 }
            } else if a >= b {
                Fraction::Of { part: 1, whole: 1 }
            } else {
                Fraction::Of { part: a, whole: b }
            },
            (Secs::PosInf, Secs::Finite(_)) => Fraction::Of { part: 1, whole: 1 },
            (Secs::NegInf, Secs::Finite(_)) => Fraction::Of { part: 0, whole: 1 },
            (Secs::Finite(_), Secs::PosInf) => Fraction::Of { part: 0, whole: 1 },
            _ => Fraction::Unknown,
        }
    }
}

/// Whoever wants to know how the cutting of a video goes on.
pub trait CutObserver {
    /// A line for the user to read.
    fn line(&mut self, line: &str);

    /// How much is done.
    fn progress(&mut self, fraction: Fraction);
}

/// An observer for those who only want to know whether it went well.
#[derive(Debug, Default, Clone, Copy)]
pub struct NoopObserver;

impl CutObserver for NoopObserver {
    fn line(&mut self, _line: &str) {
    }

    fn progress(&mut self, _fraction: Fraction) {
    }
}

/// What there is to tell while a video is cut.
#[derive(Debug, PartialEq, Eq)]
pub enum CutNote {
    Line(String),
    Progress(Fraction),
}

/// What there is to tell, with its text as a sequence of characters.
pub enum Note {
    Line(Seq<char>),
    Progress(Fraction),
}

impl View for CutNote {
    type V = Note;

    open spec fn view(&self) -> Note {
        match *self {
            CutNote::Line(s) => Note::Line(s@),
            CutNote::Progress(f) => Note::Progress(f),
        }
    }
}

/// Hours, minutes and seconds as ffmpeg writes them.
pub open spec fn hms(s: Seq<char>) -> Option<Secs> {
    let parts = pieces(trimmed(s), ':');
    if parts.len() != 3 {
        None
    } else {
        match (
            spelled(parts[0], SECONDS as int),
            spelled(parts[1], SECONDS as int),
            spelled(parts[2], SECONDS as int),
        ) {
            (Some(h), Some(m), Some(s)) => {
                let total = h.times_spec(3600).plus_spec(m.times_spec(60)).plus_spec(s);
                if total.finite() {
                    Some(total)
                } else {
                    None
                }
            },
            _ => None,
        }
    }
}

/// How much of the output is written, by one line of ffmpeg's progress. Both
/// `out_time_us` and `out_time_ms` count microseconds.
pub open spec fn progress_in(line: Seq<char>) -> Option<Secs> {
    let at = first_at(line, '=');
    if at == line.len() {
        None
    } else {
        let key = trimmed(line.take(at));
        let value = trimmed(line.skip(at + 1));
        if key == "out_time_us"@ || key == "out_time_ms"@ {
            spelled(value, MICROSECONDS as int)
        } else if key == "out_time"@ {
            hms(value)
        } else {
            None
        }
    }
}

/// Hours, minutes and seconds as ffmpeg writes them.
pub fn parse_hms_to_secs(s: &[char]) -> (r: Option<Secs>)
    ensures
        r == hms(s@),
{
    let parts = split_chars(trim_chars(s), ':');
    let ghost view = parts@.map_values(|v: Vec<char>| v@);
    assert(view == pieces(trimmed(s@), ':'));
    if parts.len() != 3 {
        return None;
    }
    let h = parse_time(parts[0].as_slice(), SECONDS);
    let m = parse_time(parts[1].as_slice(), SECONDS);
    let s = parse_time(parts[2].as_slice(), SECONDS);
    match (h, m, s) {
        (Some(h), Some(m), Some(s)) => {
            let total = h.times(3600).plus(m.times(60)).plus(s);
            if total.is_finite() {
                Some(total)
            } else {
                None
            }
        },
        _ => None,
    }
}

/// How much of the output is written, by one line of ffmpeg's progress.
pub fn parse_progress_line(line: &str) -> (r: Option<Secs>)
    ensures
        r == progress_in(line@),
{
    let v = chars_of(line);
    let at = find_char(v.as_slice(), '=');
    proof {
        lemma_first_at(v@, '=');
    }
    if at == v.len() {
        return None;
    }
    let before = vstd::slice::slice_subrange(v.as_slice(), 0, at);
    let behind = vstd::slice::slice_subrange(v.as_slice(), at + 1, v.len());
    assert(before@ =~= line@.take(at as int));
    assert(behind@ =~= line@.skip(at + 1));
    let key = trim_chars(before);
    let value = trim_chars(behind);
    if same_chars(key, chars_of("out_time_us").as_slice()) || same_chars(
        key,
        chars_of("out_time_ms").as_slice(),
    ) {
        parse_time(value, MICROSECONDS)
    } else if same_chars(key, chars_of("out_time").as_slice()) {
        parse_hms_to_secs(value)
    } else {
        None
    }
}

/// What a line of ffmpeg's output tells, where `base` was written before this run
/// and `total` is all there is to write. The progress comes on stdout, beside
/// much else that tells nothing; what the user should read comes on stderr.
pub open spec fn note_in(stream: Stream, line: Seq<char>, base: Secs, total: Secs) -> Option<Note> {
    match stream {
        Stream::Stdout => match progress_in(line) {
            Some(t) => Some(Note::Progress(fraction_of(base.plus_spec(t), total))),
            None => None,
        },
        Stream::Stderr => if trimmed(line).len() > 0 {
            Some(Note::Line(trimmed(line)))
        } else {
            None
        },
    }
}

/// What a line of ffmpeg's output tells.
pub fn output_note(stream: Stream, line: &str, base: Secs, total: Secs) -> (r: Option<CutNote>)
    requires
        !total.no_later(zero()),
    ensures
        r is Some <==> note_in(stream, line@, base, total) is Some,
        r matches Some(n) ==> note_in(stream, line@, base, total) == Some(n@),
{
    match stream {
        Stream::Stdout => match parse_progress_line(line) {
            Some(t) => Some(CutNote::Progress(Fraction::new(base.plus(t), total))),
            None => None,
        },
        Stream::Stderr => {
            let text = trim(line);
            if text.as_str().is_empty() {
                None
            } else {
                Some(CutNote::Line(text))
            }
        },
    }
}

/// A line of the list from which ffmpeg joins files: `/` in place of `\`, and
/// quotes escaped.
pub open spec fn list_line(path: Seq<char>) -> Seq<char> {
    "file '"@ + replaced(replaced(path, '\\', "/"@), '\'', "'\\''"@) + "'"@
}

/// A line of the list from which ffmpeg joins files.
pub fn concat_list_line(path: &str) -> (r: String)
    ensures
        r@ == list_line(path@),
{
    let p = chars_of(path);
    let slashes = replace_char(p.as_slice(), '\\', chars_of("/").as_slice());
    let escaped = replace_char(slashes.as_slice(), '\'', chars_of("'\\''").as_slice());
    "file '".to_string().concat(text_of(escaped.as_slice()).as_str()).concat("'")
}

/// Whether two paths lead to the same file: by where they really lead, or by the
/// paths themselves where that is not known of both.
pub open spec fn same_file_spec(
    a: Seq<char>,
    b: Seq<char>,
    a_real: Option<Seq<char>>,
    b_real: Option<Seq<char>>,
) -> bool {
    match (a_real, b_real) {
        (Some(x), Some(y)) => steps(x) == steps(y),
        _ => steps(a) == steps(b),
    }
}

/// Whether two paths lead to the same file.
pub fn same_file(a: &str, b: &str, a_real: &Option<String>, b_real: &Option<String>) -> (r: bool)
    ensures
        r == same_file_spec(a@, b@, maybe_string(*a_real), maybe_string(*b_real)),
{
    match (a_real, b_real) {
        (Some(x), Some(y)) => same_path(x.as_str(), y.as_str()),
        _ => same_path(a, b),
    }
}

/// The hidden directory for the pieces, beside the output. The process and the
/// time make its name one of its own.
pub open spec fn temp_dir_spec(output: Seq<char>, pid: u32, nanos: u128) -> Seq<char> {
    let dir = match parent_of(output) {
        Some(p) => if p.len() > 0 {
            p
        } else {
            "."@
        },
        None => "."@,
    };
    joined_path(
        dir,
        ".intro-outro-tmp-"@ + decimal(pid as nat) + "-"@ + decimal(nanos as nat),
    )
}

/// The hidden directory for the pieces, beside the output.
pub fn temp_dir(output: &str, pid: u32, nanos: u128) -> (r: String)
    ensures
        r@ == temp_dir_spec(output@, pid, nanos),
{
    let dir = match parent(output) {
        Some(p) => if p.as_str().is_empty() {
            ".".to_string()
        } else {
            p
        },
        None => ".".to_string(),
    };
    let name = ".intro-outro-tmp-".to_string().concat(decimal_text(pid as u128).as_str()).concat(
        "-",
    ).concat(decimal_text(nanos).as_str());
    join(dir.as_str(), name.as_str())
}

/// What every run of ffmpeg begins with: messages on stderr, progress on stdout.
pub open spec fn opening_args() -> Seq<Seq<char>> {
    seq![
        "-hide_banner"@,
        "-nostdin"@,
        "-nostats"@,
        "-loglevel"@,
        "info"@,
        "-progress"@,
        "pipe:1"@,
    ]
}

/// How the streams are written. Subtitles cannot be encoded anew and are copied.
pub open spec fn codec_args(mode: CutMode) -> Seq<Seq<char>> {
    match mode {
        CutMode::Fast => seq!["-c"@, "copy"@],
        CutMode::Precise => seq![
            "-c:v"@,
            "libx264"@,
            "-crf"@,
            PRECISE_CRF@,
            "-preset"@,
            PRECISE_PRESET@,
            "-pix_fmt"@,
            "yuv420p"@,
            "-c:a"@,
            "aac"@,
            "-b:a"@,
            "192k"@,
            "-c:s"@,
            "copy"@,
        ],
    }
}

/// A number of seconds with three decimal places.
pub open spec fn seconds_arg(t: Secs) -> Seq<char> {
    fixed_secs(t, 1, 3)
}

/// The arguments that make ffmpeg cut one piece. All streams are taken along, so
/// that no subtitle and no second language is lost.
pub open spec fn cut_args(
    input: Seq<char>,
    output: Seq<char>,
    seg: Segment,
    mode: CutMode,
    overwrite: bool,
) -> Seq<Seq<char>> {
    opening_args() + seq![
        "-ss"@,
        seconds_arg(seg.start),
        "-i"@,
        input,
        "-t"@,
        seconds_arg(seg.length()),
        "-map"@,
        "0"@,
    ] + codec_args(mode) + seq![
        "-avoid_negative_ts"@,
        "make_zero"@,
        if overwrite {
            "-y"@
        } else {
            "-n"@
        },
        output,
    ]
}

/// The arguments that make ffmpeg join the pieces on a list.
pub open spec fn join_args(list: Seq<char>, output: Seq<char>) -> Seq<Seq<char>> {
    opening_args() + seq![
        "-f"@,
        "concat"@,
        "-safe"@,
        "0"@,
        "-i"@,
        list,
        "-c"@,
        "copy"@,
        "-avoid_negative_ts"@,
        "make_zero"@,
        "-y"@,
        output,
    ]
}

/// The arguments that make ffmpeg write one frame to a picture. Here `-ss` stands
/// behind `-i`, so that it is the frame at that moment and no key frame before it.
pub open spec fn frame_args(video: Seq<char>, at: Secs, png: Seq<char>) -> Seq<Seq<char>> {
    seq![
        "-hide_banner"@,
        "-nostdin"@,
        "-loglevel"@,
        "error"@,
        "-i"@,
        video,
        "-ss"@,
        seconds_arg(at.at_least_zero_spec()),
        "-frames:v"@,
        "1"@,
        "-q:v"@,
        "2"@,
        "-y"@,
        png,
    ]
}

fn seconds_text(t: Secs) -> (r: String)
    ensures
        r@ == seconds_arg(t),
{
    fixed_secs_text(t, 1, 3)
}

/// ffmpeg, for cutting.
#[derive(Debug, PartialEq, Eq)]
pub struct Cutter {
    pub ffmpeg: String,
}

impl Clone for Cutter {
    fn clone(&self) -> (r: Self)
        ensures
            r == *self,
    {
        Cutter { ffmpeg: self.ffmpeg.clone() }
    }
}

impl Cutter {
    pub fn new(ffmpeg: &str) -> (r: Cutter)
        ensures
            r.ffmpeg@ == ffmpeg@,
    {
        Cutter { ffmpeg: ffmpeg.to_string() }
    }

    fn start_command(&self) -> (r: CommandLine)
        ensures
            r@ == (Words { program: self.ffmpeg@, args: opening_args() }),
    {
        let mut cmd = CommandLine::new(self.ffmpeg.as_str());
        cmd.arg("-hide_banner");
        cmd.arg("-nostdin");
        cmd.arg("-nostats");
        cmd.arg("-loglevel");
        cmd.arg("info");
        cmd.arg("-progress");
        cmd.arg("pipe:1");
        assert(cmd@.args =~= opening_args());
        cmd
    }

    /// The command that cuts one piece.
    pub fn build_cut_command(
        &self,
        input: &str,
        output: &str,
        seg: Segment,
        mode: CutMode,
        overwrite: bool,
    ) -> (r: CommandLine)
        ensures
            r@ == (Words {
                program: self.ffmpeg@,
                args: cut_args(input@, output@, seg, mode, overwrite),
            }),
    {
        let mut cmd = self.start_command();
        cmd.arg("-ss");
        cmd.arg(seconds_text(seg.start).as_str());
        cmd.arg("-i");
        cmd.arg(input);
        cmd.arg("-t");
        cmd.arg(seconds_text(seg.duration()).as_str());
        cmd.arg("-map");
        cmd.arg("0");
        let ghost front = cmd@.args;
        match mode {
            CutMode::Fast => {
                cmd.arg("-c");
                cmd.arg("copy");
            },
            CutMode::Precise => {
                cmd.arg("-c:v");
                cmd.arg("libx264");
                cmd.arg("-crf");
                cmd.arg(PRECISE_CRF);
                cmd.arg("-preset");
                cmd.arg(PRECISE_PRESET);
                cmd.arg("-pix_fmt");
                cmd.arg("yuv420p");
                cmd.arg("-c:a");
                cmd.arg("aac");
                cmd.arg("-b:a");
                cmd.arg("192k");
                cmd.arg("-c:s");
                cmd.arg("copy");
            },
        }
        assert(cmd@.args =~= front + codec_args(mode));
        cmd.arg("-avoid_negative_ts");
        cmd.arg("make_zero");
        cmd.arg(
            if overwrite {
                "-y"
            } else {
                "-n"
            },
        );
        cmd.arg(output);
        assert(cmd@.args =~= cut_args(input@, output@, seg, mode, overwrite));
        cmd
    }

    /// The command that joins the pieces on a list.
    pub fn build_join_command(&self, list: &str, output: &str) -> (r: CommandLine)
        ensures
            r@ == (Words { program: self.ffmpeg@, args: join_args(list@, output@) }),
    {
        let mut cmd = self.start_command();
        cmd.arg("-f");
        cmd.arg("concat");
        cmd.arg("-safe");
        cmd.arg("0");
        cmd.arg("-i");
        cmd.arg(list);
        cmd.arg("-c");
        cmd.arg("copy");
        cmd.arg("-avoid_negative_ts");
        cmd.arg("make_zero");
        cmd.arg("-y");
        cmd.arg(output);
        assert(cmd@.args =~= join_args(list@, output@));
        cmd
    }

    /// The command that writes one frame to a picture.
    pub fn frame_command(&self, video: &str, at_secs: Secs, out_png: &str) -> (r: CommandLine)
        ensures
            r@ == (Words { program: self.ffmpeg@, args: frame_args(video@, at_secs, out_png@) }),
    {
        let mut cmd = CommandLine::new(self.ffmpeg.as_str());
        cmd.arg("-hide_banner");
        cmd.arg("-nostdin");
        cmd.arg("-loglevel");
        cmd.arg("error");
        cmd.arg("-i");
        cmd.arg(video);
        cmd.arg("-ss");
        cmd.arg(seconds_text(at_secs.at_least_zero()).as_str());
        cmd.arg("-frames:v");
        cmd.arg("1");
        cmd.arg("-q:v");
        cmd.arg("2");
        cmd.arg("-y");
        cmd.arg(out_png);
        assert(cmd@.args =~= frame_args(video@, at_secs, out_png@));
        cmd
    }

    /// What came of writing one frame: `ran` is the run of the command, or why it
    /// could not be started, and `is_there` whether the picture is there now.
    pub fn extract_frame(&self, ran: Result<ExecResult, String>, is_there: bool) -> (r: Result<
        (),
        CoreError,
    >)
        ensures
            outcome(r) == (match ran {
                Err(e) => Err(Fault::Io(e@)),
                Ok(res) => if res@.failed() {
                    Err(res@.failure("ffmpeg 抽帧"@))
                } else if !is_there {
                    Err(
                        Fault::ParseFailed {
                            what: "ffmpeg 抽帧"@,
                            detail: "命令成功退出但没有产出图片"@,
                        },
                    )
                } else {
                    Ok(())
                },
            }),
    {
        match ran {
            Err(e) => Err(CoreError::Io(e)),
            Ok(res) => {
                match res.into_error("ffmpeg 抽帧") {
                    Err(e) => {
                        return Err(e);
                    },
                    Ok(_) => {},
                }
                if !is_there {
                    return Err(
                        CoreError::ParseFailed {
                            what: "ffmpeg 抽帧",
                            detail: "命令成功退出但没有产出图片".to_string(),
                        },
                    );
                }
                Ok(())
            },
        }
    }
}

} // verus!
