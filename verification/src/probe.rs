//! Reading the length, the picture and the sound of a video with ffprobe.
//!
//! ffprobe reports a failure for some damaged files and still writes all there
//! is to know. So its exit code is not looked at: what counts is whether a
//! length can be read.

use vstd::prelude::*;

use crate::error::{outcome, CoreError, Fault};
use crate::exec::{find_executable, first_file, places, Captured, CommandLine, Words};
use crate::numbers::{parse_time, spelled, SECONDS};
use crate::secs::Secs;
use crate::text::{
    chars_of, find_char, first_at, lemma_first_at, maybe_text, same_text, text_of, texts, trim,
    trim_chars, trimmed,
};

verus! {

/// What is known of a video's content.
#[derive(Debug, PartialEq)]
pub struct MediaInfo {
    /// The length.
    pub duration_secs: Secs,
    pub width: Option<u32>,
    pub height: Option<u32>,
    /// Whether there is an audio stream. Detection fails without one.
    pub has_audio: bool,
    pub video_codec: Option<String>,
    pub audio_codec: Option<String>,
}

/// What ffprobe writes about a file.
#[derive(Debug, PartialEq)]
pub struct FfprobeOutput {
    pub streams: Vec<FfprobeStream>,
    pub format: Option<FfprobeFormat>,
}

/// What ffprobe writes about one stream. Which of these there are depends on the
/// container.
#[derive(Debug, PartialEq)]
pub struct FfprobeStream {
    pub codec_type: Option<String>,
    pub codec_name: Option<String>,
    pub width: Option<u32>,
    pub height: Option<u32>,
    pub duration: Option<String>,
}

/// What ffprobe writes about the container.
#[derive(Debug, PartialEq)]
pub struct FfprobeFormat {
    pub duration: Option<String>,
}

/// A finite number of seconds in a text, with space around it or not.
pub open spec fn seconds_in(s: Seq<char>) -> Option<Secs> {
    match spelled(trimmed(s), SECONDS as int) {
        Some(t) => if t.finite() {
            Some(t)
        } else {
            None
        },
        None => None,
    }
}

/// A finite number of seconds in a text; nothing where there is none, as in `N/A`.
pub fn parse_seconds(s: &str) -> (r: Option<Secs>)
    ensures
        r == seconds_in(s@),
{
    let v = chars_of(s);
    match parse_time(trim_chars(v.as_slice()), SECONDS) {
        Some(t) => if t.is_finite() {
            Some(t)
        } else {
            None
        },
        None => None,
    }
}

/// The first line of a text, without the space around it.
pub open spec fn first_line_of(s: Seq<char>) -> Seq<char> {
    trimmed(s.take(first_at(s, '\n')))
}

/// The first line of a text, without the space around it.
pub fn first_line(s: &str) -> (r: String)
    ensures
        r@ == first_line_of(s@),
{
    let v = chars_of(s);
    let at = find_char(v.as_slice(), '\n');
    proof {
        lemma_first_at(v@, '\n');
    }
    let line = vstd::slice::slice_subrange(v.as_slice(), 0, at);
    assert(line@ =~= s@.take(at as int));
    text_of(trim_chars(line))
}

/// The duration in a text that may be missing.
pub open spec fn length_in(s: Option<String>) -> Option<Secs> {
    match s {
        Some(s) => seconds_in(s@),
        None => None,
    }
}

fn read_length(s: &Option<String>) -> (r: Option<Secs>)
    ensures
        r == length_in(*s),
{
    match s {
        Some(s) => parse_seconds(s.as_str()),
        None => None,
    }
}

/// Whether the stream is of the kind.
pub open spec fn of_kind(s: FfprobeStream, kind: Seq<char>) -> bool {
    s.codec_type matches Some(t) && t@ == kind
}

/// The first stream of the kind.
pub open spec fn stream_of(streams: Seq<FfprobeStream>, kind: Seq<char>) -> Option<FfprobeStream>
    decreases streams.len(),
{
    if streams.len() == 0 {
        None
    } else if of_kind(streams[0], kind) {
        Some(streams[0])
    } else {
        stream_of(streams.drop_first(), kind)
    }
}

fn find_stream<'a>(streams: &'a Vec<FfprobeStream>, kind: &str) -> (r: Option<&'a FfprobeStream>)
    ensures
        r is Some <==> stream_of(streams@, kind@) is Some,
        r matches Some(s) ==> stream_of(streams@, kind@) == Some(*s),
{
    let mut i: usize = 0;
    assert(streams@.skip(0) =~= streams@);
    while i < streams.len()
        invariant
            i <= streams@.len(),
            stream_of(streams@.skip(i as int), kind@) == stream_of(streams@, kind@),
        decreases streams@.len() - i,
    {
        if let Some(t) = &streams[i].codec_type {
            if same_text(t.as_str(), kind) {
                return Some(&streams[i]);
            }
        }
        assert(streams@.skip(i as int).drop_first() =~= streams@.skip(i + 1));
        i += 1;
    }
    None
}

impl FfprobeOutput {
    /// The length: that of the container, or that of the first video stream
    /// where the container gives none.
    pub open spec fn length(self) -> Option<Secs> {
        let whole = match self.format {
            Some(f) => length_in(f.duration),
            None => None,
        };
        match (whole, stream_of(self.streams@, "video"@)) {
            (Some(t), _) => Some(t),
            (None, Some(s)) => length_in(s.duration),
            (None, None) => None,
        }
    }

    /// What is known of the video, or that its length is not.
    pub open spec fn info(self, video: Seq<char>) -> Result<MediaInfo, Fault> {
        let picture = stream_of(self.streams@, "video"@);
        let sound = stream_of(self.streams@, "audio"@);
        match self.length() {
            Some(Secs::Finite(n)) => if n > 0 {
                Ok(
                    MediaInfo {
                        duration_secs: Secs::Finite(n),
                        width: match picture {
                            Some(s) => s.width,
                            None => None,
                        },
                        height: match picture {
                            Some(s) => s.height,
                            None => None,
                        },
                        has_audio: sound is Some,
                        video_codec: match picture {
                            Some(s) => s.codec_name,
                            None => None,
                        },
                        audio_codec: match sound {
                            Some(s) => s.codec_name,
                            None => None,
                        },
                    },
                )
            } else {
                Err(Fault::DurationUnknown(video))
            },
            _ => Err(Fault::DurationUnknown(video)),
        }
    }

    /// What is known of the video, or that its length is not.
    pub fn media_info(&self, video: &str) -> (r: Result<MediaInfo, CoreError>)
        ensures
            outcome(r) == self.info(video@),
    {
        let picture = find_stream(&self.streams, "video");
        let sound = find_stream(&self.streams, "audio");
        let whole = match &self.format {
            Some(f) => read_length(&f.duration),
            None => None,
        };
        let length = match whole {
            Some(t) => Some(t),
            None => match picture {
                Some(s) => read_length(&s.duration),
                None => None,
            },
        };
        let positive = match length {
            Some(Secs::Finite(n)) => n > 0,
            _ => false,
        };
        match length {
            Some(t) => {
                if !positive {
                    return Err(CoreError::DurationUnknown(video.to_string()));
                }
                let (width, height, video_codec) = match picture {
                    Some(s) => (s.width, s.height, copy_text(&s.codec_name)),
                    None => (None, None, None),
                };
                let audio_codec = match sound {
                    Some(s) => copy_text(&s.codec_name),
                    None => None,
                };
                Ok(
                    MediaInfo {
                        duration_secs: t,
                        width,
                        height,
                        has_audio: sound.is_some(),
                        video_codec,
                        audio_codec,
                    },
                )
            },
            None => Err(CoreError::DurationUnknown(video.to_string())),
        }
    }
}

fn copy_text(s: &Option<String>) -> (r: Option<String>)
    ensures
        r == *s,
{
    match s {
        Some(s) => Some(s.clone()),
        None => None,
    }
}

/// Where ffmpeg and ffprobe are.
#[derive(Debug, PartialEq, Eq)]
pub struct FfmpegTools {
    pub ffmpeg: String,
    pub ffprobe: String,
}

impl Clone for FfmpegTools {
    fn clone(&self) -> (r: Self)
        ensures
            r == *self,
    {
        FfmpegTools { ffmpeg: self.ffmpeg.clone(), ffprobe: self.ffprobe.clone() }
    }
}

/// The arguments that make ffprobe write all it knows of a video.
pub open spec fn probe_args(video: Seq<char>) -> Seq<Seq<char>> {
    seq![
        "-v"@,
        "error"@,
        "-print_format"@,
        "json"@,
        "-show_format"@,
        "-show_streams"@,
        video,
    ]
}

/// What ffmpeg says of its version: the first line that it writes.
pub open spec fn version_of(stdout: Seq<char>, stderr: Seq<char>, what: Seq<char>) -> Result<
    Seq<char>,
    Fault,
> {
    if first_line_of(stdout).len() > 0 {
        Ok(first_line_of(stdout))
    } else {
        Err(Fault::ParseFailed { what, detail: trimmed(stderr) })
    }
}

/// The result of something that gives a text, with text and error by their views.
pub open spec fn text_outcome(r: Result<String, CoreError>) -> Result<Seq<char>, Fault> {
    match r {
        Ok(s) => Ok(s@),
        Err(e) => Err(e@),
    }
}

/// What came of taking the output of ffprobe apart.
pub open spec fn probe_outcome(
    parsed: Result<FfprobeOutput, String>,
    stdout: Seq<char>,
    video: Seq<char>,
) -> Result<MediaInfo, Fault> {
    match parsed {
        Ok(output) => output.info(video),
        Err(e) => Err(
            Fault::ParseFailed {
                what: "ffprobe JSON"@,
                detail: e@ + "；ffprobe 输出首行："@ + first_line_of(stdout),
            },
        ),
    }
}

/// What came of taking the output of ffprobe apart.
pub fn interpret(
    parsed: Result<FfprobeOutput, String>,
    stdout: &str,
    video: &str,
) -> (r: Result<MediaInfo, CoreError>)
    ensures
        outcome(r) == probe_outcome(parsed, stdout@, video@),
{
    match parsed {
        Ok(output) => output.media_info(video),
        Err(e) => {
            let detail = e.concat("；ffprobe 输出首行：").concat(first_line(stdout).as_str());
            Err(CoreError::ParseFailed { what: "ffprobe JSON", detail })
        },
    }
}

impl FfmpegTools {
    /// Looks for ffmpeg and ffprobe, first in the directory that the user named.
    /// Both are needed.
    pub fn discover<F: Fn(&str) -> bool>(
        suffix: &str,
        explicit_dir: Option<&str>,
        path_dirs: &[String],
        is_file: F,
    ) -> (r: Result<Self, CoreError>)
        requires
            forall|p: &str| call_requires(is_file, (p,)),
        ensures
            ({
                let dir = maybe_text(explicit_dir);
                let dirs = texts(path_dirs@);
                let first = places("ffmpeg"@ + suffix@, dir, dirs);
                let second = places("ffprobe"@ + suffix@, dir, dirs);
                match r {
                    Ok(t) => first_file(is_file, first, Some(t.ffmpeg@)) && first_file(
                        is_file,
                        second,
                        Some(t.ffprobe@),
                    ),
                    Err(e) => {
                        ||| e@ == (Fault::ToolNotFound { tool: "ffmpeg"@ }) && first_file(
                            is_file,
                            first,
                            None,
                        )
                        ||| e@ == (Fault::ToolNotFound { tool: "ffprobe"@ }) && first_file(
                            is_file,
                            second,
                            None,
                        ) && exists|p: Seq<char>| #[trigger] first_file(is_file, first, Some(p))
                    },
                }
            }),
    {
        let ffmpeg = match find_executable("ffmpeg", suffix, explicit_dir, path_dirs, &is_file) {
            Some(p) => p,
            None => {
                return Err(CoreError::ToolNotFound { tool: "ffmpeg" });
            },
        };
        let ffprobe = match find_executable("ffprobe", suffix, explicit_dir, path_dirs, &is_file) {
            Some(p) => p,
            None => {
                assert(first_file(
                    is_file,
                    places("ffmpeg"@ + suffix@, maybe_text(explicit_dir), texts(path_dirs@)),
                    Some(ffmpeg@),
                ));
                return Err(CoreError::ToolNotFound { tool: "ffprobe" });
            },
        };
        Ok(FfmpegTools { ffmpeg, ffprobe })
    }

    /// The command that asks ffmpeg for its version.
    pub fn version_command(&self) -> (r: CommandLine)
        ensures
            r@ == (Words { program: self.ffmpeg@, args: seq!["-version"@] }),
    {
        let mut cmd = CommandLine::new(self.ffmpeg.as_str());
        cmd.arg("-version");
        cmd
    }

    /// The version of ffmpeg, from what the command wrote.
    pub fn version(&self, out: &Captured) -> (r: Result<String, CoreError>)
        ensures
            text_outcome(r) == version_of(out.stdout@, out.stderr@, "ffmpeg -version"@),
    {
        let first = first_line(out.stdout.as_str());
        if first.as_str().is_empty() {
            return Err(
                CoreError::ParseFailed {
                    what: "ffmpeg -version",
                    detail: trim(out.stderr.as_str()),
                },
            );
        }
        Ok(first)
    }

    /// The command that asks ffprobe about a video.
    pub fn probe_command(&self, video: &str) -> (r: CommandLine)
        ensures
            r@ == (Words { program: self.ffprobe@, args: probe_args(video@) }),
    {
        let mut cmd = CommandLine::new(self.ffprobe.as_str());
        cmd.arg("-v");
        cmd.arg("error");
        cmd.arg("-print_format");
        cmd.arg("json");
        cmd.arg("-show_format");
        cmd.arg("-show_streams");
        cmd.arg(video);
        assert(cmd@.args =~= probe_args(video@));
        cmd
    }

    /// What is known of a video, from what the command wrote. `parse` takes the
    /// text apart.
    pub fn probe<F: Fn(&str) -> Result<FfprobeOutput, String>>(
        &self,
        video: &str,
        ran: &Result<Captured, String>,
        parse: F,
    ) -> (r: Result<MediaInfo, CoreError>)
        requires
            forall|s: &str| call_requires(parse, (s,)),
        ensures
            match *ran {
                Err(e) => outcome(r) == Err::<MediaInfo, Fault>(Fault::Io(e@)),
                Ok(out) => exists|s: &str, parsed: Result<FfprobeOutput, String>|
                    s@ == trimmed(out.stdout@) && #[trigger] call_ensures(parse, (s,), parsed)
                        && outcome(r) == probe_outcome(parsed, out.stdout@, video@),
            },
    {
        match ran {
            Err(e) => Err(CoreError::Io(e.clone())),
            Ok(out) => {
                let text = trim(out.stdout.as_str());
                let s = text.as_str();
                let parsed = parse(s);
                let ghost given = parsed;
                assert(call_ensures(parse, (s,), given));
                interpret(parsed, out.stdout.as_str(), video)
            },
        }
    }
}

} // verus!
