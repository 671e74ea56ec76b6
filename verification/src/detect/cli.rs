//! needle as a program.
//!
//! The released needle and the one of its main branch do not take the same
//! options. So what a needle can do is read from its own help before it is used:
//! an option that it does not know would make it fail.

use vstd::prelude::*;

use crate::detect::{DetectEvent, DetectOptions, Told};
use crate::error::{outcome, CoreError, Fault};
use crate::exec::{find_executable, first_file, places, Captured, CommandLine, ExecResult, Words};
use crate::numbers::{fixed_secs, fixed_secs_text};
use crate::pipeline::{display_name, shown_name};
use crate::probe::text_outcome;
use crate::secs::{zero, Secs};
use crate::text::{contains_text, decimal, decimal_text, maybe_text, occurs, texts, trim, trimmed};

verus! {

/// The largest difference between fingerprints that there is.
pub const THRESHOLD_MAX: u32 = 32;

/// The longest that an opening or an ending may have to be: an hour.
pub const DURATION_MAX: u32 = 3600;

/// The largest padding, in nanoseconds: a minute. More would cut into the episode.
pub const PADDING_MAX_NANOS: i128 = 60_000_000_000;

/// What a needle can do.
#[derive(Debug, Clone, Copy, PartialEq, Eq, Structural)]
pub struct CliCapabilities {
    /// Whether `analyze` knows `--include-endings`. One that does not takes
    /// fingerprints of the whole video, and must not be given the option.
    pub analyze_include_endings: bool,
    /// Whether `search` knows `--include-endings`.
    pub search_include_endings: bool,
}

impl Default for CliCapabilities {
    fn default() -> (r: Self)
        ensures
            !r.analyze_include_endings && !r.search_include_endings,
    {
        CliCapabilities { analyze_include_endings: false, search_include_endings: false }
    }
}

/// Whether the help speaks of an option.
pub fn mentions_flag(help_text: &str, flag: &str) -> (r: bool)
    ensures
        r == occurs(help_text@, flag@),
{
    contains_text(help_text, flag)
}

/// Whether the help that needle wrote speaks of `--include-endings`. Where there
/// is no help the answer is no: an option too few does no harm.
pub open spec fn knows_endings(help: Result<Captured, String>) -> bool {
    match help {
        Ok(out) => occurs(out.stdout@, "--include-endings"@) || occurs(
            out.stderr@,
            "--include-endings"@,
        ),
        Err(_) => false,
    }
}

/// A threshold that needle takes.
pub fn clamp_threshold(v: u32) -> (r: u32)
    ensures
        r == (if v > THRESHOLD_MAX {
            THRESHOLD_MAX
        } else {
            v
        }),
{
    if v > THRESHOLD_MAX {
        THRESHOLD_MAX
    } else {
        v
    }
}

/// A shortest length that needle takes.
pub open spec fn duration_within(v: u32) -> u32 {
    if v < 1 {
        1
    } else if v > DURATION_MAX {
        DURATION_MAX
    } else {
        v
    }
}

/// A shortest length that needle takes.
pub fn clamp_duration(v: u32) -> (r: u32)
    ensures
        r == duration_within(v),
        1 <= r <= DURATION_MAX,
{
    if v < 1 {
        1
    } else if v > DURATION_MAX {
        DURATION_MAX
    } else {
        v
    }
}

/// A padding that needle takes; none where it is no number.
pub open spec fn padding_within(v: Secs) -> Secs {
    match v {
        Secs::Finite(_) => v.clamped(zero(), Secs::Finite(PADDING_MAX_NANOS)),
        _ => zero(),
    }
}

/// A padding that needle takes; none where it is no number.
pub fn clamp_padding(v: Secs) -> (r: Secs)
    ensures
        r == padding_within(v),
        r.finite() && 0 <= r.nanos() <= PADDING_MAX_NANOS,
{
    match v {
        Secs::Finite(_) => v.clamp(Secs::Finite(0), Secs::Finite(PADDING_MAX_NANOS)),
        _ => Secs::Finite(0),
    }
}

/// What comes before the command of needle.
pub open spec fn base_args(opts: DetectOptions) -> Seq<Seq<char>> {
    if opts.threading {
        Seq::empty()
    } else {
        seq!["--no-threading"@]
    }
}

/// The arguments that make needle take the fingerprints of a video. What follows
/// `--` is a path, even where it begins with `-`.
pub open spec fn analyze_args(
    video: Seq<char>,
    opts: DetectOptions,
    caps: CliCapabilities,
) -> Seq<Seq<char>> {
    base_args(opts) + seq!["analyze"@] + (if opts.include_endings && caps.analyze_include_endings {
        seq!["--include-endings"@]
    } else {
        Seq::empty()
    }) + (if opts.force_reanalyze {
        seq!["--force"@]
    } else {
        Seq::empty()
    }) + seq!["--"@, video]
}

/// The arguments that make needle compare the videos and write down what it found.
pub open spec fn search_args(
    videos: Seq<Seq<char>>,
    opts: DetectOptions,
    caps: CliCapabilities,
) -> Seq<Seq<char>> {
    base_args(opts) + seq![
        "search"@,
        "--write-skip-files"@,
        "--hash-match-threshold"@,
        decimal(
            if opts.hash_match_threshold > THRESHOLD_MAX {
                THRESHOLD_MAX as nat
            } else {
                opts.hash_match_threshold as nat
            },
        ),
        "--min-opening-duration"@,
        decimal(duration_within(opts.min_opening_duration_secs) as nat),
        "--min-ending-duration"@,
        decimal(duration_within(opts.min_ending_duration_secs) as nat),
        "--time-padding"@,
        fixed_secs(padding_within(opts.time_padding_secs), 1, 3),
    ] + (if opts.include_endings && caps.search_include_endings {
        seq!["--include-endings"@]
    } else {
        Seq::empty()
    }) + seq!["--"@] + videos
}

/// needle as a program.
#[derive(Debug, PartialEq, Eq)]
pub struct CliDetector {
    /// Where needle is.
    pub needle_exe: String,
}

impl Clone for CliDetector {
    fn clone(&self) -> (r: Self)
        ensures
            r == *self,
    {
        CliDetector { needle_exe: self.needle_exe.clone() }
    }
}

impl CliDetector {
    pub fn new(needle_exe: &str) -> (r: CliDetector)
        ensures
            r.needle_exe@ == needle_exe@,
    {
        CliDetector { needle_exe: needle_exe.to_string() }
    }

    /// Looks for needle, first in the directory that the user named.
    pub fn discover<F: Fn(&str) -> bool>(
        suffix: &str,
        explicit_dir: Option<&str>,
        path_dirs: &[String],
        is_file: F,
    ) -> (r: Result<Self, CoreError>)
        requires
            forall|p: &str| call_requires(is_file, (p,)),
        ensures
            ({
                let list = places("needle"@ + suffix@, maybe_text(explicit_dir), texts(path_dirs@));
                match r {
                    Ok(d) => first_file(is_file, list, Some(d.needle_exe@)),
                    Err(e) => e@ == (Fault::ToolNotFound { tool: "needle"@ }) && first_file(
                        is_file,
                        list,
                        None,
                    ),
                }
            }),
    {
        match find_executable("needle", suffix, explicit_dir, path_dirs, is_file) {
            Some(p) => Ok(CliDetector { needle_exe: p }),
            None => Err(CoreError::ToolNotFound { tool: "needle" }),
        }
    }

    /// The command that asks needle for its version.
    pub fn version_command(&self) -> (r: CommandLine)
        ensures
            r@ == (Words { program: self.needle_exe@, args: seq!["--version"@] }),
    {
        let mut cmd = CommandLine::new(self.needle_exe.as_str());
        cmd.arg("--version");
        cmd
    }

    /// The version of needle, from what the command wrote.
    pub fn version(&self, out: &Captured) -> (r: Result<String, CoreError>)
        ensures
            text_outcome(r) == (if trimmed(out.stdout@).len() > 0 {
                Ok(trimmed(out.stdout@))
            } else {
                Err(
                    Fault::ParseFailed { what: "needle --version"@, detail: trimmed(out.stderr@) },
                )
            }),
    {
        let v = trim(out.stdout.as_str());
        if v.as_str().is_empty() {
            return Err(
                CoreError::ParseFailed {
                    what: "needle --version",
                    detail: trim(out.stderr.as_str()),
                },
            );
        }
        Ok(v)
    }

    /// The command that asks needle for the help on one of its commands.
    pub fn help_command(&self, command: &str) -> (r: CommandLine)
        ensures
            r@ == (Words { program: self.needle_exe@, args: seq![command@, "--help"@] }),
    {
        let mut cmd = CommandLine::new(self.needle_exe.as_str());
        cmd.arg(command);
        cmd.arg("--help");
        assert(cmd@.args =~= seq![command@, "--help"@]);
        cmd
    }

    /// Whether the help that needle wrote speaks of `--include-endings`.
    pub fn help_mentions(&self, help: &Result<Captured, String>) -> (r: bool)
        ensures
            r == knows_endings(*help),
    {
        match help {
            Ok(out) => mentions_flag(out.stdout.as_str(), "--include-endings") || mentions_flag(
                out.stderr.as_str(),
                "--include-endings",
            ),
            Err(_) => false,
        }
    }

    /// What this needle can do, from its help on `analyze` and on `search`.
    pub fn capabilities(
        &self,
        analyze_help: &Result<Captured, String>,
        search_help: &Result<Captured, String>,
    ) -> (r: CliCapabilities)
        ensures
            r == (CliCapabilities {
                analyze_include_endings: knows_endings(*analyze_help),
                search_include_endings: knows_endings(*search_help),
            }),
    {
        CliCapabilities {
            analyze_include_endings: self.help_mentions(analyze_help),
            search_include_endings: self.help_mentions(search_help),
        }
    }

    /// needle with the options that come before its command.
    fn base_command(&self, opts: &DetectOptions) -> (r: CommandLine)
        ensures
            r@ == (Words { program: self.needle_exe@, args: base_args(*opts) }),
    {
        let mut cmd = CommandLine::new(self.needle_exe.as_str());
        if !opts.threading {
            cmd.arg("--no-threading");
        }
        cmd
    }

    /// The command that takes the fingerprints of a video.
    pub fn analyze_command(&self, video: &str, opts: &DetectOptions, caps: CliCapabilities) -> (r:
        CommandLine)
        ensures
            r@ == (Words { program: self.needle_exe@, args: analyze_args(video@, *opts, caps) }),
    {
        let mut cmd = self.base_command(opts);
        cmd.arg("analyze");
        if opts.include_endings && caps.analyze_include_endings {
            cmd.arg("--include-endings");
        }
        if opts.force_reanalyze {
            cmd.arg("--force");
        }
        cmd.arg("--");
        cmd.arg(video);
        assert(cmd@.args =~= analyze_args(video@, *opts, caps));
        cmd
    }

    /// The command that compares the videos.
    pub fn search_command(
        &self,
        videos: &[String],
        opts: &DetectOptions,
        caps: CliCapabilities,
    ) -> (r: CommandLine)
        ensures
            r@ == (Words {
                program: self.needle_exe@,
                args: search_args(texts(videos@), *opts, caps),
            }),
    {
        let mut cmd = self.base_command(opts);
        cmd.arg("search");
        cmd.arg("--write-skip-files");
        cmd.arg("--hash-match-threshold");
        cmd.arg(decimal_text(clamp_threshold(opts.hash_match_threshold) as u128).as_str());
        cmd.arg("--min-opening-duration");
        cmd.arg(decimal_text(clamp_duration(opts.min_opening_duration_secs) as u128).as_str());
        cmd.arg("--min-ending-duration");
        cmd.arg(decimal_text(clamp_duration(opts.min_ending_duration_secs) as u128).as_str());
        cmd.arg("--time-padding");
        cmd.arg(
            fixed_secs_text(clamp_padding(opts.time_padding_secs), 1, 3).as_str(),
        );
        if opts.include_endings && caps.search_include_endings {
            cmd.arg("--include-endings");
        }
        cmd.arg("--");
        let ghost front = cmd@;
        assert(front.args + texts(videos@).take(0) =~= front.args);
        let mut i: usize = 0;
        while i < videos.len()
            invariant
                i <= videos@.len(),
                cmd@.program == front.program,
                cmd@.args == front.args + texts(videos@).take(i as int),
            decreases videos@.len() - i,
        {
            cmd.arg(videos[i].as_str());
            i += 1;
            assert(cmd@.args =~= front.args + texts(videos@).take(i as int));
        }
        assert(texts(videos@).take(i as int) =~= texts(videos@));
        assert(cmd@.args =~= search_args(texts(videos@), *opts, caps));
        cmd
    }
}

/// What is told of a line that needle wrote while it worked on a video. Several
/// work at once, so the line says which.
pub fn analyze_line(video: &str, line: &str) -> (r: Option<DetectEvent>)
    ensures
        r is Some <==> trimmed(line@).len() > 0,
        r matches Some(e) ==> e@ == Told::Log(
            "["@ + shown_name(video@) + "] "@ + trimmed(line@),
        ),
{
    let text = trim(line);
    if text.as_str().is_empty() {
        return None;
    }
    Some(
        DetectEvent::Log(
            "[".to_string().concat(display_name(video).as_str()).concat("] ").concat(text.as_str()),
        ),
    )
}

/// What is told of a line that needle wrote while it compared the videos.
pub fn search_line(line: &str) -> (r: Option<DetectEvent>)
    ensures
        r is Some <==> trimmed(line@).len() > 0,
        r matches Some(e) ==> e@ == Told::Log(trimmed(line@)),
{
    let text = trim(line);
    if text.as_str().is_empty() {
        return None;
    }
    Some(DetectEvent::Log(text))
}

/// What came of a run of needle: `ran` is the run, or why it could not be started.
pub open spec fn run_outcome(ran: Result<ExecResult, String>, cmd: Seq<char>) -> Result<(), Fault> {
    match ran {
        Err(e) => Err(Fault::Io(e@)),
        Ok(res) => if res@.cancelled {
            Err(Fault::Cancelled)
        } else if res@.failed() {
            Err(res@.failure(cmd))
        } else {
            Ok(())
        },
    }
}

/// What came of a run of needle.
pub fn check_run(ran: Result<ExecResult, String>, cmd: &str) -> (r: Result<(), CoreError>)
    ensures
        outcome(r) == run_outcome(ran, cmd@),
{
    match ran {
        Err(e) => Err(CoreError::Io(e)),
        Ok(res) => {
            if res.cancelled {
                return Err(CoreError::Cancelled);
            }
            match res.into_error(cmd) {
                Err(e) => Err(e),
                Ok(_) => Ok(()),
            }
        },
    }
}

/// What came of taking the fingerprints of a video.
pub fn run_analyze_one(ran: Result<ExecResult, String>, video: &str) -> (r: Result<(), CoreError>)
    ensures
        outcome(r) == run_outcome(ran, "needle analyze "@ + video@),
{
    check_run(ran, "needle analyze ".to_string().concat(video).as_str())
}

/// The files whose fingerprints could be taken, in their order.
pub open spec fn survivors_of(files: Seq<Seq<char>>, failed: Seq<bool>) -> Seq<Seq<char>>
    decreases files.len(),
{
    if files.len() == 0 {
        Seq::empty()
    } else {
        let before = survivors_of(files.drop_last(), failed);
        if failed[files.len() - 1] {
            before
        } else {
            before.push(files.last())
        }
    }
}

/// What is known while the fingerprints of many videos are taken.
#[derive(Debug)]
pub struct AnalyzeTally {
    /// How many videos are done, well or not.
    pub finished: usize,
    /// Of each video, whether it failed.
    pub failed: Vec<bool>,
}

impl AnalyzeTally {
    /// Nothing is done yet.
    pub fn new(total: usize) -> (r: AnalyzeTally)
        ensures
            r.finished == 0,
            r.failed@ == Seq::new(total as nat, |i: int| false),
    {
        let mut failed: Vec<bool> = Vec::new();
        let mut i: usize = 0;
        while i < total
            invariant
                i <= total,
                failed@ == Seq::new(i as nat, |k: int| false),
            decreases total - i,
        {
            failed.push(false);
            i += 1;
            assert(failed@ =~= Seq::new(i as nat, |k: int| false));
        }
        AnalyzeTally { finished: 0, failed }
    }

    /// Takes what came of one video, and tells of it. The videos are counted as
    /// they come in.
    pub fn done(&mut self, files: &[String], index: usize, error: Option<String>) -> (r:
        DetectEvent)
        requires
            old(self).failed@.len() == files@.len(),
            index < files@.len(),
            old(self).finished < files@.len(),
        ensures
            final(self).finished == old(self).finished + 1,
            final(self).failed@ == (if error is Some {
                old(self).failed@.update(index as int, true)
            } else {
                old(self).failed@
            }),
            r@ == (match error {
                None => Told::EpisodeDone {
                    index: (old(self).finished + 1) as nat,
                    total: files@.len(),
                    name: shown_name(files@[index as int]@),
                },
                Some(e) => Told::EpisodeFailed {
                    index: (old(self).finished + 1) as nat,
                    total: files@.len(),
                    name: shown_name(files@[index as int]@),
                    error: e@,
                },
            }),
    {
        let total: usize = files.len();
        self.finished = self.finished + 1;
        let name = display_name(files[index].as_str());
        match error {
            None => DetectEvent::EpisodeDone { index: self.finished, total, name },
            Some(error) => {
                self.failed.set(index, true);
                DetectEvent::EpisodeFailed { index: self.finished, total, name, error }
            },
        }
    }

    /// The files whose fingerprints could be taken, in their order.
    pub fn survivors(&self, files: &[String]) -> (r: Vec<String>)
        requires
            self.failed@.len() == files@.len(),
        ensures
            texts(r@) == survivors_of(texts(files@), self.failed@),
            r@.len() <= files@.len(),
    {
        let mut out: Vec<String> = Vec::new();
        assert(texts(out@) =~= Seq::<Seq<char>>::empty());
        let mut i: usize = 0;
        while i < files.len()
            invariant
                i <= files@.len(),
                self.failed@.len() == files@.len(),
                out@.len() <= i,
                texts(out@) == survivors_of(texts(files@).take(i as int), self.failed@),
            decreases files@.len() - i,
        {
            let ghost before = texts(out@);
            assert(texts(files@).take(i + 1).drop_last() =~= texts(files@).take(i as int));
            if !self.failed[i] {
                out.push(files[i].clone());
                assert(texts(out@) =~= before.push(files@[i as int]@));
            }
            i += 1;
        }
        assert(texts(files@).take(i as int) =~= texts(files@));
        out
    }
}

/// The videos that wait to be analysed. Whoever is free takes the next one.
#[derive(Debug)]
pub struct WorkQueue {
    /// The next video.
    pub next: usize,
    pub total: usize,
}

impl WorkQueue {
    pub fn new(total: usize) -> (r: WorkQueue)
        ensures
            r.next == 0,
            r.total == total,
    {
        WorkQueue { next: 0, total }
    }

    /// Takes the next video; none where all are taken or the user stopped it.
    /// Every video is taken once, in the order of the list.
    pub fn take(&mut self, cancelled: bool) -> (r: Option<usize>)
        ensures
            final(self).total == old(self).total,
            r is None <==> cancelled || old(self).next >= old(self).total,
            r is None ==> final(self).next == old(self).next,
            r matches Some(i) ==> i == old(self).next && final(self).next == i + 1,
    {
        if cancelled || self.next >= self.total {
            return None;
        }
        let i: usize = self.next;
        self.next = i + 1;
        Some(i)
    }
}

/// How many videos are analysed at once: at least one, and not more than there are.
pub fn pool_size(opts: &DetectOptions, total: usize) -> (r: usize)
    ensures
        r == pool_size_spec(*opts, total as nat),
{
    let wanted: usize = if opts.analyze_parallelism < 1 {
        1
    } else {
        opts.analyze_parallelism
    };
    if wanted > total {
        total
    } else {
        wanted
    }
}

/// How many videos are analysed at once.
pub open spec fn pool_size_spec(opts: DetectOptions, total: nat) -> nat {
    let wanted = if opts.analyze_parallelism < 1 {
        1nat
    } else {
        opts.analyze_parallelism as nat
    };
    if wanted > total {
        total
    } else {
        wanted
    }
}

} // verus!
