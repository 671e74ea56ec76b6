//! Running other programs: command lines, what comes back, where programs are found.
//!
//! The programs themselves are started elsewhere. Here stands what is decided
//! about them: the words of a command line, which lines of the output are kept,
//! when a run has failed and what is said about it.

use vstd::prelude::*;

use crate::error::{CoreError, Fault};
use crate::paths::{join, joined_path};
use crate::text::{decimal, decimal_text, joined, maybe_string, maybe_text, texts};

verus! {

/// A program and its arguments.
#[derive(Debug, PartialEq, Eq)]
pub struct CommandLine {
    pub program: String,
    pub args: Vec<String>,
}

/// A program and its arguments, as sequences of characters.
pub struct Words {
    pub program: Seq<char>,
    pub args: Seq<Seq<char>>,
}

impl View for CommandLine {
    type V = Words;

    open spec fn view(&self) -> Words {
        Words { program: self.program@, args: texts(self.args@) }
    }
}

impl CommandLine {
    /// A command line without arguments.
    pub fn new(program: &str) -> (r: CommandLine)
        ensures
            r@ == (Words { program: program@, args: Seq::empty() }),
    {
        let args: Vec<String> = Vec::new();
        assert(texts(args@) =~= Seq::<Seq<char>>::empty());
        CommandLine { program: program.to_string(), args }
    }

    /// Adds one argument at the end.
    pub fn arg(&mut self, word: &str)
        ensures
            final(self)@ == (Words {
                program: old(self)@.program,
                args: old(self)@.args.push(word@),
            }),
    {
        let ghost before = self.args@;
        self.args.push(word.to_string());
        assert(texts(self.args@) =~= texts(before).push(word@));
    }
}

/// Which of its two outputs a program wrote to. The progress of ffmpeg comes on
/// one, its messages on the other.
#[derive(Debug, Clone, Copy, PartialEq, Eq, Structural)]
pub enum Stream {
    Stdout,
    Stderr,
}

impl Stream {
    pub fn label(&self) -> (r: &'static str)
        ensures
            self is Stdout ==> r@ == "stdout"@,
            self is Stderr ==> r@ == "stderr"@,
    {
        match self {
            Stream::Stdout => "stdout",
            Stream::Stderr => "stderr",
        }
    }
}

/// How many lines of output are kept: the last ones, which tell what went wrong.
pub const DEFAULT_TAIL_LINES: usize = 200;

/// The last `DEFAULT_TAIL_LINES` of a list of lines.
pub open spec fn tail_of(lines: Seq<Seq<char>>) -> Seq<Seq<char>> {
    if lines.len() > DEFAULT_TAIL_LINES {
        lines.skip(lines.len() - DEFAULT_TAIL_LINES)
    } else {
        lines
    }
}

/// The lines of one stream, in their order.
pub open spec fn lines_of(written: Seq<(Stream, Seq<char>)>, stream: Stream) -> Seq<Seq<char>>
    decreases written.len(),
{
    if written.len() == 0 {
        Seq::empty()
    } else if written.last().0 == stream {
        lines_of(written.drop_last(), stream).push(written.last().1)
    } else {
        lines_of(written.drop_last(), stream)
    }
}

/// The lines of both streams, in their order.
pub open spec fn all_lines(written: Seq<(Stream, Seq<char>)>) -> Seq<Seq<char>> {
    written.map_values(|w: (Stream, Seq<char>)| w.1)
}

/// The lines with one more behind them; the oldest makes room for it where there
/// are `DEFAULT_TAIL_LINES` already.
pub open spec fn capped(lines: Seq<Seq<char>>, line: Seq<char>) -> Seq<Seq<char>> {
    if lines.len() >= DEFAULT_TAIL_LINES {
        lines.skip(1).push(line)
    } else {
        lines.push(line)
    }
}

/// Adds a line to those that are kept and drops the oldest one where there are
/// too many.
pub fn push_capped(buf: &mut Vec<String>, line: &str)
    ensures
        texts(final(buf)@) == capped(texts(old(buf)@), line@),
{
    let ghost before = texts(buf@);
    if buf.len() >= DEFAULT_TAIL_LINES {
        let _oldest = buf.remove(0);
        assert(texts(buf@) =~= before.skip(1));
    }
    let ghost kept = texts(buf@);
    buf.push(line.to_string());
    assert(texts(buf@) =~= kept.push(line@));
}

/// Keeping the last lines one by one is keeping the last of all lines.
proof fn lemma_capped(lines: Seq<Seq<char>>, line: Seq<char>)
    ensures
        capped(tail_of(lines), line) == tail_of(lines.push(line)),
{
    assert(capped(tail_of(lines), line) =~= tail_of(lines.push(line)));
}

/// What is kept of the output while a program runs.
#[derive(Debug)]
pub struct OutputTail {
    /// The last lines of both streams, in the order in which they came.
    pub tail: Vec<String>,
    /// The last lines of stderr alone.
    pub stderr_tail: Vec<String>,
}

impl OutputTail {
    /// Whether this is what is kept of the output `written`.
    pub open spec fn keeps(self, written: Seq<(Stream, Seq<char>)>) -> bool {
        &&& texts(self.tail@) == tail_of(all_lines(written))
        &&& texts(self.stderr_tail@) == tail_of(lines_of(written, Stream::Stderr))
    }

    /// Nothing written yet.
    pub fn new() -> (r: OutputTail)
        ensures
            r.keeps(Seq::empty()),
    {
        let r = OutputTail { tail: Vec::new(), stderr_tail: Vec::new() };
        assert(texts(r.tail@) =~= all_lines(Seq::empty()));
        assert(texts(r.stderr_tail@) =~= lines_of(Seq::empty(), Stream::Stderr));
        r
    }

    /// Takes one more line of output.
    pub fn line(&mut self, stream: Stream, line: &str)
        ensures
            texts(final(self).tail@) == capped(texts(old(self).tail@), line@),
            texts(final(self).stderr_tail@) == (if stream is Stderr {
                capped(texts(old(self).stderr_tail@), line@)
            } else {
                texts(old(self).stderr_tail@)
            }),
            forall|written: Seq<(Stream, Seq<char>)>| #[trigger]
                old(self).keeps(written) ==> final(self).keeps(written.push((stream, line@))),
    {
        if stream == Stream::Stderr {
            push_capped(&mut self.stderr_tail, line);
        }
        push_capped(&mut self.tail, line);
        proof {
            assert forall|written: Seq<(Stream, Seq<char>)>| #[trigger]
                old(self).keeps(written) implies self.keeps(written.push((stream, line@))) by {
                let more = written.push((stream, line@));
                assert(more.drop_last() =~= written);
                lemma_capped(all_lines(written), line@);
                assert(all_lines(more) =~= all_lines(written).push(line@));
                lemma_capped(lines_of(written, Stream::Stderr), line@);
            }
        }
    }

    /// What a run has come to, once the program has ended.
    pub fn finish(self, status: Option<i32>, cancelled: bool) -> (r: ExecResult)
        ensures
            r.status == status,
            r.cancelled == cancelled,
            r.tail == self.tail,
            r.stderr_tail == self.stderr_tail,
    {
        ExecResult { status, cancelled, tail: self.tail, stderr_tail: self.stderr_tail }
    }
}

/// The line that stands in the output where reading it failed.
pub fn read_failure_line(error: &str) -> (r: String)
    ensures
        r@ == "<读取输出失败："@ + error@ + ">"@,
{
    "<读取输出失败：".to_string().concat(error).concat(">")
}

/// What a run of a program has come to.
#[derive(Debug)]
pub struct ExecResult {
    /// The exit code; none where the program was killed.
    pub status: Option<i32>,
    /// Whether the user stopped it.
    pub cancelled: bool,
    /// The last lines of both streams, in the order in which they came.
    pub tail: Vec<String>,
    /// The last lines of stderr alone, where programs write what went wrong.
    pub stderr_tail: Vec<String>,
}

/// The outcome of a run, with its texts as sequences of characters.
pub struct Ran {
    pub status: Option<i32>,
    pub cancelled: bool,
    pub tail: Seq<Seq<char>>,
    pub stderr_tail: Seq<Seq<char>>,
}

impl View for ExecResult {
    type V = Ran;

    open spec fn view(&self) -> Ran {
        Ran {
            status: self.status,
            cancelled: self.cancelled,
            tail: texts(self.tail@),
            stderr_tail: texts(self.stderr_tail@),
        }
    }
}

/// A whole number with its sign.
pub open spec fn signed_decimal(n: int) -> Seq<char> {
    if n < 0 {
        "-"@ + decimal((-n) as nat)
    } else {
        decimal(n as nat)
    }
}

/// The exit code in words.
pub open spec fn code_text(status: Option<i32>) -> Seq<char> {
    match status {
        Some(c) => "退出码 "@ + signed_decimal(c as int),
        None => "进程被强制终止，无退出码"@,
    }
}

impl Ran {
    /// The end of the output: that of stderr where there is any.
    pub open spec fn tail_text(self) -> Seq<char> {
        joined(
            if self.stderr_tail.len() == 0 {
                self.tail
            } else {
                self.stderr_tail
            },
            "\n"@,
        )
    }

    /// Whether the run failed. That the user stopped it is no failure.
    pub open spec fn failed(self) -> bool {
        !self.cancelled && self.status != Some(0i32)
    }

    /// What is said of a run that failed.
    pub open spec fn failure(self, cmd: Seq<char>) -> Fault {
        Fault::CommandFailed { cmd, code: code_text(self.status), stderr: self.tail_text() }
    }
}

impl ExecResult {
    /// Whether the program ended well and was not stopped.
    pub fn success(&self) -> (r: bool)
        ensures
            r == (self.status == Some(0i32) && !self.cancelled),
    {
        match self.status {
            Some(c) => c == 0 && !self.cancelled,
            None => false,
        }
    }

    /// The exit code; none where the program was killed.
    pub fn code(&self) -> (r: Option<i32>)
        ensures
            r == self.status,
    {
        self.status
    }

    /// The end of the output in one text.
    pub fn tail_text(&self) -> (r: String)
        ensures
            r@ == self@.tail_text(),
    {
        if self.stderr_tail.len() == 0 {
            crate::text::join(&self.tail, "\n")
        } else {
            crate::text::join(&self.stderr_tail, "\n")
        }
    }

    /// Turns a run that failed into an error. A run that was stopped is handed
    /// back: what to say of it is for the caller to decide.
    pub fn into_error(self, cmd_display: &str) -> (r: Result<Self, CoreError>)
        ensures
            r is Err <==> self@.failed(),
            r matches Ok(same) ==> same == self,
            r matches Err(e) ==> e@ == self@.failure(cmd_display@),
    {
        if self.cancelled {
            return Ok(self);
        }
        let code = match self.status {
            Some(c) => {
                if c == 0 {
                    return Ok(self);
                }
                let size: u128 = if c < 0 {
                    (-(c as i64)) as u128
                } else {
                    c as u128
                };
                let digits = decimal_text(size);
                if c < 0 {
                    "退出码 ".to_string().concat("-".to_string().concat(digits.as_str()).as_str())
                } else {
                    "退出码 ".to_string().concat(digits.as_str())
                }
            },
            None => "进程被强制终止，无退出码".to_string(),
        };
        let stderr = self.tail_text();
        Err(CoreError::CommandFailed { cmd: cmd_display.to_string(), code, stderr })
    }
}

/// All that a short command wrote.
#[derive(Debug)]
pub struct Captured {
    /// The exit code; none where the program was killed.
    pub status: Option<i32>,
    pub stdout: String,
    pub stderr: String,
}

/// What is to be done about a running program.
#[derive(Debug, Clone, Copy, PartialEq, Eq, Structural)]
pub enum Watch {
    /// Look again in a moment.
    Wait,
    /// Kill the program.
    Kill,
    /// Nothing more is to be done.
    Stop,
}

/// Looks at a running program: one that has ended needs no more looking after,
/// and one that the user wants to stop is killed.
pub fn watch_step(finished: bool, cancelled: bool) -> (r: Watch)
    ensures
        r is Stop <==> finished,
        r is Kill <==> !finished && cancelled,
{
    if finished {
        Watch::Stop
    } else if cancelled {
        Watch::Kill
    } else {
        Watch::Wait
    }
}

/// The places where a program is looked for, in their order: the directory that
/// the user named and its subdirectory `bin`, and the directories of the search
/// path.
pub open spec fn places(
    file: Seq<char>,
    explicit_dir: Option<Seq<char>>,
    path_dirs: Seq<Seq<char>>,
) -> Seq<Seq<char>> {
    (match explicit_dir {
        Some(dir) => seq![
            joined_path(dir, file),
            joined_path(joined_path(dir, "bin"@), file),
        ],
        None => Seq::empty(),
    }) + in_each(path_dirs, file)
}

/// The file in each of the directories.
pub open spec fn in_each(dirs: Seq<Seq<char>>, file: Seq<char>) -> Seq<Seq<char>> {
    dirs.map_values(|dir: Seq<char>| joined_path(dir, file))
}

/// The places where a program is looked for. `suffix` is what the system adds to
/// the names of programs, such as `.exe`.
pub fn candidates(
    name: &str,
    suffix: &str,
    explicit_dir: Option<&str>,
    path_dirs: &[String],
) -> (r: Vec<String>)
    ensures
        texts(r@) == places(
            name@ + suffix@,
            maybe_text(explicit_dir),
            texts(path_dirs@),
        ),
{
    let file = name.to_string().concat(suffix);
    let mut out: Vec<String> = Vec::new();
    if let Some(dir) = explicit_dir {
        out.push(join(dir, file.as_str()));
        out.push(join(join(dir, "bin").as_str(), file.as_str()));
    }
    let ghost front = texts(out@);
    let mut i: usize = 0;
    while i < path_dirs.len()
        invariant
            i <= path_dirs@.len(),
            file@ == name@ + suffix@,
            texts(out@) == front + in_each(texts(path_dirs@.take(i as int)), file@),
        decreases path_dirs@.len() - i,
    {
        let ghost before = texts(out@);
        let place = join(path_dirs[i].as_str(), file.as_str());
        out.push(place);
        i += 1;
        assert(texts(out@) =~= before.push(place@));
        assert(in_each(texts(path_dirs@.take(i as int)), file@) =~= in_each(
            texts(path_dirs@.take(i - 1)),
            file@,
        ).push(place@));
    }
    assert(path_dirs@.take(path_dirs@.len() as int) =~= path_dirs@);
    assert(texts(out@) =~= places(
        name@ + suffix@,
        maybe_text(explicit_dir),
        texts(path_dirs@),
    ));
    out
}

/// Looks for a program. The directory that the user named comes before the
/// search path: whoever names one wants that one.
///
/// `is_file` tells whether there is a file at a place. The first place where
/// there is one is the answer.
pub fn find_executable<F: Fn(&str) -> bool>(
    name: &str,
    suffix: &str,
    explicit_dir: Option<&str>,
    path_dirs: &[String],
    is_file: F,
) -> (r: Option<String>)
    requires
        forall|p: &str| call_requires(is_file, (p,)),
    ensures
        first_file(
            is_file,
            places(name@ + suffix@, maybe_text(explicit_dir), texts(path_dirs@)),
            maybe_string(r),
        ),
{
    let found = candidates(name, suffix, explicit_dir, path_dirs);
    let mut i: usize = 0;
    while i < found.len()
        invariant
            i <= found@.len(),
            texts(found@) == places(name@ + suffix@, maybe_text(explicit_dir), texts(path_dirs@)),
            forall|p: &str| call_requires(is_file, (p,)),
            forall|j: int| 0 <= j < i ==> answered(is_file, #[trigger] texts(found@)[j], false),
        decreases found@.len() - i,
    {
        let place = found[i].as_str();
        let there = is_file(place);
        assert(answered(is_file, place@, there));
        assert(texts(found@)[i as int] == place@);
        if there {
            assert(answered(is_file, texts(found@)[i as int], true));
            return Some(found[i].clone());
        }
        i += 1;
    }
    None
}

/// Whether `is_file`, asked about the place, gave this answer.
pub open spec fn answered<F: Fn(&str) -> bool>(is_file: F, place: Seq<char>, answer: bool) -> bool {
    exists|p: &str| p@ == place && #[trigger] call_ensures(is_file, (p,), answer)
}

/// Whether the place is the first of the list at which `is_file` saw a file;
/// none, where it saw a file at no place.
pub open spec fn first_file<F: Fn(&str) -> bool>(
    is_file: F,
    list: Seq<Seq<char>>,
    place: Option<Seq<char>>,
) -> bool {
    match place {
        Some(found) => exists|i: int|
            0 <= i < list.len() && #[trigger] list[i] == found && answered(is_file, found, true)
                && forall|j: int| 0 <= j < i ==> answered(is_file, #[trigger] list[j], false),
        None => forall|j: int|
            0 <= j < list.len() ==> answered(is_file, #[trigger] list[j], false),
    }
}

} // verus!
