//! The course of cutting one video.
//!
//! A [`CutJob`] decides what is done next; the caller does it and comes back with
//! what came of it. Nothing of the input is ever written to: the job ends at once
//! where the output would be the input. Where ffmpeg fails or is stopped, what it
//! left of the output is removed, and so is the directory with the pieces.

use vstd::prelude::*;

use crate::cut::{
    concat_list_line, cut_args, join_args, list_line, note_in, output_note, same_file,
    same_file_spec, temp_dir, temp_dir_spec, CutMode, CutNote, CutOutcome, CutRequest, Cutter,
    Fraction, Note,
};
use crate::error::{CoreError, Fault};
use crate::exec::{CommandLine, ExecResult, Ran, Stream, Words};
use crate::model::{format_timestamp, stamp, sum_lengths, total_length, Segment};
use crate::paths::{extension, extension_of, join, joined_path, parent, parent_of};
use crate::secs::{zero, Secs};
use crate::text::{decimal, decimal_text, maybe_string, padded, padded_text};

verus! {

/// What has to be known of the file system before a video is cut.
#[derive(Debug, PartialEq, Eq)]
pub struct CutFacts {
    /// Where the paths of the input and of the output really lead, if they lead
    /// anywhere.
    pub input_real: Option<String>,
    pub output_real: Option<String>,
    /// Whether something is at the output's path.
    pub output_exists: bool,
    /// The process and the time, for the name of the directory with the pieces.
    pub pid: u32,
    pub nanos: u128,
}

/// What is to be done next.
#[derive(Debug, PartialEq)]
pub enum CutAction {
    /// Make a directory, and those above it.
    MakeDir(String),
    /// Run a program to its end, unless the user stops it.
    Run(CommandLine),
    /// Write a text to a file.
    Write { path: String, text: String },
    /// Remove a file, if it is there.
    RemoveFile(String),
    /// Remove a directory with all that is in it.
    RemoveDir(String),
    /// Nothing: this is what came of it all.
    Finish(Result<CutOutcome, CoreError>),
}

/// What came of the last action.
#[derive(Debug)]
pub enum CutEvent {
    /// It was done.
    Done,
    /// The system reported an error.
    Failed(String),
    /// The program has run.
    Ran(ExecResult),
}

/// What came of cutting, with its text as a sequence of characters.
pub struct Made {
    pub output: Seq<char>,
    pub kept_secs: Secs,
    pub segments: nat,
    pub used_concat: bool,
}

impl View for CutOutcome {
    type V = Made;

    open spec fn view(&self) -> Made {
        Made {
            output: self.output@,
            kept_secs: self.kept_secs,
            segments: self.segments as nat,
            used_concat: self.used_concat,
        }
    }
}

/// What is to be done next, with its texts as sequences of characters.
pub enum Act {
    MakeDir(Seq<char>),
    Run(Words),
    Write { path: Seq<char>, text: Seq<char> },
    RemoveFile(Seq<char>),
    RemoveDir(Seq<char>),
    Finish(Result<Made, Fault>),
}

/// The end of a job, by its views.
pub open spec fn end_view(r: Result<CutOutcome, CoreError>) -> Result<Made, Fault> {
    match r {
        Ok(o) => Ok(o@),
        Err(e) => Err(e@),
    }
}

impl View for CutAction {
    type V = Act;

    open spec fn view(&self) -> Act {
        match *self {
            CutAction::MakeDir(d) => Act::MakeDir(d@),
            CutAction::Run(c) => Act::Run(c@),
            CutAction::Write { path, text } => Act::Write { path: path@, text: text@ },
            CutAction::RemoveFile(p) => Act::RemoveFile(p@),
            CutAction::RemoveDir(d) => Act::RemoveDir(d@),
            CutAction::Finish(r) => Act::Finish(end_view(r)),
        }
    }
}

/// What came of the last action, with its texts as sequences of characters.
pub enum Event {
    Done,
    Failed(Seq<char>),
    Ran(Ran),
}

impl View for CutEvent {
    type V = Event;

    open spec fn view(&self) -> Event {
        match *self {
            CutEvent::Done => Event::Done,
            CutEvent::Failed(e) => Event::Failed(e@),
            CutEvent::Ran(r) => Event::Ran(r@),
        }
    }
}

/// Where a job stands: what it waits for.
pub enum CutPhase {
    /// The output's directory is being made.
    Parent,
    /// The one piece is being cut.
    Single,
    /// The directory for the pieces is being made.
    Temp,
    /// A piece is being cut.
    Part(usize),
    /// The list of the pieces is being written.
    List,
    /// The pieces are being joined.
    Join,
    /// What there is of the output is being removed; `temp` tells whether there is
    /// a directory with pieces to be removed after it.
    DropOutput { result: Result<CutOutcome, CoreError>, temp: bool },
    /// The directory with the pieces is being removed.
    DropTemp { result: Result<CutOutcome, CoreError> },
    /// All is done.
    Over,
}

/// Where a job stands, by its views.
pub enum Phase {
    Parent,
    Single,
    Temp,
    Part(nat),
    List,
    Join,
    DropOutput { result: Result<Made, Fault>, temp: bool },
    DropTemp { result: Result<Made, Fault> },
    Over,
}

impl View for CutPhase {
    type V = Phase;

    open spec fn view(&self) -> Phase {
        match *self {
            CutPhase::Parent => Phase::Parent,
            CutPhase::Single => Phase::Single,
            CutPhase::Temp => Phase::Temp,
            CutPhase::Part(i) => Phase::Part(i as nat),
            CutPhase::List => Phase::List,
            CutPhase::Join => Phase::Join,
            CutPhase::DropOutput { result, temp } => Phase::DropOutput {
                result: end_view(result),
                temp,
            },
            CutPhase::DropTemp { result } => Phase::DropTemp { result: end_view(result) },
            CutPhase::Over => Phase::Over,
        }
    }
}

/// What a job works on, from its beginning to its end.
pub struct Plan {
    pub ffmpeg: Seq<char>,
    pub input: Seq<char>,
    pub output: Seq<char>,
    pub keep: Seq<Segment>,
    pub mode: CutMode,
    pub overwrite: bool,
    /// The directory for the pieces.
    pub temp: Seq<char>,
}

/// What follows: where the job then stands, what there is to tell before the next
/// action, and that action.
pub struct Move {
    pub phase: Phase,
    pub notes: Seq<Note>,
    pub act: Act,
}

pub open spec fn finish(result: Result<Made, Fault>) -> Move {
    Move { phase: Phase::Over, notes: Seq::empty(), act: Act::Finish(result) }
}

/// All is done.
pub open spec fn all_of_it() -> Fraction {
    Fraction::Of { part: 1, whole: 1 }
}

impl Plan {
    /// How much is kept.
    pub open spec fn total(self) -> Secs {
        total_length(self.keep)
    }

    /// The file of a piece.
    pub open spec fn part(self, i: nat) -> Seq<char> {
        let ext = match extension_of(self.output) {
            Some(e) => e,
            None => "mkv"@,
        };
        joined_path(self.temp, "part_"@ + padded(i, 3) + "."@ + ext)
    }

    /// The file with the list of the pieces.
    pub open spec fn list(self) -> Seq<char> {
        joined_path(self.temp, "concat.txt"@)
    }

    /// The list of the first `n` pieces.
    pub open spec fn list_text(self, n: nat) -> Seq<char>
        decreases n,
    {
        if n == 0 {
            Seq::empty()
        } else {
            self.list_text((n - 1) as nat) + list_line(self.part((n - 1) as nat)) + "\n"@
        }
    }

    /// Cutting one piece.
    pub open spec fn cut(self, output: Seq<char>, i: int, overwrite: bool) -> Act {
        Act::Run(
            Words {
                program: self.ffmpeg,
                args: cut_args(self.input, output, self.keep[i], self.mode, overwrite),
            },
        )
    }

    /// What is told before a piece is cut.
    pub open spec fn part_note(self, i: nat) -> Note {
        Note::Line(
            "—— 第 "@ + decimal(i + 1) + "/"@ + decimal(self.keep.len()) + " 段："@ + stamp(
                self.keep[i as int].start,
            ) + " → "@ + stamp(self.keep[i as int].end),
        )
    }

    /// The beginning of the work on a piece.
    pub open spec fn start_part(self, i: nat) -> Move {
        Move {
            phase: Phase::Part(i),
            notes: seq![self.part_note(i)],
            act: self.cut(self.part(i), i as int, true),
        }
    }

    /// The beginning, once the output has a directory.
    pub open spec fn start(self) -> Move {
        if self.total().no_later(zero()) {
            finish(Err(Fault::NothingToKeep(self.input)))
        } else if self.keep.len() == 1 {
            Move {
                phase: Phase::Single,
                notes: Seq::empty(),
                act: self.cut(self.output, 0, self.overwrite),
            }
        } else {
            Move { phase: Phase::Temp, notes: Seq::empty(), act: Act::MakeDir(self.temp) }
        }
    }

    /// The end, once the directory with the pieces is removed.
    pub open spec fn drop_temp(self, result: Result<Made, Fault>) -> Move {
        Move {
            phase: Phase::DropTemp { result },
            notes: Seq::empty(),
            act: Act::RemoveDir(self.temp),
        }
    }

    /// The end, once what there is of the output is removed.
    pub open spec fn drop_output(self, fault: Fault, temp: bool) -> Move {
        Move {
            phase: Phase::DropOutput { result: Err(fault), temp },
            notes: Seq::empty(),
            act: Act::RemoveFile(self.output),
        }
    }

    /// The very first move. What must not be cut is refused before anything is
    /// done.
    pub open spec fn begin(
        self,
        input_real: Option<Seq<char>>,
        output_real: Option<Seq<char>>,
        output_exists: bool,
    ) -> Move {
        if self.keep.len() == 0 {
            finish(Err(Fault::NothingToKeep(self.input)))
        } else if same_file_spec(self.input, self.output, input_real, output_real) {
            finish(Err(Fault::OutputEqualsInput(self.input)))
        } else if output_exists && !self.overwrite {
            finish(Err(Fault::OutputExists(self.output)))
        } else {
            match parent_of(self.output) {
                Some(p) => if p.len() > 0 {
                    Move { phase: Phase::Parent, notes: Seq::empty(), act: Act::MakeDir(p) }
                } else {
                    self.start()
                },
                None => self.start(),
            }
        }
    }

    /// The move that follows on an event.
    pub open spec fn next(self, phase: Phase, event: Event) -> Move {
        match (phase, event) {
            (Phase::Parent, Event::Failed(e)) => finish(Err(Fault::Io(e))),
            (Phase::Parent, _) => self.start(),
            (Phase::Single, Event::Failed(e)) => finish(Err(Fault::Io(e))),
            (Phase::Single, Event::Ran(r)) => if r.cancelled {
                self.drop_output(Fault::Cancelled, false)
            } else if r.failed() {
                self.drop_output(r.failure("ffmpeg 切割 "@ + self.input), false)
            } else {
                Move {
                    phase: Phase::Over,
                    notes: seq![Note::Progress(all_of_it())],
                    act: Act::Finish(
                        Ok(
                            Made {
                                output: self.output,
                                kept_secs: self.total(),
                                segments: 1,
                                used_concat: false,
                            },
                        ),
                    ),
                }
            },
            (Phase::Temp, Event::Failed(e)) => finish(Err(Fault::Io(e))),
            (Phase::Temp, _) => self.start_part(0),
            (Phase::Part(i), Event::Failed(e)) => self.drop_temp(Err(Fault::Io(e))),
            (Phase::Part(i), Event::Ran(r)) => if r.cancelled {
                self.drop_temp(Err(Fault::Cancelled))
            } else if r.failed() {
                self.drop_temp(
                    Err(r.failure("ffmpeg 切割第 "@ + decimal(i + 1) + " 段"@)),
                )
            } else if i + 1 < self.keep.len() {
                self.start_part(i + 1)
            } else {
                Move {
                    phase: Phase::List,
                    notes: Seq::empty(),
                    act: Act::Write { path: self.list(), text: self.list_text(self.keep.len()) },
                }
            },
            (Phase::List, Event::Failed(e)) => self.drop_temp(Err(Fault::Io(e))),
            (Phase::List, _) => Move {
                phase: Phase::Join,
                notes: seq![Note::Line("—— 拼接分段"@)],
                act: Act::Run(
                    Words { program: self.ffmpeg, args: join_args(self.list(), self.output) },
                ),
            },
            (Phase::Join, Event::Failed(e)) => self.drop_temp(Err(Fault::Io(e))),
            (Phase::Join, Event::Ran(r)) => if r.cancelled {
                self.drop_output(Fault::Cancelled, true)
            } else if r.failed() {
                self.drop_output(r.failure("ffmpeg 拼接分段"@), true)
            } else {
                Move {
                    notes: seq![Note::Progress(all_of_it())],
                    ..self.drop_temp(
                        Ok(
                            Made {
                                output: self.output,
                                kept_secs: self.total(),
                                segments: self.keep.len(),
                                used_concat: true,
                            },
                        ),
                    )
                }
            },
            (Phase::DropOutput { result, temp }, _) => if temp {
                self.drop_temp(result)
            } else {
                finish(result)
            },
            (Phase::DropTemp { result }, _) => finish(result),
            _ => finish(Err(Fault::Cancelled)),
        }
    }

    /// How much was written before the program that runs in this phase.
    pub open spec fn base(self, phase: Phase) -> Secs {
        match phase {
            Phase::Part(i) => total_length(self.keep.take(i as int)),
            Phase::Join => self.total(),
            _ => zero(),
        }
    }

    /// Whether a job can stand in this phase.
    pub open spec fn can_be_in(self, phase: Phase) -> bool {
        &&& self.keep.len() > 0
        &&& match phase {
            Phase::Parent | Phase::Over => true,
            Phase::Single => self.keep.len() == 1 && !self.total().no_later(zero()),
            Phase::Part(i) => i < self.keep.len() && !self.total().no_later(zero()),
            _ => !self.total().no_later(zero()),
        }
    }
}

/// Whether the event can come in the phase: where a program was to be run, that
/// it ran or that it could not be started; anywhere else, that the action was
/// done or that it failed.
pub open spec fn awaits(phase: Phase, event: Event) -> bool {
    match phase {
        Phase::Single | Phase::Part(_) | Phase::Join => event !is Done,
        Phase::Over => false,
        _ => event !is Ran,
    }
}

/// The cutting of one video.
pub struct CutJob {
    pub cutter: Cutter,
    pub req: CutRequest,
    /// The directory for the pieces.
    pub temp: String,
    /// How much is kept.
    pub total: Secs,
    /// How much the pieces hold that are cut already.
    pub done: Secs,
    pub phase: CutPhase,
}

/// What a job does next.
pub struct CutStep {
    pub job: CutJob,
    /// What there is to tell before the action.
    pub notes: Vec<CutNote>,
    pub action: CutAction,
}

/// The views of notes.
pub open spec fn notes_view(v: Seq<CutNote>) -> Seq<Note> {
    v.map_values(|n: CutNote| n@)
}

impl CutStep {
    pub open spec fn as_move(self) -> Move {
        Move { phase: self.job.phase@, notes: notes_view(self.notes@), act: self.action@ }
    }
}

impl CutJob {
    pub open spec fn plan(self) -> Plan {
        Plan {
            ffmpeg: self.cutter.ffmpeg@,
            input: self.req.input@,
            output: self.req.output@,
            keep: self.req.keep@,
            mode: self.req.mode,
            overwrite: self.req.overwrite,
            temp: self.temp@,
        }
    }

    /// The job knows how much is kept and how much is done, and stands where it
    /// can stand.
    pub open spec fn wf(self) -> bool {
        &&& self.total == self.plan().total()
        &&& self.phase !is Over ==> self.plan().can_be_in(self.phase@)
        &&& self.phase !is Over ==> match self.phase {
            CutPhase::Part(i) => self.done == total_length(self.req.keep@.take(i as int)),
            CutPhase::List | CutPhase::Join => self.done == self.total,
            CutPhase::Parent | CutPhase::Single | CutPhase::Temp => self.done == zero(),
            _ => true,
        }
    }

    /// What a line of the running program's output tells.
    pub fn note(&self, stream: Stream, line: &str) -> (r: Option<CutNote>)
        requires
            self.wf(),
            self.phase is Single || self.phase is Part || self.phase is Join,
        ensures
            ({
                let told = note_in(
                    stream,
                    line@,
                    self.plan().base(self.phase@),
                    self.plan().total(),
                );
                &&& r is Some <==> told is Some
                &&& r matches Some(n) ==> told == Some(n@)
            }),
    {
        output_note(stream, line, self.done, self.total)
    }

    fn moved(self, phase: CutPhase, notes: Vec<CutNote>, action: CutAction) -> (r: CutStep)
        ensures
            r.as_move() == (Move {
                phase: phase@,
                notes: notes_view(notes@),
                act: action@,
            }),
            r.job == (CutJob { phase, ..self }),
    {
        CutStep { job: CutJob { phase, ..self }, notes, action }
    }

    fn quietly(self, phase: CutPhase, action: CutAction) -> (r: CutStep)
        ensures
            r.as_move() == (Move { phase: phase@, notes: Seq::empty(), act: action@ }),
            r.job == (CutJob { phase, ..self }),
    {
        let notes: Vec<CutNote> = Vec::new();
        assert(notes_view(notes@) =~= Seq::<Note>::empty());
        self.moved(phase, notes, action)
    }

    fn over(self, result: Result<CutOutcome, CoreError>) -> (r: CutStep)
        ensures
            r.as_move() == finish(end_view(result)),
            r.job == (CutJob { phase: CutPhase::Over, ..self }),
    {
        self.quietly(CutPhase::Over, CutAction::Finish(result))
    }

    /// The end, once the directory with the pieces is removed.
    fn drop_temp(self, notes: Vec<CutNote>, result: Result<CutOutcome, CoreError>) -> (r: CutStep)
        ensures
            r.as_move() == (Move {
                notes: notes_view(notes@),
                ..self.plan().drop_temp(end_view(result))
            }),
            r.job.plan() == self.plan(),
            r.job.total == self.total,
    {
        let dir = self.temp.clone();
        self.moved(CutPhase::DropTemp { result }, notes, CutAction::RemoveDir(dir))
    }

    /// The end, once what there is of the output is removed.
    fn drop_output(self, error: CoreError, temp: bool) -> (r: CutStep)
        ensures
            r.as_move() == self.plan().drop_output(error@, temp),
            r.job.plan() == self.plan(),
            r.job.total == self.total,
    {
        let path = self.req.output.clone();
        self.quietly(
            CutPhase::DropOutput { result: Err(error), temp },
            CutAction::RemoveFile(path),
        )
    }

    /// The beginning, once the output has a directory.
    fn start(self) -> (r: CutStep)
        requires
            self.total == self.plan().total(),
            self.done == zero(),
            self.req.keep@.len() > 0,
        ensures
            r.as_move() == self.plan().start(),
            r.job.plan() == self.plan(),
            r.job.wf(),
    {
        if self.total.le(Secs::Finite(0)) {
            let input = self.req.input.clone();
            return self.over(Err(CoreError::NothingToKeep(input)));
        }
        if self.req.keep.len() == 1 {
            let cmd = self.cutter.build_cut_command(
                self.req.input.as_str(),
                self.req.output.as_str(),
                self.req.keep[0],
                self.req.mode,
                self.req.overwrite,
            );
            self.quietly(CutPhase::Single, CutAction::Run(cmd))
        } else {
            let dir = self.temp.clone();
            self.quietly(CutPhase::Temp, CutAction::MakeDir(dir))
        }
    }

    /// The file of a piece.
    fn part(&self, i: usize) -> (r: String)
        ensures
            r@ == self.plan().part(i as nat),
    {
        let ext = match extension(self.req.output.as_str()) {
            Some(e) => e,
            None => "mkv".to_string(),
        };
        let name = "part_".to_string().concat(padded_text(i as u128, 3).as_str()).concat(
            ".",
        ).concat(ext.as_str());
        join(self.temp.as_str(), name.as_str())
    }

    /// The list of the pieces.
    fn list_text(&self) -> (r: String)
        ensures
            r@ == self.plan().list_text(self.req.keep@.len()),
    {
        let mut text = String::new();
        let mut i: usize = 0;
        while i < self.req.keep.len()
            invariant
                i <= self.req.keep@.len(),
                text@ == self.plan().list_text(i as nat),
            decreases self.req.keep@.len() - i,
        {
            text.append(concat_list_line(self.part(i).as_str()).as_str());
            text.push('\n');
            i += 1;
            proof {
                reveal_strlit("\n");
                assert(text@ =~= self.plan().list_text((i - 1) as nat) + list_line(
                    self.plan().part((i - 1) as nat),
                ) + "\n"@);
            }
        }
        text
    }

    /// The beginning of the work on a piece.
    fn start_part(self, i: usize) -> (r: CutStep)
        requires
            self.total == self.plan().total(),
            !self.total.no_later(zero()),
            i < self.req.keep@.len(),
            self.done == total_length(self.req.keep@.take(i as int)),
        ensures
            r.as_move() == self.plan().start_part(i as nat),
            r.job.plan() == self.plan(),
            r.job.wf(),
    {
        let seg = self.req.keep[i];
        let part = self.part(i);
        let line = "—— 第 ".to_string().concat(decimal_text(i as u128 + 1).as_str()).concat(
            "/",
        ).concat(decimal_text(self.req.keep.len() as u128).as_str()).concat(" 段：").concat(
            format_timestamp(seg.start).as_str(),
        ).concat(" → ").concat(format_timestamp(seg.end).as_str());
        let cmd = self.cutter.build_cut_command(
            self.req.input.as_str(),
            part.as_str(),
            seg,
            self.req.mode,
            true,
        );
        let mut notes: Vec<CutNote> = Vec::new();
        notes.push(CutNote::Line(line));
        assert(notes_view(notes@) =~= seq![self.plan().part_note(i as nat)]);
        self.moved(CutPhase::Part(i), notes, CutAction::Run(cmd))
    }

    /// What follows once the one piece was cut.
    fn after_single(self, res: ExecResult) -> (r: CutStep)
        requires
            self.total == self.plan().total(),
            self.plan().can_be_in(Phase::Single),
        ensures
            r.as_move() == self.plan().next(Phase::Single, Event::Ran(res@)),
            r.job.plan() == self.plan(),
            r.job.wf(),
    {
        if res.cancelled {
            return self.drop_output(CoreError::Cancelled, false);
        }
        let cmd = "ffmpeg 切割 ".to_string().concat(self.req.input.as_str());
        match res.into_error(cmd.as_str()) {
            Err(e) => self.drop_output(e, false),
            Ok(_) => {
                let made = CutOutcome {
                    output: self.req.output.clone(),
                    kept_secs: self.total,
                    segments: 1,
                    used_concat: false,
                };
                self.moved(CutPhase::Over, all_done(), CutAction::Finish(Ok(made)))
            },
        }
    }

    /// What follows once a piece was cut.
    fn after_part(self, i: usize, res: ExecResult) -> (r: CutStep)
        requires
            self.total == self.plan().total(),
            self.plan().can_be_in(Phase::Part(i as nat)),
            self.done == total_length(self.req.keep@.take(i as int)),
        ensures
            r.as_move() == self.plan().next(Phase::Part(i as nat), Event::Ran(res@)),
            r.job.plan() == self.plan(),
            r.job.wf(),
    {
        let ghost plan = self.plan();
        let none: Vec<CutNote> = Vec::new();
        assert(notes_view(none@) =~= Seq::<Note>::empty());
        if res.cancelled {
            return self.drop_temp(none, Err(CoreError::Cancelled));
        }
        let cmd = "ffmpeg 切割第 ".to_string().concat(decimal_text(i as u128 + 1).as_str()).concat(
            " 段",
        );
        match res.into_error(cmd.as_str()) {
            Err(e) => {
                return self.drop_temp(none, Err(e));
            },
            Ok(_) => {},
        }
        proof {
            let keep = self.req.keep@;
            assert(keep.take(i + 1).drop_last() =~= keep.take(i as int));
            assert(keep.take(keep.len() as int) =~= keep);
        }
        let done = self.done.plus(self.req.keep[i].duration());
        let more = CutJob { done, ..self };
        assert(more.plan() == plan);
        let count: usize = more.req.keep.len();
        if i + 1 < count {
            more.start_part(i + 1)
        } else {
            let path = join(more.temp.as_str(), "concat.txt");
            let text = more.list_text();
            more.quietly(CutPhase::List, CutAction::Write { path, text })
        }
    }

    /// What follows once the list of the pieces was written.
    fn after_list(self) -> (r: CutStep)
        requires
            self.total == self.plan().total(),
            self.plan().can_be_in(Phase::List),
            self.done == self.total,
        ensures
            r.as_move() == self.plan().next(Phase::List, Event::Done),
            r.job.plan() == self.plan(),
            r.job.wf(),
    {
        let list = join(self.temp.as_str(), "concat.txt");
        let cmd = self.cutter.build_join_command(list.as_str(), self.req.output.as_str());
        let mut notes: Vec<CutNote> = Vec::new();
        notes.push(CutNote::Line("—— 拼接分段".to_string()));
        assert(notes_view(notes@) =~= seq![Note::Line("—— 拼接分段"@)]);
        self.moved(CutPhase::Join, notes, CutAction::Run(cmd))
    }

    /// What follows once the pieces were joined.
    fn after_join(self, res: ExecResult) -> (r: CutStep)
        requires
            self.total == self.plan().total(),
            self.plan().can_be_in(Phase::Join),
        ensures
            r.as_move() == self.plan().next(Phase::Join, Event::Ran(res@)),
            r.job.plan() == self.plan(),
            r.job.wf(),
    {
        if res.cancelled {
            return self.drop_output(CoreError::Cancelled, true);
        }
        match res.into_error("ffmpeg 拼接分段") {
            Err(e) => self.drop_output(e, true),
            Ok(_) => {
                let made = CutOutcome {
                    output: self.req.output.clone(),
                    kept_secs: self.total,
                    segments: self.req.keep.len(),
                    used_concat: true,
                };
                self.drop_temp(all_done(), Ok(made))
            },
        }
    }

    /// What follows on what came of the last action.
    pub fn step(self, event: CutEvent) -> (r: CutStep)
        requires
            self.wf(),
            awaits(self.phase@, event@),
        ensures
            r.as_move() == self.plan().next(self.phase@, event@),
            r.job.plan() == self.plan(),
            r.job.wf(),
    {
        let ghost plan = self.plan();
        let CutJob { cutter, req, temp, total, done, phase } = self;
        // The phase that was left has been taken out; another takes its place below.
        let job = CutJob { cutter, req, temp, total, done, phase: CutPhase::Over };
        assert(job.plan() == plan);
        let none: Vec<CutNote> = Vec::new();
        assert(notes_view(none@) =~= Seq::<Note>::empty());
        match (phase, event) {
            (CutPhase::Parent, CutEvent::Failed(e)) => job.over(Err(CoreError::Io(e))),
            (CutPhase::Parent, _) => job.start(),
            (CutPhase::Single, CutEvent::Failed(e)) => job.over(Err(CoreError::Io(e))),
            (CutPhase::Single, CutEvent::Ran(res)) => job.after_single(res),
            (CutPhase::Temp, CutEvent::Failed(e)) => job.over(Err(CoreError::Io(e))),
            (CutPhase::Temp, _) => {
                assert(job.req.keep@.take(0) =~= Seq::<Segment>::empty());
                job.start_part(0)
            },
            (CutPhase::Part(_), CutEvent::Failed(e)) => job.drop_temp(none, Err(CoreError::Io(e))),
            (CutPhase::Part(i), CutEvent::Ran(res)) => job.after_part(i, res),
            (CutPhase::List, CutEvent::Failed(e)) => job.drop_temp(none, Err(CoreError::Io(e))),
            (CutPhase::List, _) => job.after_list(),
            (CutPhase::Join, CutEvent::Failed(e)) => job.drop_temp(none, Err(CoreError::Io(e))),
            (CutPhase::Join, CutEvent::Ran(res)) => job.after_join(res),
            (CutPhase::DropOutput { result, temp }, _) => if temp {
                job.drop_temp(none, result)
            } else {
                job.over(result)
            },
            (CutPhase::DropTemp { result }, _) => job.over(result),
            _ => job.over(Err(CoreError::Cancelled)),
        }
    }
}

/// The note that all is done.
fn all_done() -> (r: Vec<CutNote>)
    ensures
        notes_view(r@) == seq![Note::Progress(all_of_it())],
{
    let mut notes: Vec<CutNote> = Vec::new();
    notes.push(CutNote::Progress(Fraction::Of { part: 1, whole: 1 }));
    assert(notes_view(notes@) =~= seq![Note::Progress(all_of_it())]);
    notes
}

impl Cutter {
    /// Begins to cut a video. What must not be cut is refused here: a request that
    /// keeps nothing, one whose output is its input, and one whose output is
    /// there already and may not be replaced.
    pub fn cut(&self, req: CutRequest, facts: &CutFacts) -> (r: CutStep)
        ensures
            r.job.wf(),
            r.job.plan() == (Plan {
                ffmpeg: self.ffmpeg@,
                input: req.input@,
                output: req.output@,
                keep: req.keep@,
                mode: req.mode,
                overwrite: req.overwrite,
                temp: temp_dir_spec(req.output@, facts.pid, facts.nanos),
            }),
            r.as_move() == r.job.plan().begin(
                maybe_string(facts.input_real),
                maybe_string(facts.output_real),
                facts.output_exists,
            ),
    {
        let temp = temp_dir(req.output.as_str(), facts.pid, facts.nanos);
        let total = sum_lengths(&req.keep);
        let job = CutJob {
            cutter: self.clone(),
            req,
            temp,
            total,
            done: Secs::Finite(0),
            phase: CutPhase::Over,
        };
        if job.req.keep.len() == 0 {
            let input = job.req.input.clone();
            return job.over(Err(CoreError::NothingToKeep(input)));
        }
        if same_file(
            job.req.input.as_str(),
            job.req.output.as_str(),
            &facts.input_real,
            &facts.output_real,
        ) {
            let input = job.req.input.clone();
            return job.over(Err(CoreError::OutputEqualsInput(input)));
        }
        if facts.output_exists && !job.req.overwrite {
            let output = job.req.output.clone();
            return job.over(Err(CoreError::OutputExists(output)));
        }
        match parent(job.req.output.as_str()) {
            Some(p) => {
                if p.as_str().is_empty() {
                    job.start()
                } else {
                    job.quietly(CutPhase::Parent, CutAction::MakeDir(p))
                }
            },
            None => job.start(),
        }
    }
}

} // verus!
