//! The course of a detection with needle as a program.
//!
//! A [`DetectJob`] decides what is done next; the caller does it and comes back
//! with what came of it: ask needle what it can do, take the fingerprints of each
//! video, compare them, read the results, remove what needle left.
//!
//! Once it has begun, a detection that went wrong cleans up like one that went
//! well.

use vstd::prelude::*;

use crate::detect::cli::{
    analyze_args, check_run, knows_endings, pool_size, pool_size_spec, run_outcome, search_args,
    survivors_of, AnalyzeTally, CliCapabilities, CliDetector,
};
use crate::detect::{
    check_cancel, cleanup_new, collect_detections, collected, finding_notes, list_view,
    removal_notes, removed_count, tell_log, tell_stage, told, DetectEvent, DetectOptions, Reading,
    Told,
};
use crate::error::{CoreError, Fault};
use crate::exec::{Captured, CommandLine, ExecResult, Words};
use crate::model::Detection;
use crate::text::{decimal, decimal_text, texts};

verus! {

/// What is to be done next.
#[derive(Debug)]
pub enum DetectAction {
    /// Ask needle for its help on both commands.
    AskHelp { analyze: CommandLine, search: CommandLine },
    /// Run these commands, one for each video, so many at once.
    Analyze { commands: Vec<CommandLine>, at_once: usize },
    /// Run this command.
    Search(CommandLine),
    /// Read the results of each video.
    Read,
    /// Remove what needle left.
    Clean,
    /// Nothing: this is what came of it all.
    Finish(Result<Vec<Detection>, CoreError>),
}

/// What is to be done next, by its views.
pub enum Act {
    AskHelp { analyze: Words, search: Words },
    Analyze { commands: Seq<Words>, at_once: nat },
    Search(Words),
    Read,
    Clean,
    Finish(Result<Seq<Detection>, Fault>),
}

/// The views of commands.
pub open spec fn commands_view(v: Seq<CommandLine>) -> Seq<Words> {
    v.map_values(|c: CommandLine| c@)
}

impl View for DetectAction {
    type V = Act;

    open spec fn view(&self) -> Act {
        match *self {
            DetectAction::AskHelp { analyze, search } => Act::AskHelp {
                analyze: analyze@,
                search: search@,
            },
            DetectAction::Analyze { commands, at_once } => Act::Analyze {
                commands: commands_view(commands@),
                at_once: at_once as nat,
            },
            DetectAction::Search(c) => Act::Search(c@),
            DetectAction::Read => Act::Read,
            DetectAction::Clean => Act::Clean,
            DetectAction::Finish(r) => Act::Finish(list_view(r)),
        }
    }
}

/// Where a detection stands: what it waits for.
#[derive(Debug)]
pub enum DetectPhase {
    Help,
    Analyze,
    Search,
    Read,
    Clean { result: Result<Vec<Detection>, CoreError> },
    Over,
}

/// Where a detection stands, by its views.
pub enum Phase {
    Help,
    Analyze,
    Search,
    Read,
    Clean { result: Result<Seq<Detection>, Fault> },
    Over,
}

impl View for DetectPhase {
    type V = Phase;

    open spec fn view(&self) -> Phase {
        match *self {
            DetectPhase::Help => Phase::Help,
            DetectPhase::Analyze => Phase::Analyze,
            DetectPhase::Search => Phase::Search,
            DetectPhase::Read => Phase::Read,
            DetectPhase::Clean { result } => Phase::Clean { result: list_view(result) },
            DetectPhase::Over => Phase::Over,
        }
    }
}

/// What follows: where the detection then stands, what there is to tell before
/// the next action, and that action.
pub struct Move {
    pub phase: Phase,
    pub notes: Seq<Told>,
    pub act: Act,
}

/// The end of a detection that had begun: what needle left is removed first,
/// unless it is to stay.
pub open spec fn settle(
    opts: DetectOptions,
    notes: Seq<Told>,
    result: Result<Seq<Detection>, Fault>,
) -> Move {
    if opts.keep_sidecars {
        Move { phase: Phase::Over, notes, act: Act::Finish(result) }
    } else {
        Move {
            phase: Phase::Clean { result },
            notes: notes.push(Told::Stage("清理临时文件"@)),
            act: Act::Clean,
        }
    }
}

/// The first move: two videos are needed, and the user must not have stopped it.
pub open spec fn begin_move(exe: Seq<char>, count: nat, cancelled: bool) -> Move {
    if count < 2 {
        Move {
            phase: Phase::Over,
            notes: Seq::empty(),
            act: Act::Finish(Err(Fault::NotEnoughEpisodes(count))),
        }
    } else if cancelled {
        Move {
            phase: Phase::Over,
            notes: Seq::empty(),
            act: Act::Finish(Err(Fault::Cancelled)),
        }
    } else {
        Move {
            phase: Phase::Help,
            notes: Seq::empty(),
            act: Act::AskHelp {
                analyze: Words { program: exe, args: seq!["analyze"@, "--help"@] },
                search: Words { program: exe, args: seq!["search"@, "--help"@] },
            },
        }
    }
}

/// "Not", or nothing.
pub open spec fn negation(yes: bool) -> Seq<char> {
    if yes {
        Seq::empty()
    } else {
        "不"@
    }
}

/// What is told before the fingerprints are taken.
pub open spec fn analyze_notes(opts: DetectOptions, caps: CliCapabilities, count: nat) -> Seq<Told> {
    seq![
        Told::Log(
            "needle 参数探测：analyze"@ + negation(caps.analyze_include_endings)
                + "支持 --include-endings，search"@ + negation(caps.search_include_endings)
                + "支持"@,
        ),
    ] + (if opts.include_endings && !caps.analyze_include_endings {
        seq![
            Told::Log(
                "这个 needle 构建的分析器会对整段音频做哈希，片尾天然包含在内，无需额外开关"@,
            ),
        ]
    } else {
        Seq::empty()
    }) + seq![
        Told::Stage(
            if opts.include_endings {
                "分析音频指纹（含片尾片段）"@
            } else {
                "分析音频指纹"@
            },
        ),
        Told::Log(
            "共 "@ + decimal(count) + " 个文件，并发 "@ + decimal(pool_size_spec(opts, count))
                + " 路逐集分析"@,
        ),
    ] + (if !opts.keep_sidecars && !opts.force_reanalyze {
        seq![
            Told::Log(
                "本轮跑完会清掉 .needle.dat 以保持源目录干净，代价是下次要重新分析；想复用缓存（第二次跑快很多）就勾上「保留 needle 生成的临时文件」。"@,
            ),
        ]
    } else {
        Seq::empty()
    })
}

/// What is told before the videos are compared.
pub open spec fn search_notes(count: nat, left: nat) -> Seq<Told> {
    (if left < count {
        seq![
            Told::Log(
                decimal((count - left) as nat) + " 个文件分析失败已跳过，用剩下 "@ + decimal(left)
                    + " 个继续比对"@,
            ),
        ]
    } else {
        Seq::empty()
    }) + seq![
        Told::Stage("跨集比对，搜索公共片头 / 片尾"@),
        Told::Log("这一步由 needle 内部整体并行完成，过程中不会输出进度，请稍候"@),
    ]
}

/// The move once the fingerprints are taken. Videos that failed are left out, as
/// long as two remain.
pub open spec fn analyzed_move(
    exe: Seq<char>,
    opts: DetectOptions,
    caps: CliCapabilities,
    files: Seq<Seq<char>>,
    failed: Seq<bool>,
    cancelled: bool,
) -> Move {
    let left = survivors_of(files, failed);
    if cancelled {
        settle(opts, Seq::empty(), Err(Fault::Cancelled))
    } else if left.len() < 2 {
        settle(opts, Seq::empty(), Err(Fault::NotEnoughEpisodes(left.len())))
    } else {
        Move {
            phase: Phase::Search,
            notes: search_notes(files.len(), left.len()),
            act: Act::Search(Words { program: exe, args: search_args(left, opts, caps) }),
        }
    }
}

/// The move once the videos are compared.
pub open spec fn searched_move(
    opts: DetectOptions,
    ran: Result<ExecResult, String>,
    cancelled: bool,
) -> Move {
    match run_outcome(ran, "needle search"@) {
        Err(e) => settle(opts, Seq::empty(), Err(e)),
        Ok(_) => if cancelled {
            settle(opts, Seq::empty(), Err(Fault::Cancelled))
        } else {
            Move {
                phase: Phase::Read,
                notes: seq![Told::Stage("读取检测结果"@)],
                act: Act::Read,
            }
        },
    }
}

/// The last move, once what needle left is removed.
pub open spec fn cleaned_move(
    result: Result<Seq<Detection>, Fault>,
    paths: Seq<Seq<char>>,
    removed: Seq<Result<(), String>>,
) -> Move {
    Move {
        phase: Phase::Over,
        notes: removal_notes(paths, removed) + (if removed_count(removed) == 0 {
            seq![Told::Log("没有需要清理的临时文件"@)]
        } else {
            Seq::empty()
        }),
        act: Act::Finish(result),
    }
}

/// A detection with needle as a program.
#[derive(Debug)]
pub struct DetectJob {
    pub detector: CliDetector,
    pub files: Vec<String>,
    pub opts: DetectOptions,
    /// What this needle can do, once that is known.
    pub caps: CliCapabilities,
    pub phase: DetectPhase,
}

/// What a detection does next.
#[derive(Debug)]
pub struct DetectStep {
    pub job: DetectJob,
    /// What there is to tell before the action.
    pub notes: Vec<DetectEvent>,
    pub action: DetectAction,
}

impl DetectStep {
    pub open spec fn as_move(self) -> Move {
        Move { phase: self.job.phase@, notes: told(self.notes@), act: self.action@ }
    }
}

impl CliDetector {
    /// Begins a detection.
    pub fn detect(&self, files: Vec<String>, opts: DetectOptions, cancelled: bool) -> (r: DetectStep)
        ensures
            r.as_move() == begin_move(self.needle_exe@, files@.len(), cancelled),
            r.job.detector == *self,
            r.job.files == files,
            r.job.opts == opts,
    {
        let count: usize = files.len();
        let job = DetectJob {
            detector: self.clone(),
            files,
            opts,
            caps: CliCapabilities::default(),
            phase: DetectPhase::Over,
        };
        let notes: Vec<DetectEvent> = Vec::new();
        assert(told(notes@) =~= Seq::<Told>::empty());
        if count < 2 {
            let action = DetectAction::Finish(Err(CoreError::NotEnoughEpisodes(count)));
            return DetectStep { job, notes, action };
        }
        match check_cancel(cancelled) {
            Err(e) => {
                return DetectStep { job, notes, action: DetectAction::Finish(Err(e)) };
            },
            Ok(_) => {},
        }
        let analyze = self.help_command("analyze");
        let search = self.help_command("search");
        DetectStep {
            job: DetectJob { phase: DetectPhase::Help, ..job },
            notes,
            action: DetectAction::AskHelp { analyze, search },
        }
    }
}

impl DetectJob {
    /// The job is about the same videos, in the same way.
    pub open spec fn same_work(self, other: DetectJob) -> bool {
        self.detector == other.detector && self.files == other.files && self.opts == other.opts
    }

    fn settle(self, notes: Vec<DetectEvent>, result: Result<Vec<Detection>, CoreError>) -> (r:
        DetectStep)
        ensures
            r.as_move() == settle(self.opts, told(notes@), list_view(result)),
            r.job.same_work(self),
            r.job.caps == self.caps,
    {
        if self.opts.keep_sidecars {
            return DetectStep {
                job: DetectJob { phase: DetectPhase::Over, ..self },
                notes,
                action: DetectAction::Finish(result),
            };
        }
        let mut notes = notes;
        tell_stage(&mut notes, "清理临时文件");
        DetectStep {
            job: DetectJob { phase: DetectPhase::Clean { result }, ..self },
            notes,
            action: DetectAction::Clean,
        }
    }

    /// Goes on once needle wrote its help.
    pub fn helped(self, analyze: &Result<Captured, String>, search: &Result<Captured, String>) -> (r:
        DetectStep)
        requires
            self.phase is Help,
        ensures
            r.job.same_work(self),
            r.job.caps == (CliCapabilities {
                analyze_include_endings: knows_endings(*analyze),
                search_include_endings: knows_endings(*search),
            }),
            r.as_move() == (Move {
                phase: Phase::Analyze,
                notes: analyze_notes(self.opts, r.job.caps, self.files@.len()),
                act: Act::Analyze {
                    commands: Seq::new(
                        self.files@.len(),
                        |i: int|
                            Words {
                                program: self.detector.needle_exe@,
                                args: analyze_args(self.files@[i]@, self.opts, r.job.caps),
                            },
                    ),
                    at_once: pool_size_spec(self.opts, self.files@.len()),
                },
            }),
    {
        let caps = self.detector.capabilities(analyze, search);
        let opts = self.opts;
        let count: usize = self.files.len();
        let at_once = pool_size(&opts, count);
        let notes = tell_analysis(&opts, caps, count, at_once);
        let mut commands: Vec<CommandLine> = Vec::new();
        let mut i: usize = 0;
        while i < count
            invariant
                i <= count,
                count == self.files@.len(),
                opts == self.opts,
                commands@.len() == i,
                forall|k: int|
                    0 <= k < i ==> (#[trigger] commands@[k])@ == (Words {
                        program: self.detector.needle_exe@,
                        args: analyze_args(self.files@[k]@, opts, caps),
                    }),
            decreases count - i,
        {
            commands.push(self.detector.analyze_command(self.files[i].as_str(), &opts, caps));
            i += 1;
        }
        assert(commands_view(commands@) =~= Seq::new(
            self.files@.len(),
            |i: int|
                Words {
                    program: self.detector.needle_exe@,
                    args: analyze_args(self.files@[i]@, self.opts, caps),
                },
        ));
        DetectStep {
            job: DetectJob { caps, phase: DetectPhase::Analyze, ..self },
            notes,
            action: DetectAction::Analyze { commands, at_once },
        }
    }

    /// Goes on once the fingerprints are taken.
    pub fn analyzed(self, tally: &AnalyzeTally, cancelled: bool) -> (r: DetectStep)
        requires
            self.phase is Analyze,
            tally.failed@.len() == self.files@.len(),
        ensures
            r.job.same_work(self),
            r.job.caps == self.caps,
            r.as_move() == analyzed_move(
                self.detector.needle_exe@,
                self.opts,
                self.caps,
                texts(self.files@),
                tally.failed@,
                cancelled,
            ),
    {
        let mut notes: Vec<DetectEvent> = Vec::new();
        assert(told(notes@) =~= Seq::<Told>::empty());
        let left = tally.survivors(&self.files);
        assert(texts(left@).len() == left@.len());
        if let Err(e) = check_cancel(cancelled) {
            return self.settle(notes, Err(e));
        }
        if left.len() < 2 {
            return self.settle(notes, Err(CoreError::NotEnoughEpisodes(left.len())));
        }
        if left.len() < self.files.len() {
            let lost: usize = self.files.len() - left.len();
            let line = decimal_text(lost as u128).concat(" 个文件分析失败已跳过，用剩下 ").concat(
                decimal_text(left.len() as u128).as_str(),
            ).concat(" 个继续比对");
            tell_log(&mut notes, line.as_str());
        }
        tell_stage(&mut notes, "跨集比对，搜索公共片头 / 片尾");
        tell_log(&mut notes, "这一步由 needle 内部整体并行完成，过程中不会输出进度，请稍候");
        assert(told(notes@) =~= search_notes(self.files@.len(), left@.len()));
        let cmd = self.detector.search_command(&left, &self.opts, self.caps);
        DetectStep {
            job: DetectJob { phase: DetectPhase::Search, ..self },
            notes,
            action: DetectAction::Search(cmd),
        }
    }

    /// Goes on once the videos are compared. `ran` is the run of needle, or why it
    /// could not be started.
    pub fn searched(self, ran: Result<ExecResult, String>, cancelled: bool) -> (r: DetectStep)
        requires
            self.phase is Search,
        ensures
            r.job.same_work(self),
            r.as_move() == searched_move(self.opts, ran, cancelled),
    {
        let mut notes: Vec<DetectEvent> = Vec::new();
        assert(told(notes@) =~= Seq::<Told>::empty());
        if let Err(e) = check_run(ran, "needle search") {
            return self.settle(notes, Err(e));
        }
        if let Err(e) = check_cancel(cancelled) {
            return self.settle(notes, Err(e));
        }
        tell_stage(&mut notes, "读取检测结果");
        assert(told(notes@) =~= seq![Told::Stage("读取检测结果"@)]);
        DetectStep {
            job: DetectJob { phase: DetectPhase::Read, ..self },
            notes,
            action: DetectAction::Read,
        }
    }

    /// Goes on once the results are read.
    pub fn read(self, readings: &[Reading]) -> (r: DetectStep)
        requires
            self.phase is Read,
            readings@.len() == self.files@.len(),
        ensures
            r.job.same_work(self),
            r.as_move() == settle(
                self.opts,
                finding_notes(texts(self.files@), readings@),
                collected(readings@),
            ),
    {
        let mut notes: Vec<DetectEvent> = Vec::new();
        let result = collect_detections(&self.files, readings, &mut notes);
        assert(told(notes@) =~= finding_notes(texts(self.files@), readings@));
        self.settle(notes, result)
    }

    /// Ends once what needle left is removed. `removed` tells of each of the paths
    /// whether it could be.
    pub fn cleaned(self, paths: &[String], removed: &[Result<(), String>]) -> (r: DetectStep)
        requires
            self.phase is Clean,
            paths@.len() == removed@.len(),
        ensures
            r.job.same_work(self),
            r.as_move() == cleaned_move(
                list_view(self.phase->result),
                texts(paths@),
                removed@,
            ),
    {
        let mut notes: Vec<DetectEvent> = Vec::new();
        let count = cleanup_new(paths, removed, &mut notes);
        if count == 0 {
            tell_log(&mut notes, "没有需要清理的临时文件");
        }
        assert(told(notes@) =~= cleaned_move(
            list_view(self.phase->result),
            texts(paths@),
            removed@,
        ).notes);
        let DetectJob { detector, files, opts, caps, phase } = self;
        let result = match phase {
            DetectPhase::Clean { result } => result,
            _ => Err(CoreError::Cancelled),
        };
        DetectStep {
            job: DetectJob { detector, files, opts, caps, phase: DetectPhase::Over },
            notes,
            action: DetectAction::Finish(result),
        }
    }
}

fn tell_analysis(opts: &DetectOptions, caps: CliCapabilities, count: usize, at_once: usize) -> (r:
    Vec<DetectEvent>)
    requires
        at_once == pool_size_spec(*opts, count as nat),
    ensures
        told(r@) == analyze_notes(*opts, caps, count as nat),
{
    let mut notes: Vec<DetectEvent> = Vec::new();
    assert(told(notes@) =~= Seq::<Told>::empty());
    let line = "needle 参数探测：analyze".to_string().concat(negate(caps.analyze_include_endings)).concat(
    "支持 --include-endings，search").concat(negate(caps.search_include_endings)).concat("支持");
    tell_log(&mut notes, line.as_str());
    if opts.include_endings && !caps.analyze_include_endings {
        tell_log(
            &mut notes,
            "这个 needle 构建的分析器会对整段音频做哈希，片尾天然包含在内，无需额外开关",
        );
    }
    tell_stage(
        &mut notes,
        if opts.include_endings {
            "分析音频指纹（含片尾片段）"
        } else {
            "分析音频指纹"
        },
    );
    let line = "共 ".to_string().concat(decimal_text(count as u128).as_str()).concat(
        " 个文件，并发 ",
    ).concat(decimal_text(at_once as u128).as_str()).concat(" 路逐集分析");
    tell_log(&mut notes, line.as_str());
    if !opts.keep_sidecars && !opts.force_reanalyze {
        tell_log(
            &mut notes,
            "本轮跑完会清掉 .needle.dat 以保持源目录干净，代价是下次要重新分析；想复用缓存（第二次跑快很多）就勾上「保留 needle 生成的临时文件」。",
        );
    }
    assert(told(notes@) =~= analyze_notes(*opts, caps, count as nat));
    notes
}

fn negate(yes: bool) -> (r: &'static str)
    ensures
        r@ == negation(yes),
{
    proof {
        reveal_strlit("");
    }
    if yes {
        assert(""@ =~= Seq::<char>::empty());
        ""
    } else {
        "不"
    }
}

} // verus!
