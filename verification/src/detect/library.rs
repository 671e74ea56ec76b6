//! needle as a library.
//!
//! It needs no files with fingerprints, but while it works it tells nothing and
//! cannot be stopped: the user's wish to stop is looked at between its two steps.
//! Its results too come in files beside the videos.
//!
//! A [`LibraryJob`] decides what is done next; the caller does it and comes back
//! with what came of it: look at the files beside the videos, take the
//! fingerprints, compare them, read the results, remove what needle left. Once it
//! has begun, a detection that went wrong cleans up like one that went well.

use vstd::prelude::*;

use crate::binary::{fits_single, lemma_limits, single_fits, single_nanos, to_single_nanos};
use crate::detect::{
    check_cancel, cleanup_new, collect_detections, collected, finding_notes, list_view,
    removal_notes, removed_count, tell_log, tell_stage, told, DetectEvent, DetectOptions, Reading,
    Told,
};
use crate::error::{outcome, CoreError, Fault};
use crate::model::Detection;
use crate::needle::{Analyzer, Comparator, Error, FrameHashes, SearchResult, DEFAULT_HASH_NANOS};
use crate::secs::Secs;
use crate::text::texts;

verus! {

/// needle as a library.
#[derive(Debug, Clone, Copy, PartialEq, Eq, Structural)]
pub struct LibraryDetector;

/// All that is handed to needle to take the fingerprints.
#[derive(Debug)]
pub struct AnalyzeCall {
    pub analyzer: Analyzer<String>,
    pub hash_duration: Secs,
    /// Whether the fingerprints are written beside the videos.
    pub persist: bool,
    pub threading: bool,
}

/// All that is handed to needle to take the fingerprints, by its views.
pub struct Analysis {
    pub videos: Seq<Seq<char>>,
    pub include_endings: bool,
    pub threaded_decoding: bool,
    pub force: bool,
    pub hash_duration: Secs,
    pub persist: bool,
    pub threading: bool,
}

impl View for AnalyzeCall {
    type V = Analysis;

    open spec fn view(&self) -> Analysis {
        Analysis {
            videos: texts(self.analyzer.videos@),
            include_endings: self.analyzer.include_endings,
            threaded_decoding: self.analyzer.threaded_decoding,
            force: self.analyzer.force,
            hash_duration: self.hash_duration,
            persist: self.persist,
            threading: self.threading,
        }
    }
}

/// What is handed to needle to take the fingerprints. They are not written to
/// files: to do without them is what needle is used as a library for.
pub open spec fn analysis_of(videos: Seq<Seq<char>>, opts: DetectOptions) -> Analysis {
    Analysis {
        videos,
        include_endings: opts.include_endings,
        threaded_decoding: opts.threading,
        force: opts.force_reanalyze,
        hash_duration: Secs::Finite(DEFAULT_HASH_NANOS),
        persist: false,
        threading: opts.threading,
    }
}

/// All that is handed to needle to compare the videos.
#[derive(Debug)]
pub struct CompareCall {
    pub comparator: Comparator<String>,
    pub frame_hashes: Vec<FrameHashes>,
    /// Whether needle prints what it finds.
    pub display: bool,
    /// Whether videos with results beside them are passed over.
    pub use_skip_files: bool,
    /// Whether the results are written beside the videos.
    pub write_skip_files: bool,
    pub threading: bool,
}

/// All that is handed to needle to compare the videos, by its views.
pub struct Comparison {
    pub videos: Seq<Seq<char>>,
    pub include_endings: bool,
    pub hash_match_threshold: u32,
    pub min_opening_duration: Secs,
    pub min_ending_duration: Secs,
    pub time_padding: Secs,
    pub frame_hashes: Seq<FrameHashes>,
    pub display: bool,
    pub use_skip_files: bool,
    pub write_skip_files: bool,
    pub threading: bool,
}

impl View for CompareCall {
    type V = Comparison;

    open spec fn view(&self) -> Comparison {
        Comparison {
            videos: texts(self.comparator.videos@),
            include_endings: self.comparator.include_endings,
            hash_match_threshold: self.comparator.hash_match_threshold,
            min_opening_duration: self.comparator.min_opening_duration,
            min_ending_duration: self.comparator.min_ending_duration,
            time_padding: self.comparator.time_padding,
            frame_hashes: self.frame_hashes@,
            display: self.display,
            use_skip_files: self.use_skip_files,
            write_skip_files: self.write_skip_files,
            threading: self.threading,
        }
    }
}

/// What is handed to needle to compare the videos. The results are written to
/// files, since they come out of needle in no other way, and old ones are not used.
/// The padding is a number of seconds of 32 bits there.
pub open spec fn comparison_of(
    videos: Seq<Seq<char>>,
    frame_hashes: Seq<FrameHashes>,
    opts: DetectOptions,
) -> Comparison {
    Comparison {
        videos,
        include_endings: opts.include_endings,
        hash_match_threshold: opts.hash_match_threshold,
        min_opening_duration: Secs::Finite(
            (opts.min_opening_duration_secs * 1_000_000_000) as i128,
        ),
        min_ending_duration: Secs::Finite(
            (opts.min_ending_duration_secs * 1_000_000_000) as i128,
        ),
        time_padding: Secs::Finite(single_nanos(opts.time_padding_secs.nanos() as nat) as i128),
        frame_hashes,
        display: false,
        use_skip_files: false,
        write_skip_files: true,
        threading: opts.threading,
    }
}

/// Whether the padding is a length of time that needle can be given.
pub open spec fn padding_fits(opts: DetectOptions) -> bool {
    &&& opts.time_padding_secs.finite()
    &&& opts.time_padding_secs.nanos() >= 0
    &&& single_fits(opts.time_padding_secs.nanos() as nat)
}

/// What comes of taking the fingerprints, by what needle gave.
pub open spec fn analyzed_of(given: Result<Vec<FrameHashes>, Error>) -> Result<
    Vec<FrameHashes>,
    Fault,
> {
    match given {
        Ok(hashes) => Ok(hashes),
        Err(e) => Err(Fault::ParseFailed { what: "needle 音频分析"@, detail: e.text() }),
    }
}

/// What comes of comparing the videos, by what needle gave.
pub open spec fn compared_of(given: Result<Vec<SearchResult>, Error>) -> Result<(), Fault> {
    match given {
        Ok(_) => Ok(()),
        Err(e) => Err(Fault::ParseFailed { what: "needle 跨集比对"@, detail: e.text() }),
    }
}

impl AnalyzeCall {
    /// Whether needle, called with all this, can have given that.
    pub open spec fn gives(self, given: Result<Vec<FrameHashes>, Error>) -> bool {
        call_ensures(
            Analyzer::<String>::run,
            (&self.analyzer, self.hash_duration, self.persist, self.threading),
            given,
        )
    }

    /// Calls needle.
    pub fn run(&self) -> (r: Result<Vec<FrameHashes>, Error>)
        ensures
            self.gives(r),
    {
        self.analyzer.run(self.hash_duration, self.persist, self.threading)
    }
}

impl CompareCall {
    /// Whether needle, called with all this, can have given that.
    pub open spec fn gives(self, given: Result<Vec<SearchResult>, Error>) -> bool {
        call_ensures(
            Comparator::<String>::run_with_frame_hashes,
            (
                &self.comparator,
                self.frame_hashes,
                self.display,
                self.use_skip_files,
                self.write_skip_files,
                self.threading,
            ),
            given,
        )
    }

    /// Calls needle.
    pub fn run(self) -> (r: Result<Vec<SearchResult>, Error>)
        ensures
            self.gives(r),
    {
        self.comparator.run_with_frame_hashes(
            self.frame_hashes,
            self.display,
            self.use_skip_files,
            self.write_skip_files,
            self.threading,
        )
    }
}

impl AnalyzeCall {
    /// Calls needle, and then looks whether the user wished to stop meanwhile.
    pub fn perform<F: Fn() -> bool>(&self, cancelled: F) -> (r: LibraryEvent)
        requires
            call_requires(cancelled, ()),
        ensures
            r matches LibraryEvent::Analyzed { given, cancelled: c } && self.gives(given)
                && call_ensures(cancelled, (), c),
    {
        let given = self.run();
        LibraryEvent::Analyzed { given, cancelled: cancelled() }
    }
}

impl CompareCall {
    /// Calls needle, and then looks whether the user wished to stop meanwhile.
    pub fn perform<F: Fn() -> bool>(self, cancelled: F) -> (r: LibraryEvent)
        requires
            call_requires(cancelled, ()),
        ensures
            r matches LibraryEvent::Compared { given, cancelled: c } && self.gives(given)
                && call_ensures(cancelled, (), c),
    {
        let given = self.run();
        LibraryEvent::Compared { given, cancelled: cancelled() }
    }
}

/// What is to be done next.
#[derive(Debug)]
pub enum LibraryAction {
    /// Look which files needle may leave are there already.
    Look,
    /// Have needle take the fingerprints.
    Analyze(AnalyzeCall),
    /// Have needle compare the videos.
    Compare(CompareCall),
    /// Read the results of each video.
    Read,
    /// Remove what needle left.
    Clean,
    /// Nothing: this is what came of it all.
    Finish(Result<Vec<Detection>, CoreError>),
}

/// What is to be done next, by its views.
pub enum LibraryAct {
    Look,
    Analyze(Analysis),
    Compare(Comparison),
    Read,
    Clean,
    Finish(Result<Seq<Detection>, Fault>),
}

impl View for LibraryAction {
    type V = LibraryAct;

    open spec fn view(&self) -> LibraryAct {
        match *self {
            LibraryAction::Look => LibraryAct::Look,
            LibraryAction::Analyze(c) => LibraryAct::Analyze(c@),
            LibraryAction::Compare(c) => LibraryAct::Compare(c@),
            LibraryAction::Read => LibraryAct::Read,
            LibraryAction::Clean => LibraryAct::Clean,
            LibraryAction::Finish(r) => LibraryAct::Finish(list_view(r)),
        }
    }
}

/// What came of an action. Where the user may have wished to stop meanwhile, that
/// is told too.
#[derive(Debug)]
pub enum LibraryEvent {
    Looked { cancelled: bool },
    Analyzed { given: Result<Vec<FrameHashes>, Error>, cancelled: bool },
    Compared { given: Result<Vec<SearchResult>, Error>, cancelled: bool },
    /// What was read for each video.
    Read { readings: Vec<Reading> },
    /// The files that were left, and of each whether it could be removed.
    Cleaned { paths: Vec<String>, removed: Vec<Result<(), String>> },
}

/// Where a detection stands: what it waits for.
#[derive(Debug)]
pub enum LibraryPhase {
    Look,
    Analyze,
    Compare,
    Read,
    Clean { result: Result<Vec<Detection>, CoreError> },
    Over,
}

/// Where a detection stands, by its views.
pub enum LibraryStage {
    Look,
    Analyze,
    Compare,
    Read,
    Clean { result: Result<Seq<Detection>, Fault> },
    Over,
}

impl View for LibraryPhase {
    type V = LibraryStage;

    open spec fn view(&self) -> LibraryStage {
        match *self {
            LibraryPhase::Look => LibraryStage::Look,
            LibraryPhase::Analyze => LibraryStage::Analyze,
            LibraryPhase::Compare => LibraryStage::Compare,
            LibraryPhase::Read => LibraryStage::Read,
            LibraryPhase::Clean { result } => LibraryStage::Clean { result: list_view(result) },
            LibraryPhase::Over => LibraryStage::Over,
        }
    }
}

/// What follows: where the detection then stands, what there is to tell before
/// the next action, and that action.
pub struct LibraryMove {
    pub stage: LibraryStage,
    pub notes: Seq<Told>,
    pub act: LibraryAct,
}

/// The first move: two videos are needed, and the user must not have stopped it.
pub open spec fn library_begin(count: nat, cancelled: bool) -> LibraryMove {
    if count < 2 {
        LibraryMove {
            stage: LibraryStage::Over,
            notes: Seq::empty(),
            act: LibraryAct::Finish(Err(Fault::NotEnoughEpisodes(count))),
        }
    } else if cancelled {
        LibraryMove {
            stage: LibraryStage::Over,
            notes: Seq::empty(),
            act: LibraryAct::Finish(Err(Fault::Cancelled)),
        }
    } else {
        LibraryMove { stage: LibraryStage::Look, notes: Seq::empty(), act: LibraryAct::Look }
    }
}

/// The end of a detection that had begun: what needle left is removed first,
/// unless it is to stay.
pub open spec fn library_settle(
    opts: DetectOptions,
    notes: Seq<Told>,
    result: Result<Seq<Detection>, Fault>,
) -> LibraryMove {
    if opts.keep_sidecars {
        LibraryMove { stage: LibraryStage::Over, notes, act: LibraryAct::Finish(result) }
    } else {
        LibraryMove {
            stage: LibraryStage::Clean { result },
            notes: notes.push(Told::Stage("清理临时文件"@)),
            act: LibraryAct::Clean,
        }
    }
}

/// What is told before the fingerprints are taken.
pub open spec fn library_notes(opts: DetectOptions) -> Seq<Told> {
    seq![
        Told::Stage(
            if opts.include_endings {
                "分析音频指纹（含片尾片段）"@
            } else {
                "分析音频指纹"@
            },
        ),
        Told::Log("库后端直接对全部剧集并行解码，过程中无法回报逐集进度"@),
    ]
}

/// Whether the event is one that a detection at this stage waits for.
pub open spec fn library_awaits(
    count: nat,
    opts: DetectOptions,
    stage: LibraryStage,
    event: LibraryEvent,
) -> bool {
    match event {
        LibraryEvent::Looked { cancelled } => stage is Look,
        LibraryEvent::Analyzed { given, cancelled } => stage is Analyze && (given is Ok
            && !cancelled ==> padding_fits(opts)),
        LibraryEvent::Compared { given, cancelled } => stage is Compare,
        LibraryEvent::Read { readings } => stage is Read && readings@.len() == count,
        LibraryEvent::Cleaned { paths, removed } => stage is Clean && paths@.len()
            == removed@.len(),
    }
}

/// The move that follows an event. What went wrong, or was stopped, is settled;
/// what each step tells comes before its action.
pub open spec fn library_move(
    files: Seq<Seq<char>>,
    opts: DetectOptions,
    stage: LibraryStage,
    event: LibraryEvent,
) -> LibraryMove {
    match event {
        LibraryEvent::Looked { cancelled } => if cancelled {
            library_settle(opts, Seq::empty(), Err(Fault::Cancelled))
        } else {
            LibraryMove {
                stage: LibraryStage::Analyze,
                notes: library_notes(opts),
                act: LibraryAct::Analyze(analysis_of(files, opts)),
            }
        },
        LibraryEvent::Analyzed { given, cancelled } => match analyzed_of(given) {
            Err(e) => library_settle(opts, Seq::empty(), Err(e)),
            Ok(hashes) => if cancelled {
                library_settle(opts, Seq::empty(), Err(Fault::Cancelled))
            } else {
                LibraryMove {
                    stage: LibraryStage::Compare,
                    notes: seq![Told::Stage("跨集比对，搜索公共片头 / 片尾"@)],
                    act: LibraryAct::Compare(comparison_of(files, hashes@, opts)),
                }
            },
        },
        LibraryEvent::Compared { given, cancelled } => match compared_of(given) {
            Err(e) => library_settle(opts, Seq::empty(), Err(e)),
            Ok(_) => if cancelled {
                library_settle(opts, Seq::empty(), Err(Fault::Cancelled))
            } else {
                LibraryMove {
                    stage: LibraryStage::Read,
                    notes: seq![Told::Stage("读取检测结果"@)],
                    act: LibraryAct::Read,
                }
            },
        },
        LibraryEvent::Read { readings } => library_settle(
            opts,
            finding_notes(files, readings@),
            collected(readings@),
        ),
        LibraryEvent::Cleaned { paths, removed } => LibraryMove {
            stage: LibraryStage::Over,
            notes: removal_notes(texts(paths@), removed@) + (if removed_count(removed@) == 0 {
                seq![Told::Log("没有需要清理的临时文件"@)]
            } else {
                Seq::empty()
            }),
            act: LibraryAct::Finish(stage->result),
        },
    }
}

/// A detection with needle as a library.
#[derive(Debug)]
pub struct LibraryJob {
    pub detector: LibraryDetector,
    pub files: Vec<String>,
    pub opts: DetectOptions,
    pub phase: LibraryPhase,
}

/// What a detection does next.
#[derive(Debug)]
pub struct LibraryStep {
    pub job: LibraryJob,
    /// What there is to tell before the action.
    pub notes: Vec<DetectEvent>,
    pub action: LibraryAction,
}

impl LibraryStep {
    pub open spec fn as_move(self) -> LibraryMove {
        LibraryMove { stage: self.job.phase@, notes: told(self.notes@), act: self.action@ }
    }
}

fn copy_list(list: &Vec<String>) -> (r: Vec<String>)
    ensures
        texts(r@) == texts(list@),
{
    let mut out: Vec<String> = Vec::new();
    let mut i: usize = 0;
    while i < list.len()
        invariant
            i <= list@.len(),
            out@.len() == i,
            forall|k: int| 0 <= k < i ==> (#[trigger] out@[k])@ == list@[k]@,
        decreases list@.len() - i,
    {
        out.push(list[i].clone());
        i += 1;
    }
    assert(texts(out@) =~= texts(list@));
    out
}

/// Whether the padding is a length of time that needle can be given.
pub fn can_pad(opts: &DetectOptions) -> (r: bool)
    ensures
        r == padding_fits(*opts),
{
    match opts.time_padding_secs {
        Secs::Finite(n) => n >= 0 && fits_single(n as u128),
        _ => false,
    }
}

impl LibraryDetector {
    pub fn new() -> (r: LibraryDetector)
        ensures
            r == LibraryDetector,
    {
        LibraryDetector
    }

    /// Begins a detection.
    pub fn detect(&self, files: Vec<String>, opts: DetectOptions, cancelled: bool) -> (r:
        LibraryStep)
        ensures
            r.as_move() == library_begin(files@.len(), cancelled),
            r.job.files == files,
            r.job.opts == opts,
    {
        let count: usize = files.len();
        let job = LibraryJob { detector: *self, files, opts, phase: LibraryPhase::Over };
        let notes: Vec<DetectEvent> = Vec::new();
        assert(told(notes@) =~= Seq::<Told>::empty());
        if count < 2 {
            let action = LibraryAction::Finish(Err(CoreError::NotEnoughEpisodes(count)));
            return LibraryStep { job, notes, action };
        }
        match check_cancel(cancelled) {
            Err(e) => LibraryStep { job, notes, action: LibraryAction::Finish(Err(e)) },
            Ok(_) => LibraryStep {
                job: LibraryJob { phase: LibraryPhase::Look, ..job },
                notes,
                action: LibraryAction::Look,
            },
        }
    }

    /// What is handed to needle to take the fingerprints.
    pub fn analyze_call(&self, files: Vec<String>, opts: &DetectOptions) -> (r: AnalyzeCall)
        ensures
            r@ == analysis_of(texts(files@), *opts),
    {
        let analyzer = Analyzer::from_files(
            files,
            true,
            opts.force_reanalyze,
        ).with_include_endings(opts.include_endings).with_threaded_decoding(opts.threading);
        AnalyzeCall {
            analyzer,
            hash_duration: Secs::Finite(DEFAULT_HASH_NANOS),
            persist: false,
            threading: opts.threading,
        }
    }

    /// What comes of taking the fingerprints, by what needle gave.
    pub fn analyzed(&self, given: Result<Vec<FrameHashes>, Error>) -> (r: Result<
        Vec<FrameHashes>,
        CoreError,
    >)
        ensures
            outcome(r) == analyzed_of(given),
    {
        match given {
            Ok(hashes) => Ok(hashes),
            Err(e) => Err(
                CoreError::ParseFailed {
                    what: "needle 音频分析",
                    detail: e.message().to_string(),
                },
            ),
        }
    }

    /// What is handed to needle to compare the videos.
    pub fn compare_call(
        &self,
        files: Vec<String>,
        frame_hashes: Vec<FrameHashes>,
        opts: &DetectOptions,
    ) -> (r: CompareCall)
        requires
            padding_fits(*opts),
        ensures
            r@ == comparison_of(texts(files@), frame_hashes@, *opts),
    {
        proof {
            lemma_limits();
        }
        let padding: u128 = match opts.time_padding_secs {
            Secs::Finite(n) => n as u128,
            _ => 0,
        };
        let comparator = Comparator::from(
            self.analyze_call(files, opts).analyzer,
        ).with_include_endings(opts.include_endings).with_hash_match_threshold(
            opts.hash_match_threshold,
        ).with_min_opening_duration(
            Secs::from_secs(opts.min_opening_duration_secs as u64),
        ).with_min_ending_duration(
            Secs::from_secs(opts.min_ending_duration_secs as u64),
        ).with_time_padding(Secs::Finite(to_single_nanos(padding) as i128));
        CompareCall {
            comparator,
            frame_hashes,
            display: false,
            use_skip_files: false,
            write_skip_files: true,
            threading: opts.threading,
        }
    }

    /// What comes of comparing the videos, by what needle gave. What it found is
    /// in the files that it wrote.
    pub fn compared(&self, given: Result<Vec<SearchResult>, Error>) -> (r: Result<(), CoreError>)
        ensures
            outcome(r) == compared_of(given),
    {
        match given {
            Ok(_) => Ok(()),
            Err(e) => Err(
                CoreError::ParseFailed {
                    what: "needle 跨集比对",
                    detail: e.message().to_string(),
                },
            ),
        }
    }
}

impl LibraryJob {
    /// The job is about the same videos, in the same way.
    pub open spec fn same_work(self, other: LibraryJob) -> bool {
        self.files == other.files && self.opts == other.opts
    }

    fn settle(self, notes: Vec<DetectEvent>, result: Result<Vec<Detection>, CoreError>) -> (r:
        LibraryStep)
        ensures
            r.as_move() == library_settle(self.opts, told(notes@), list_view(result)),
            r.job.same_work(self),
    {
        if self.opts.keep_sidecars {
            return LibraryStep {
                job: LibraryJob { phase: LibraryPhase::Over, ..self },
                notes,
                action: LibraryAction::Finish(result),
            };
        }
        let mut notes = notes;
        tell_stage(&mut notes, "清理临时文件");
        LibraryStep {
            job: LibraryJob { phase: LibraryPhase::Clean { result }, ..self },
            notes,
            action: LibraryAction::Clean,
        }
    }

    /// Goes on with what came of the last action.
    pub fn step(self, event: LibraryEvent) -> (r: LibraryStep)
        requires
            library_awaits(self.files@.len(), self.opts, self.phase@, event),
        ensures
            r.job.same_work(self),
            r.as_move() == library_move(texts(self.files@), self.opts, self.phase@, event),
    {
        match event {
            LibraryEvent::Looked { cancelled } => self.looked(cancelled),
            LibraryEvent::Analyzed { given, cancelled } => self.analyzed(given, cancelled),
            LibraryEvent::Compared { given, cancelled } => self.compared(given, cancelled),
            LibraryEvent::Read { readings } => {
                let mut notes: Vec<DetectEvent> = Vec::new();
                let result = collect_detections(&self.files, readings.as_slice(), &mut notes);
                assert(told(notes@) =~= finding_notes(texts(self.files@), readings@));
                self.settle(notes, result)
            },
            LibraryEvent::Cleaned { paths, removed } => self.cleaned(paths, removed),
        }
    }

    fn looked(self, cancelled: bool) -> (r: LibraryStep)
        ensures
            r.job.same_work(self),
            r.as_move() == library_move(
                texts(self.files@),
                self.opts,
                self.phase@,
                LibraryEvent::Looked { cancelled },
            ),
    {
        let mut notes: Vec<DetectEvent> = Vec::new();
        assert(told(notes@) =~= Seq::<Told>::empty());
        if let Err(e) = check_cancel(cancelled) {
            return self.settle(notes, Err(e));
        }
        tell_stage(
            &mut notes,
            if self.opts.include_endings {
                "分析音频指纹（含片尾片段）"
            } else {
                "分析音频指纹"
            },
        );
        tell_log(&mut notes, "库后端直接对全部剧集并行解码，过程中无法回报逐集进度");
        assert(told(notes@) =~= library_notes(self.opts));
        let call = self.detector.analyze_call(copy_list(&self.files), &self.opts);
        LibraryStep {
            job: LibraryJob { phase: LibraryPhase::Analyze, ..self },
            notes,
            action: LibraryAction::Analyze(call),
        }
    }

    fn analyzed(self, given: Result<Vec<FrameHashes>, Error>, cancelled: bool) -> (r: LibraryStep)
        requires
            given is Ok && !cancelled ==> padding_fits(self.opts),
        ensures
            r.job.same_work(self),
            r.as_move() == library_move(
                texts(self.files@),
                self.opts,
                self.phase@,
                LibraryEvent::Analyzed { given, cancelled },
            ),
    {
        let mut notes: Vec<DetectEvent> = Vec::new();
        assert(told(notes@) =~= Seq::<Told>::empty());
        let hashes = match self.detector.analyzed(given) {
            Ok(h) => h,
            Err(e) => {
                return self.settle(notes, Err(e));
            },
        };
        if let Err(e) = check_cancel(cancelled) {
            return self.settle(notes, Err(e));
        }
        tell_stage(&mut notes, "跨集比对，搜索公共片头 / 片尾");
        assert(told(notes@) =~= seq![Told::Stage("跨集比对，搜索公共片头 / 片尾"@)]);
        let call = self.detector.compare_call(copy_list(&self.files), hashes, &self.opts);
        LibraryStep {
            job: LibraryJob { phase: LibraryPhase::Compare, ..self },
            notes,
            action: LibraryAction::Compare(call),
        }
    }

    fn compared(self, given: Result<Vec<SearchResult>, Error>, cancelled: bool) -> (r: LibraryStep)
        ensures
            r.job.same_work(self),
            r.as_move() == library_move(
                texts(self.files@),
                self.opts,
                self.phase@,
                LibraryEvent::Compared { given, cancelled },
            ),
    {
        let mut notes: Vec<DetectEvent> = Vec::new();
        assert(told(notes@) =~= Seq::<Told>::empty());
        if let Err(e) = self.detector.compared(given) {
            return self.settle(notes, Err(e));
        }
        if let Err(e) = check_cancel(cancelled) {
            return self.settle(notes, Err(e));
        }
        tell_stage(&mut notes, "读取检测结果");
        assert(told(notes@) =~= seq![Told::Stage("读取检测结果"@)]);
        LibraryStep {
            job: LibraryJob { phase: LibraryPhase::Read, ..self },
            notes,
            action: LibraryAction::Read,
        }
    }

    fn cleaned(self, paths: Vec<String>, removed: Vec<Result<(), String>>) -> (r: LibraryStep)
        requires
            self.phase is Clean,
            paths@.len() == removed@.len(),
        ensures
            r.job.same_work(self),
            r.as_move() == library_move(
                texts(self.files@),
                self.opts,
                self.phase@,
                LibraryEvent::Cleaned { paths, removed },
            ),
    {
        let mut notes: Vec<DetectEvent> = Vec::new();
        let count = cleanup_new(paths.as_slice(), removed.as_slice(), &mut notes);
        if count == 0 {
            tell_log(&mut notes, "没有需要清理的临时文件");
        }
        assert(told(notes@) =~= removal_notes(texts(paths@), removed@) + (if removed_count(removed@)
            == 0 {
            seq![Told::Log("没有需要清理的临时文件"@)]
        } else {
            Seq::empty()
        }));
        let LibraryJob { detector, files, opts, phase } = self;
        let result = match phase {
            LibraryPhase::Clean { result } => result,
            _ => Err(CoreError::Cancelled),
        };
        LibraryStep {
            job: LibraryJob { detector, files, opts, phase: LibraryPhase::Over },
            notes,
            action: LibraryAction::Finish(result),
        }
    }
}

} // verus!
