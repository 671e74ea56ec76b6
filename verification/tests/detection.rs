use std::time::Duration;

use intro_outro::detect::cli::{
    analyze_line, clamp_duration, clamp_padding, clamp_threshold, mentions_flag, pool_size,
    run_analyze_one, search_line, AnalyzeTally, CliCapabilities, CliDetector, WorkQueue,
};
use intro_outro::detect::job::{DetectAction, DetectStep};
use intro_outro::detect::library::{
    can_pad, LibraryAction, LibraryDetector, LibraryEvent, LibraryStep,
};
use intro_outro::detect::{
    check_cancel, cleanup_new, collect_detections, default_parallelism, new_cancel_flag,
    DetectEvent, DetectOptions, SidecarSnapshot,
};
use intro_outro::error::CoreError;
use intro_outro::exec::{Captured, ExecResult};
use intro_outro::model::{Detection, Segment};
use intro_outro::needle::{Analyzer, Comparator, Error};
use intro_outro::secs::Secs;
use intro_outro::worker::{choose_detector, pick_detector, DetectorChoice};

fn secs(x: f64) -> Secs {
    if x.is_nan() {
        Secs::Nan
    } else {
        Secs::Finite((x * 1e9).round() as i128)
    }
}

fn seg(start: f64, end: f64) -> Segment {
    Segment::new(secs(start), secs(end))
}

fn opts() -> DetectOptions {
    DetectOptions::new(Some(8))
}

fn log(s: &str) -> DetectEvent {
    DetectEvent::Log(s.to_string())
}

fn stage(s: &str) -> DetectEvent {
    DetectEvent::Stage(s.to_string())
}

fn help(text: &str) -> Result<Captured, String> {
    Ok(Captured { status: Some(0), stdout: text.to_string(), stderr: String::new() })
}

fn ran(code: i32) -> Result<ExecResult, String> {
    Ok(ExecResult { status: Some(code), cancelled: false, tail: vec![], stderr_tail: vec![] })
}

fn season() -> Vec<String> {
    ["/tv/e01.mkv", "/tv/e02.mkv", "/tv/e03.mkv"].map(String::from).to_vec()
}

#[test]
fn clamps_out_of_range_parameters_before_handing_them_to_needle() {
    assert_eq!(clamp_threshold(999), 32);
    assert_eq!(clamp_threshold(10), 10);
    assert_eq!(clamp_duration(0), 1);
    assert_eq!(clamp_duration(20), 20);
    assert_eq!(clamp_duration(99_999), 3600);
    assert_eq!(clamp_padding(secs(-5.0)), secs(0.0));
    assert_eq!(clamp_padding(secs(1e9)), secs(60.0));
    assert_eq!(clamp_padding(secs(f64::NAN)), secs(0.0));
}

#[test]
fn detects_version_drift_between_released_binary_and_main() {
    let v015_analyze = "USAGE:\n    needle.exe analyze [OPTIONS] <PATHS>...\n\n\
             OPTIONS:\n        --file-headers-only\n        --force\n        --hash-duration <HASH_DURATION>\n        --hash-period <HASH_PERIOD>\n        -m, --mode <MODE>\n        --no-threading\n        --threaded-decoding\n";
    let main_analyze = "USAGE:\n    needle analyze [OPTIONS] <PATHS>...\n\n\
             OPTIONS:\n        --include-endings\n        --ending-search-percentage <ENDING_SEARCH_PERCENTAGE>\n        --hash-duration <HASH_DURATION>\n        --threaded-decoding\n";

    assert!(!mentions_flag(v015_analyze, "--include-endings"));
    assert!(mentions_flag(main_analyze, "--include-endings"));
}

#[test]
fn does_not_report_support_for_missing_flags() {
    assert!(!mentions_flag("", "--include-endings"));
    assert!(!mentions_flag(
        "--openings-only  If set, needle will only search for openings.",
        "--include-endings"
    ));
}

#[test]
fn half_of_the_processors_are_used() {
    assert_eq!(default_parallelism(None), 2);
    assert_eq!(default_parallelism(Some(1)), 1);
    assert_eq!(default_parallelism(Some(6)), 3);
    assert_eq!(default_parallelism(Some(64)), 4);
    let o = opts();
    assert!(o.include_endings && o.threading && !o.force_reanalyze && !o.keep_sidecars);
    assert_eq!(
        (o.hash_match_threshold, o.min_opening_duration_secs, o.min_ending_duration_secs),
        (10, 20, 20)
    );
    assert_eq!(o.time_padding_secs, secs(0.0));
    assert_eq!(o.analyze_parallelism, 4);
    assert_eq!(pool_size(&o, 3), 3);
    assert_eq!(pool_size(&DetectOptions { analyze_parallelism: 0, ..o }, 3), 1);
}

#[test]
fn a_new_flag_is_not_raised() {
    assert!(!new_cancel_flag().load(std::sync::atomic::Ordering::Relaxed));
    assert_eq!(check_cancel(false), Ok(()));
    assert_eq!(check_cancel(true), Err(CoreError::Cancelled));
}

#[test]
fn needle_is_found_and_asked() {
    let dirs = vec!["/bin".to_string()];
    let d = CliDetector::discover("", None, &dirs, |_: &str| true).unwrap();
    assert_eq!(d, CliDetector::new("/bin/needle"));
    assert_eq!(
        CliDetector::discover("", None, &dirs, |_: &str| false),
        Err(CoreError::ToolNotFound { tool: "needle" })
    );
    assert_eq!(d.version_command().args, ["--version"]);
    assert_eq!(d.help_command("search").args, ["search", "--help"]);
    let out = |stdout: &str| Captured {
        status: Some(0),
        stdout: stdout.to_string(),
        stderr: " bad ".to_string(),
    };
    assert_eq!(d.version(&out(" needle-rs 0.1.5\n")), Ok("needle-rs 0.1.5".to_string()));
    assert_eq!(
        d.version(&out(" ")),
        Err(CoreError::ParseFailed { what: "needle --version", detail: "bad".to_string() })
    );
    assert_eq!(
        d.capabilities(&help("  --include-endings"), &Err("no".to_string())),
        CliCapabilities { analyze_include_endings: true, search_include_endings: false }
    );
    // Some write their help to stderr.
    let err = Ok(Captured {
        status: Some(2),
        stdout: String::new(),
        stderr: "--include-endings".to_string(),
    });
    assert!(d.capabilities(&help(""), &err).search_include_endings);
    assert_eq!(CliCapabilities::default(), d.capabilities(&help(""), &help("")));
}

#[test]
fn needle_gets_only_options_that_it_knows() {
    let d = CliDetector::new("needle");
    let none = CliCapabilities::default();
    let all = CliCapabilities { analyze_include_endings: true, search_include_endings: true };
    assert_eq!(d.analyze_command("-a.mkv", &opts(), none).args, ["analyze", "--", "-a.mkv"]);
    let o = DetectOptions { threading: false, force_reanalyze: true, ..opts() };
    assert_eq!(
        d.analyze_command("a.mkv", &o, all).args,
        ["--no-threading", "analyze", "--include-endings", "--force", "--", "a.mkv"]
    );
    let videos = ["a.mkv", "b.mkv"].map(String::from).to_vec();
    let o = DetectOptions {
        hash_match_threshold: 40,
        min_opening_duration_secs: 0,
        min_ending_duration_secs: 9999,
        time_padding_secs: secs(1.5),
        ..opts()
    };
    assert_eq!(
        d.search_command(&videos, &o, all).args,
        [
            "search", "--write-skip-files", "--hash-match-threshold", "32",
            "--min-opening-duration", "1", "--min-ending-duration", "3600", "--time-padding",
            "1.500", "--include-endings", "--", "a.mkv", "b.mkv",
        ]
    );
    assert!(!d.search_command(&videos, &o, none).args.contains(&"--include-endings".to_string()));
    let o = DetectOptions { include_endings: false, ..opts() };
    assert!(!d.search_command(&videos, &o, all).args.contains(&"--include-endings".to_string()));
    assert!(!d.search_command(&videos, &o, all).args.contains(&"--analyze".to_string()));
}

#[test]
fn lines_of_needle_say_which_video() {
    assert_eq!(analyze_line("/tv/e01.mkv", "  Skipping \n"), Some(log("[e01.mkv] Skipping")));
    assert_eq!(analyze_line("/tv/e01.mkv", "  "), None);
    assert_eq!(search_line(" done "), Some(log("done")));
    assert_eq!(search_line(""), None);
    assert_eq!(run_analyze_one(ran(0), "/tv/e01.mkv"), Ok(()));
    assert_eq!(
        run_analyze_one(ran(2), "/tv/e01.mkv").unwrap_err().message(),
        "needle analyze /tv/e01.mkv 执行失败（退出码 2）"
    );
    let stopped = ExecResult { status: None, cancelled: true, tail: vec![], stderr_tail: vec![] };
    assert_eq!(run_analyze_one(Ok(stopped), "x"), Err(CoreError::Cancelled));
    assert_eq!(
        run_analyze_one(Err("gone".to_string()), "x"),
        Err(CoreError::Io("gone".to_string()))
    );
}

#[test]
fn work_is_handed_out_once() {
    let mut q = WorkQueue::new(2);
    assert_eq!(q.take(false), Some(0));
    assert_eq!(q.take(true), None);
    assert_eq!(q.take(false), Some(1));
    assert_eq!(q.take(false), None);
}

#[test]
fn failed_videos_are_left_out() {
    let files = season();
    let mut tally = AnalyzeTally::new(3);
    assert_eq!(
        tally.done(&files, 2, None),
        DetectEvent::EpisodeDone { index: 1, total: 3, name: "e03.mkv".to_string() }
    );
    assert_eq!(
        tally.done(&files, 1, Some("broken".to_string())),
        DetectEvent::EpisodeFailed {
            index: 2,
            total: 3,
            name: "e02.mkv".to_string(),
            error: "broken".to_string(),
        }
    );
    tally.done(&files, 0, None);
    assert_eq!(tally.survivors(&files), ["/tv/e01.mkv", "/tv/e03.mkv"]);
}

fn begin(o: DetectOptions) -> DetectStep {
    CliDetector::new("needle").detect(season(), o, false)
}

fn analyzed(o: DetectOptions, errors: [Option<&str>; 3]) -> DetectStep {
    let step = begin(o).job.helped(&help("--include-endings"), &help("--include-endings"));
    let mut tally = AnalyzeTally::new(3);
    for (i, e) in errors.iter().enumerate() {
        tally.done(&season(), i, e.map(String::from));
    }
    step.job.analyzed(&tally, false)
}

#[test]
fn two_videos_are_needed() {
    let one = vec!["/tv/e01.mkv".to_string()];
    let step = CliDetector::new("needle").detect(one.clone(), opts(), true);
    assert!(matches!(step.action, DetectAction::Finish(Err(CoreError::NotEnoughEpisodes(1)))));
    let step = CliDetector::new("needle").detect(season(), opts(), true);
    assert!(matches!(step.action, DetectAction::Finish(Err(CoreError::Cancelled))));
    let begin = |files: Vec<String>, cancelled: bool| {
        LibraryDetector::new().detect(files, opts(), cancelled)
    };
    assert_eq!(finished(begin(one, true)), Err(CoreError::NotEnoughEpisodes(1)));
    assert_eq!(finished(begin(season(), true)), Err(CoreError::Cancelled));
    assert!(matches!(begin(season(), false).action, LibraryAction::Look));
}

#[test]
fn a_detection_goes_through_its_stages() {
    let step = begin(opts());
    assert!(step.notes.is_empty());
    match &step.action {
        DetectAction::AskHelp { analyze, search } => {
            assert_eq!(analyze.args, ["analyze", "--help"]);
            assert_eq!(search.args, ["search", "--help"]);
        }
        other => panic!("{other:?}"),
    }
    let step = step.job.helped(&help(""), &help("--include-endings"));
    assert_eq!(
        step.notes,
        vec![
            log("needle 参数探测：analyze不支持 --include-endings，search支持"),
            log("这个 needle 构建的分析器会对整段音频做哈希，片尾天然包含在内，无需额外开关"),
            stage("分析音频指纹（含片尾片段）"),
            log("共 3 个文件，并发 3 路逐集分析"),
            log("本轮跑完会清掉 .needle.dat 以保持源目录干净，代价是下次要重新分析；\
                 想复用缓存（第二次跑快很多）就勾上「保留 needle 生成的临时文件」。"),
        ]
    );
    match &step.action {
        DetectAction::Analyze { commands, at_once } => {
            assert_eq!(*at_once, 3);
            assert_eq!(commands.len(), 3);
            assert_eq!(commands[1].args, ["analyze", "--", "/tv/e02.mkv"]);
        }
        other => panic!("{other:?}"),
    }
    let mut tally = AnalyzeTally::new(3);
    tally.done(&season(), 1, Some("x".to_string()));
    let step = step.job.analyzed(&tally, false);
    assert_eq!(
        step.notes,
        vec![
            log("1 个文件分析失败已跳过，用剩下 2 个继续比对"),
            stage("跨集比对，搜索公共片头 / 片尾"),
            log("这一步由 needle 内部整体并行完成，过程中不会输出进度，请稍候"),
        ]
    );
    match &step.action {
        DetectAction::Search(cmd) => {
            assert_eq!(cmd.args[cmd.args.len() - 3..], ["--", "/tv/e01.mkv", "/tv/e03.mkv"]);
        }
        other => panic!("{other:?}"),
    }
    let step = step.job.searched(ran(0), false);
    assert_eq!(step.notes, vec![stage("读取检测结果")]);
    assert!(matches!(step.action, DetectAction::Read));
    let found = Detection { opening: Some(seg(43.0, 132.0)), ending: None };
    let step = step.job.read(&[Ok(Some(found)), Ok(None), Ok(None)]);
    assert_eq!(step.notes.last(), Some(&stage("清理临时文件")));
    assert!(matches!(step.action, DetectAction::Clean));
    let step = step.job.cleaned(&[], &[]);
    assert_eq!(step.notes, vec![log("没有需要清理的临时文件")]);
    match step.action {
        DetectAction::Finish(Ok(list)) => {
            assert_eq!(list, vec![found, Detection::default(), Detection::default()]);
        }
        other => panic!("{other:?}"),
    }
}

#[test]
fn a_failed_detection_cleans_up_too() {
    let end = |step: DetectStep| {
        assert_eq!(step.notes, vec![stage("清理临时文件")]);
        let paths = vec!["/tv/e01.needle.dat".to_string()];
        match step.job.cleaned(&paths, &[Ok(())]).action {
            DetectAction::Finish(Err(e)) => e,
            other => panic!("{other:?}"),
        }
    };
    // Too few videos could be analysed.
    assert_eq!(
        end(analyzed(opts(), [Some("a"), Some("b"), None])),
        CoreError::NotEnoughEpisodes(1)
    );
    // The user stopped it while they were.
    let step = begin(opts()).job.helped(&help(""), &help(""));
    assert_eq!(end(step.job.analyzed(&AnalyzeTally::new(3), true)), CoreError::Cancelled);
    // The search failed, or was stopped.
    let search = || analyzed(opts(), [None, None, None]);
    assert!(matches!(
        end(search().job.searched(ran(3), false)),
        CoreError::CommandFailed { .. }
    ));
    assert_eq!(
        end(search().job.searched(Err("gone".to_string()), false)),
        CoreError::Io("gone".to_string())
    );
    assert_eq!(end(search().job.searched(ran(0), true)), CoreError::Cancelled);
    // Where the files are to stay there is nothing to clean.
    let keep = DetectOptions { keep_sidecars: true, ..opts() };
    let step = analyzed(keep, [Some("a"), Some("b"), Some("c")]);
    assert!(step.notes.is_empty());
    assert!(matches!(step.action, DetectAction::Finish(Err(CoreError::NotEnoughEpisodes(0)))));
}

#[test]
fn only_what_this_run_left_is_removed() {
    let files = season();
    // The user had taken the fingerprints of the first video.
    let snapshot = SidecarSnapshot::take(&files, |p: &str| p == "/tv/e01.needle.dat");
    assert_eq!(snapshot.entries.len(), 9);
    assert_eq!(snapshot.entries[0], ("/tv/e01.needle.bin".to_string(), false));
    assert_eq!(snapshot.entries[1], ("/tv/e01.needle.dat".to_string(), true));
    let now: Vec<bool> = snapshot.entries.iter().map(|e| e.0.ends_with(".dat")).collect();
    let left = snapshot.left_behind(&now);
    assert_eq!(left, ["/tv/e02.needle.dat", "/tv/e03.needle.dat"]);
    let mut told = vec![];
    let removed = vec![Ok(()), Err("denied".to_string())];
    assert_eq!(cleanup_new(&left, &removed, &mut told), 1);
    assert_eq!(
        told,
        vec![
            log("已清理临时文件：e02.needle.dat"),
            log("清理 /tv/e03.needle.dat 失败（不影响结果）：denied"),
        ]
    );
}

#[test]
fn a_file_of_two_videos_is_removed_once() {
    let files = ["/tv/e01.mkv", "/tv//e01.mp4"].map(String::from);
    let snapshot = SidecarSnapshot::take(&files, |_: &str| false);
    assert_eq!(snapshot.entries.len(), 6);
    let left = snapshot.left_behind(&[false, true, true, false, true, true]);
    assert_eq!(left, ["/tv/e01.needle.dat", "/tv/e01.needle.skip.json"]);
    assert!(snapshot.left_behind(&[false; 6]).is_empty());
}

#[test]
fn results_stay_with_their_videos() {
    let files = season();
    let both = Detection { opening: Some(seg(43.0, 132.0)), ending: Some(seg(1331.0, 1419.0)) };
    let mut told = vec![];
    let readings = vec![Ok(None), Ok(Some(both)), Ok(None)];
    assert_eq!(
        collect_detections(&files, &readings, &mut told),
        Ok(vec![Detection::default(), both, Detection::default()])
    );
    assert_eq!(
        told,
        vec![
            log("[1/3] e01.mkv -> 未检测到片头或片尾"),
            log("[2/3] e02.mkv -> 片头 00:00:43.000 - 00:02:12.000，\
                 片尾 00:22:11.000 - 00:23:39.000"),
            log("[3/3] e03.mkv -> 未检测到片头或片尾"),
        ]
    );
    let mut told = vec![];
    let readings = vec![Ok(None), Err(CoreError::Json("bad".to_string())), Ok(Some(both))];
    assert_eq!(
        collect_detections(&files, &readings, &mut told),
        Err(CoreError::Json("bad".to_string()))
    );
    assert_eq!(told.len(), 1);
    assert_eq!(
        collect_detections(&files, &[Ok(None), Ok(None), Ok(None)], &mut vec![]),
        Err(CoreError::NoDetectionAtAll)
    );
}

/// Goes on until the results are to be read.
fn library_run(o: DetectOptions) -> (LibraryStep, Vec<DetectEvent>) {
    let mut told = vec![];
    let mut step = LibraryDetector::new().detect(season(), o, false);
    loop {
        told.append(&mut step.notes);
        let event = match step.action {
            LibraryAction::Look => LibraryEvent::Looked { cancelled: false },
            LibraryAction::Analyze(call) => call.perform(|| false),
            LibraryAction::Compare(call) => call.perform(|| false),
            _ => return (step, told),
        };
        step = step.job.step(event);
    }
}

fn finished(step: LibraryStep) -> Result<Vec<Detection>, CoreError> {
    match step.action {
        LibraryAction::Finish(result) => result,
        other => panic!("{other:?}"),
    }
}

#[test]
fn the_library_goes_step_by_step() {
    let o = DetectOptions { time_padding_secs: secs(2.0), ..opts() };
    let (step, told) = library_run(o);
    assert!(matches!(step.action, LibraryAction::Read));
    assert_eq!(
        told,
        [
            stage("分析音频指纹（含片尾片段）"),
            log("库后端直接对全部剧集并行解码，过程中无法回报逐集进度"),
            stage("跨集比对，搜索公共片头 / 片尾"),
            stage("读取检测结果"),
        ]
    );
    let found = Detection { opening: Some(seg(1.0, 2.0)), ending: None };
    let readings = vec![Ok(Some(found)), Ok(None), Ok(None)];
    let step = step.job.step(LibraryEvent::Read { readings });
    assert!(matches!(step.action, LibraryAction::Clean));
    assert_eq!(step.notes.last(), Some(&stage("清理临时文件")));
    let step = step.job.step(LibraryEvent::Cleaned { paths: vec![], removed: vec![] });
    assert_eq!(step.notes, [log("没有需要清理的临时文件")]);
    assert_eq!(finished(step), Ok(vec![found, Detection::default(), Detection::default()]));
}

#[test]
fn the_library_cleans_up_after_a_failure() {
    let begin = |o: DetectOptions| LibraryDetector::new().detect(season(), o, false).job;
    // Stopped before needle is called.
    let step = begin(opts()).step(LibraryEvent::Looked { cancelled: true });
    assert!(matches!(step.action, LibraryAction::Clean));
    assert_eq!(step.notes, [stage("清理临时文件")]);
    let paths = vec!["/tv/e01.needle.dat".to_string()];
    let step = step.job.step(LibraryEvent::Cleaned { paths, removed: vec![Ok(())] });
    assert_eq!(step.notes, [log("已清理临时文件：e01.needle.dat")]);
    assert_eq!(finished(step), Err(CoreError::Cancelled));
    // needle fails: that is told even where the user wished to stop.
    let step = begin(opts()).step(LibraryEvent::Looked { cancelled: false });
    let given = Err(Error::Stub);
    let step = step.job.step(LibraryEvent::Analyzed { given, cancelled: true });
    assert!(matches!(step.action, LibraryAction::Clean));
    let step = step.job.step(LibraryEvent::Cleaned { paths: vec![], removed: vec![] });
    match finished(step) {
        Err(e) => assert_eq!(e.message(), "解析 needle 音频分析 的输出失败：needle stub error"),
        Ok(_) => panic!(),
    }
    // What needle leaves is to stay.
    let keep = DetectOptions { keep_sidecars: true, ..opts() };
    let step = begin(keep).step(LibraryEvent::Looked { cancelled: false });
    let step = step.job.step(LibraryEvent::Analyzed { given: Ok(vec![]), cancelled: false });
    assert!(matches!(step.action, LibraryAction::Compare(_)));
    let step = step.job.step(LibraryEvent::Compared { given: Ok(vec![]), cancelled: true });
    assert_eq!(finished(step), Err(CoreError::Cancelled));
}

#[test]
fn needle_is_handed_the_right_switches() {
    let lib = LibraryDetector::new();
    let o = DetectOptions { time_padding_secs: secs(0.1), threading: false, ..opts() };
    let call = lib.analyze_call(season(), &o);
    assert!(!call.persist && !call.threading);
    assert_eq!(call.hash_duration, Secs::Finite(300_000_012));
    assert_eq!(call.analyzer.videos, season());
    assert!(call.analyzer.include_endings && !call.analyzer.threaded_decoding);
    assert_eq!(call.run(), Ok(vec![]));
    let call = lib.compare_call(season(), vec![], &o);
    assert!(!call.display && !call.use_skip_files && call.write_skip_files && !call.threading);
    assert_eq!(call.comparator.videos, season());
    assert!(call.comparator.include_endings);
    assert_eq!(call.comparator.hash_match_threshold, 10);
    assert_eq!(call.comparator.min_opening_duration, secs(20.0));
    assert_eq!(call.comparator.min_ending_duration, secs(20.0));
    assert_eq!(call.comparator.time_padding, Secs::Finite(100_000_001));
    assert_eq!(call.run(), Ok(vec![]));
}

#[test]
fn lengths_go_to_needle_with_32_bits() {
    for x in [0.0, 0.1, 0.3, 1.5, 2.7, 1.0 / 3.0, 7.123456789, 123456.789, 1e-9, 3e12] {
        let o = DetectOptions { time_padding_secs: secs(x), ..opts() };
        assert!(can_pad(&o));
        let call = LibraryDetector::new().compare_call(season(), vec![], &o);
        let want = Duration::from_secs_f32(x as f32).as_nanos() as i128;
        assert_eq!(call.comparator.time_padding, Secs::Finite(want), "{x}");
    }
    let pads = |t: Secs| can_pad(&DetectOptions { time_padding_secs: t, ..opts() });
    assert!(!pads(Secs::Finite(-1)) && !pads(Secs::PosInf) && !pads(Secs::Nan));
    assert!(pads(secs(1.8e19)) && !pads(secs(1.8446744e19)) && !pads(Secs::Finite(i128::MAX)));
    assert_eq!(Duration::from_secs_f32(0.3).as_nanos(), 300_000_012);
}

#[test]
fn errors_of_needle_are_passed_on() {
    let lib = LibraryDetector::new();
    match lib.analyzed(Err(Error::Stub)) {
        Err(e) => assert_eq!(e.message(), "解析 needle 音频分析 的输出失败：needle stub error"),
        Ok(_) => panic!(),
    }
    assert!(lib.analyzed(Ok(vec![])).is_ok());
    assert_eq!(
        lib.compared(Err(Error::Stub)),
        Err(CoreError::ParseFailed {
            what: "needle 跨集比对",
            detail: "needle stub error".to_string(),
        })
    );
    assert_eq!(lib.compared(Ok(vec![])), Ok(()));
}

#[test]
fn needle_has_its_own_settings() {
    let a: Analyzer<String> = Analyzer::default();
    assert!(a.videos.is_empty() && !a.include_endings && !a.threaded_decoding && !a.force);
    let a = Analyzer::from_files(vec![1u8, 2], true, false);
    assert!(a.threaded_decoding && !a.include_endings);
    assert_eq!(a.run(secs(0.3), false, true), Ok(vec![]));
    let c = Comparator::from(a);
    assert_eq!(c.videos, [1, 2]);
    assert_eq!(c.hash_match_threshold, 10);
    assert_eq!(c.time_padding, secs(0.0));
    let c = c.with_hash_match_threshold(3);
    assert_eq!(c.hash_match_threshold, 3);
    assert_eq!(c.run_with_frame_hashes(vec![], false, false, true, true), Ok(vec![]));
    assert_eq!(Error::Stub.message(), "needle stub error");
}

#[test]
fn the_program_is_preferred_to_the_library() {
    let needle = Some("/bin/needle".to_string());
    let cli = DetectorChoice::Cli(CliDetector::new("/bin/needle"));
    assert_eq!(pick_detector(&needle, false), Some(cli.clone()));
    assert_eq!(pick_detector(&needle, true), Some(cli.clone()));
    assert_eq!(pick_detector(&None, true), None);
    assert_eq!(choose_detector(&needle, false, true), Some(cli.clone()));
    assert_eq!(choose_detector(&needle, true, true), Some(DetectorChoice::Library));
    assert_eq!(choose_detector(&None, false, true), Some(DetectorChoice::Library));
    assert_eq!(cli.label(), "needle 子进程");
    assert_eq!(cli.describe(), "needle 子进程（/bin/needle）");
    assert!(cli.has_fine_grained_progress());
    let lib = DetectorChoice::Library;
    assert_eq!(lib.label(), "needle-rs 库直链");
    assert_eq!(lib.describe(), "needle-rs 库直链（不产生 .needle.dat）");
    assert!(!lib.has_fine_grained_progress());
}
