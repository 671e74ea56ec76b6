use intro_outro::cut::{CutMode, CutOutcome, Fraction};
use intro_outro::error::CoreError;
use intro_outro::model::{Detection, EpisodeFile, EpisodeTask, Segment, TaskKind};
use intro_outro::paths::{
    extension, file_name, file_stem, join, parent, relate_paths, same_path, sort_paths,
    with_extension, Relation,
};
use intro_outro::pipeline::{
    build_tasks, describe_keep, is_hidden, is_video_file, looks_into, output_path_for, plan_output,
    recompute_task, scan_videos, total_actionable_secs, BatchAction, CutBatch, CutSink, CutSummary,
    PathEntry, ProbeAction, ProbeRun, DEFAULT_OUTPUT_SUFFIX,
};
use intro_outro::probe::MediaInfo;
use intro_outro::secs::Secs;

fn secs(x: f64) -> Secs {
    Secs::Finite((x * 1e9).round() as i128)
}

fn num(t: Secs) -> f64 {
    match t {
        Secs::Finite(n) => n as f64 / 1e9,
        other => panic!("{other:?}"),
    }
}

fn seg(start: f64, end: f64) -> Segment {
    Segment::new(secs(start), secs(end))
}

fn episode(name: &str, duration: Option<f64>) -> EpisodeFile {
    EpisodeFile {
        path: format!("/tv/{name}"),
        size_bytes: 1024,
        duration_secs: duration.map(secs),
        width: Some(1920),
        height: Some(1080),
        has_audio: true,
    }
}

#[test]
fn recognises_supported_extensions_case_insensitively() {
    assert!(is_video_file("/tv/a.MKV"));
    assert!(is_video_file("/tv/a.mp4"));
    assert!(!is_video_file("/tv/a.needle.skip.json"));
    assert!(!is_video_file("/tv/a.needle.dat"));
    assert!(!is_video_file("/tv/readme.txt"));
}

#[test]
fn output_path_keeps_the_original_container() {
    let out = output_path_for(
        r"C:\TV\Show\Show.S01E01.mkv",
        r"D:\out",
        DEFAULT_OUTPUT_SUFFIX,
    );
    assert_eq!(out, r"D:\out\Show.S01E01_trimmed.mkv");

    let out = output_path_for("/tv/raw", "/out", "_c");
    assert_eq!(out, "/out/raw_c.mkv");
}

#[test]
fn classifies_each_episode_into_an_actionable_or_explainable_kind() {
    let files = vec![
        episode("e01.mkv", Some(1440.0)),
        episode("e02.mkv", Some(1440.0)),
        episode("e03.mkv", None),
        episode("e04.mkv", Some(1440.0)),
    ];
    let detections = vec![
        Detection {
            opening: Some(seg(0.0, 132.0)),
            ending: Some(seg(1331.0, 1440.0)),
        },
        Detection::default(),
        Detection {
            opening: Some(seg(43.0, 132.0)),
            ending: None,
        },
        Detection {
            opening: Some(seg(0.0, 1440.0)),
            ending: None,
        },
    ];

    let tasks = build_tasks(&files, &detections, "/out", "_trimmed");
    assert_eq!(tasks.len(), 4);
    assert_eq!(tasks[0].kind, TaskKind::Ready);
    assert_eq!(tasks[0].keep.len(), 1);
    assert_eq!(tasks[1].kind, TaskKind::NoDetection);
    assert_eq!(tasks[2].kind, TaskKind::DurationUnknown);
    assert_eq!(tasks[3].kind, TaskKind::NothingToKeep);

    let total = total_actionable_secs(&tasks);
    assert!((num(total) - (1331.0 - 132.0)).abs() < 1e-6);
}

#[test]
fn cold_open_and_trailing_preview_make_three_spans() {
    let files = vec![episode("e01.mkv", Some(1440.0))];
    let detections = vec![Detection {
        opening: Some(seg(43.0, 132.0)),
        ending: Some(seg(1331.0, 1419.0)),
    }];
    let tasks = build_tasks(&files, &detections, "/out", "_trimmed");

    assert_eq!(tasks[0].kind, TaskKind::Ready);
    assert_eq!(tasks[0].keep.len(), 3);
    assert_eq!(describe_keep(&tasks[0].keep).split(" + ").count(), 3);
}

#[test]
fn missing_detection_entries_do_not_panic() {
    let files = vec![episode("e01.mkv", Some(1440.0))];
    let tasks = build_tasks(&files, &[], "/out", "_trimmed");
    assert_eq!(tasks.len(), 1);
    assert_eq!(tasks[0].kind, TaskKind::NoDetection);
}

#[test]
fn recompute_task_reflects_manual_timestamp_edits() {
    let mut tasks = build_tasks(
        &[episode("e01.mkv", Some(1440.0))],
        &[Detection::default()],
        "/out",
        "_trimmed",
    );
    let mut task = tasks.pop().unwrap();
    assert_eq!(task.kind, TaskKind::NoDetection);

    task.detection = Detection {
        opening: Some(seg(60.0, 150.0)),
        ending: Some(seg(1300.0, 1400.0)),
    };
    recompute_task(&mut task);

    assert_eq!(task.kind, TaskKind::Ready);
    assert_eq!(task.keep.len(), 3);
    assert!((num(task.keep[0].start) - 0.0).abs() < 1e-9);
    assert!((num(task.keep[0].end) - 60.0).abs() < 1e-9);
    assert!((num(task.keep[1].start) - 150.0).abs() < 1e-9);
    assert!((num(task.keep[1].end) - 1300.0).abs() < 1e-9);
    assert!((num(task.keep[2].start) - 1400.0).abs() < 1e-9);
    assert!((num(task.keep[2].end) - 1440.0).abs() < 1e-9);
    assert!((num(task.removed_secs().unwrap()) - 190.0).abs() < 1e-6);
}

#[test]
fn describe_keep_joins_multiple_spans() {
    let keep = vec![seg(0.0, 10.0), seg(200.0, 300.0)];
    assert_eq!(
        describe_keep(&keep),
        "00:00:00.000 - 00:00:10.000 + 00:03:20.000 - 00:05:00.000"
    );
}

#[test]
fn a_video_of_which_nothing_is_cut_is_not_ready() {
    let beyond = Detection { opening: Some(seg(2000.0, 2100.0)), ending: None };
    let tasks = build_tasks(&[episode("e01.mkv", Some(1440.0))], &[beyond], "/out", "_x");
    assert_eq!(tasks[0].keep, vec![seg(0.0, 1440.0)]);
    assert_eq!(tasks[0].removed_secs(), Some(secs(0.0)));
    assert_eq!(tasks[0].kind, TaskKind::NoDetection);
}

#[test]
fn tasks_name_their_outputs() {
    let tasks = build_tasks(
        &[episode("e01.mkv", Some(1440.0)), episode("e02.mp4", None)],
        &[],
        "/out/",
        "_x",
    );
    assert_eq!(tasks[0].output, "/out/e01_x.mkv");
    assert_eq!(tasks[1].output, "/out/e02_x.mp4");
    assert_eq!(tasks[1].clone(), tasks[1]);
    assert_eq!(output_path_for("..", "/out", "_x"), "/out/output_x.mkv");
    // An absolute path does not go into the directory.
    assert_eq!(output_path_for("/tv/a.mkv", "", "_x"), "a_x.mkv");
}

#[test]
fn outputs_are_other_paths_than_their_inputs() {
    for input in ["/tv/a.mkv", "/tv/a", "/tv/a.b.mp4", "C:\\tv\\a.mkv", "/tv/a."] {
        let dir = parent(input).unwrap();
        let out = output_path_for(input, &dir, DEFAULT_OUTPUT_SUFFIX);
        assert!(!same_path(input, &out), "{input} {out}");
        let ext = extension(input).unwrap_or("mkv".to_string());
        assert_eq!(extension(&out), Some(ext));
    }
    // Without a suffix the plan puts the usual one in, rather than the input.
    assert!(same_path("/tv/a.mkv", &output_path_for("/tv/a.mkv", "/tv", "")));
    assert_eq!(plan_output("/tv/a.mkv", "/tv//", ""), "/tv/a_trimmed.mkv");
    assert_eq!(plan_output("/tv/a.mkv", "/out", ""), "/out/a.mkv");
    assert_eq!(plan_output("/tv/a", "/tv", ""), "/tv/a.mkv");
    let tasks = build_tasks(&[episode("e01.mkv", None)], &[], "/tv", "");
    assert_eq!(tasks[0].output, "/tv/e01_trimmed.mkv");
    // A name that looks like a drive is still a name.
    assert_eq!(output_path_for("/tv/M: Show.mkv", "/out", "_t"), "/out/M: Show_t.mkv");
}

#[test]
fn paths_fall_into_their_parts() {
    assert_eq!(file_name("/tv/a.mkv").as_deref(), Some("a.mkv"));
    assert_eq!(file_name("/tv/a.mkv/").as_deref(), Some("a.mkv"));
    assert_eq!(file_name("/tv/a.mkv/./").as_deref(), Some("a.mkv"));
    assert_eq!(file_name("a").as_deref(), Some("a"));
    assert_eq!(file_name("/"), None);
    assert_eq!(file_name(""), None);
    assert_eq!(file_name("/tv/.."), None);
    assert_eq!(file_name("."), None);
    assert_eq!(file_name(r"C:\tv\a.mkv").as_deref(), Some("a.mkv"));
    assert_eq!(file_name("C:/tv/a.mkv").as_deref(), Some("a.mkv"));
    assert_eq!(file_name("C:a.mkv").as_deref(), Some("C:a.mkv"));
    assert_eq!(file_name("a:b.mkv").as_deref(), Some("a:b.mkv"));
    assert_eq!(file_name(r"tv\a.mkv").as_deref(), Some(r"tv\a.mkv"));
    assert_eq!(file_name(r"tv/a\b.mkv").as_deref(), Some(r"a\b.mkv"));
    assert_eq!(parent(r"tv/a\b.mkv").as_deref(), Some("tv"));
    assert_eq!(file_name(r"\tv\a.mkv").as_deref(), Some("a.mkv"));
    assert_eq!(file_name(r"C:\"), None);
    assert_eq!(file_name(r"\\srv\share"), None);
    assert_eq!(file_name(r"\\srv\share\"), None);
    assert_eq!(parent(r"\\srv\share"), None);
    assert_eq!(file_name(r"\\?\UNC\srv"), None);
    assert_eq!(file_name(r"\\?\UNC\srv\share"), None);
    assert_eq!(file_name(r"\\?\UNC\srv\share\a.mkv").as_deref(), Some("a.mkv"));
    assert_eq!(file_name(r"\\?\C:\a.mkv").as_deref(), Some("a.mkv"));
    assert_eq!(file_name(r"\\srv").as_deref(), Some("srv"));
    assert_eq!(file_name(r"\\srv\share\a.mkv").as_deref(), Some("a.mkv"));
    assert_eq!(file_name(r"/tv/a\b.mkv").as_deref(), Some(r"a\b.mkv"));
    assert_eq!(file_stem("/tv/.hidden").as_deref(), Some(".hidden"));
    assert_eq!(extension("/tv/.hidden"), None);
    assert_eq!(extension("/tv/a."), Some(String::new()));
    assert_eq!(extension("/tv/a.b.c").as_deref(), Some("c"));
    assert_eq!(with_extension("/tv/a.b.mkv", "txt"), "/tv/a.b.txt");
    assert_eq!(with_extension("/tv/a.mkv/", "txt"), "/tv/a.txt");
    assert_eq!(with_extension("/tv/a.mkv", ""), "/tv/a");
    assert_eq!(with_extension("/", "txt"), "/");
    assert_eq!(parent("/tv/a.mkv").as_deref(), Some("/tv"));
    assert_eq!(parent("/tv//a.mkv").as_deref(), Some("/tv"));
    assert_eq!(parent("/a.mkv").as_deref(), Some("/"));
    assert_eq!(parent("a.mkv").as_deref(), Some(""));
    assert_eq!(parent("/"), None);
    assert_eq!(parent(r"C:\a.mkv").as_deref(), Some(r"C:\"));
    assert_eq!(parent("tv/..").as_deref(), Some("tv"));
    assert_eq!(join("/tv", "a"), "/tv/a");
    assert_eq!(join("/tv/", "a"), "/tv/a");
    assert_eq!(join("/tv", "/a"), "/a");
    assert_eq!(join("tv", r"a\b"), r"tv/a\b");
    assert_eq!(join(r"C:\tv", "a"), r"C:\tv\a");
}

#[test]
fn paths_are_ordered_step_by_step() {
    // `-` comes before `/`, but a shorter name comes first.
    assert_eq!(relate_paths("/tv/a/z.mkv", "/tv/a-b/c.mkv"), Relation::Before);
    assert_eq!(relate_paths("/tv/b", "/tv/a"), Relation::After);
    assert_eq!(relate_paths("/tv//a/", "/tv/a"), Relation::Same);
    assert_eq!(relate_paths("/tv", "tv"), Relation::Before);
    assert_eq!(relate_paths("../a", "a"), Relation::Before);
    assert!(same_path(r"C:\tv\a", "c:/tv/a"));
    assert!(!same_path("/TV/a", "/tv/a"));
    let list = ["/tv/e10", "/tv/e02", "/tv//e10", "/tv/e01"].map(String::from).to_vec();
    assert_eq!(sort_paths(&list), ["/tv/e01", "/tv/e02", "/tv/e10"]);
    let list = ["/tv/e01", "/tv/e10", "/tv/e02", "/tv/e01"].map(String::from).to_vec();
    assert_eq!(sort_paths(&list), ["/tv/e01", "/tv/e02", "/tv/e10"]);
}

fn f(p: &str) -> PathEntry {
    PathEntry::File(p.to_string())
}

fn d(p: &str, entries: Vec<PathEntry>) -> PathEntry {
    PathEntry::Dir { path: p.to_string(), entries }
}

#[test]
fn videos_are_found_and_sorted() {
    let tree = vec![
        f("/tv/z.mkv"),
        f("/tv/notes.txt"),
        PathEntry::Missing("/tv/gone.mkv".to_string()),
        d(
            "/tv/s1",
            vec![
                f("/tv/s1/e02.mkv"),
                f("/tv/s1/e01.MP4"),
                f("/tv/s1/.e00.mkv"),
                f("/tv/s1/e01.needle.dat"),
                d("/tv/s1/extra", vec![f("/tv/s1/extra/x.mkv")]),
                d("/tv/s1/.tmp", vec![f("/tv/s1/.tmp/part_000.mkv")]),
            ],
        ),
        f("/tv/z.mkv"),
        f("/tv/.shown.mkv"),
    ];
    assert_eq!(
        scan_videos(&tree, false).unwrap(),
        ["/tv/.shown.mkv", "/tv/s1/e01.MP4", "/tv/s1/e02.mkv", "/tv/z.mkv"]
    );
    assert_eq!(
        scan_videos(&tree, true).unwrap(),
        [
            "/tv/.shown.mkv",
            "/tv/s1/e01.MP4",
            "/tv/s1/e02.mkv",
            "/tv/s1/extra/x.mkv",
            "/tv/z.mkv",
        ]
    );
    assert!(looks_into("/tv/s1", true));
    assert!(!looks_into("/tv/s1", false));
    assert!(!looks_into("/tv/.tmp", true));
    assert!(is_hidden("/tv/.tmp"));
    assert!(!is_hidden("/"));
}

#[test]
fn the_order_of_the_paths_makes_no_difference() {
    let f = |p: &str| PathEntry::File(p.to_string());
    let dir = || PathEntry::Dir {
        path: "/tv".to_string(),
        entries: vec![f("/tv/b.mkv"), f("/tv/a.mkv")],
    };
    let found = ["/tv/a.mkv", "/tv/b.mkv", "/x.mkv"];
    assert_eq!(scan_videos(&[dir(), f("/x.mkv")], false).unwrap(), found);
    assert_eq!(scan_videos(&[f("/x.mkv"), dir()], false).unwrap(), found);
    assert_eq!(scan_videos(&[f("/x.mkv"), dir(), f("/x.mkv"), dir()], false).unwrap(), found);
}

#[test]
fn videos_are_read_one_after_the_other() {
    let mut run = ProbeRun::new(vec!["/tv/a.mkv".to_string(), "/tv/b.mkv".to_string()]);
    assert_eq!(
        run.next(false),
        ProbeAction::Probe {
            path: "/tv/a.mkv".to_string(),
            current: 1,
            total: 2,
            name: "a.mkv".to_string(),
        }
    );
    run.probed(
        Some(5),
        Ok(MediaInfo {
            duration_secs: secs(60.0),
            width: Some(640),
            height: Some(480),
            has_audio: false,
            video_codec: None,
            audio_codec: None,
        }),
    );
    assert_eq!(run.next(true), ProbeAction::Cancelled);
    run.probed(None, Err(CoreError::Io("gone".to_string())));
    assert_eq!(run.next(true), ProbeAction::Done);
    assert_eq!(
        run.files,
        vec![
            EpisodeFile {
                path: "/tv/a.mkv".to_string(),
                size_bytes: 5,
                duration_secs: Some(secs(60.0)),
                width: Some(640),
                height: Some(480),
                has_audio: false,
            },
            EpisodeFile {
                path: "/tv/b.mkv".to_string(),
                size_bytes: 0,
                duration_secs: None,
                width: None,
                height: None,
                has_audio: true,
            },
        ]
    );
}

fn plan() -> Vec<EpisodeTask> {
    let cut = Detection { opening: Some(seg(0.0, 100.0)), ending: None };
    build_tasks(
        &[
            episode("e01.mkv", Some(1440.0)),
            episode("e02.mkv", None),
            episode("e03.mkv", Some(1440.0)),
            episode("e04.mkv", Some(1440.0)),
        ],
        &[cut, cut, cut, Detection::default()],
        "/out",
        "_trimmed",
    )
}

fn cut_well(path: &str) -> Result<CutOutcome, CoreError> {
    Ok(CutOutcome {
        output: path.to_string(),
        kept_secs: secs(1340.0),
        segments: 1,
        used_concat: false,
    })
}

#[test]
fn a_batch_counts_every_video_once() {
    let mut batch = CutBatch::new(plan(), CutMode::Precise, true);
    match batch.next(false) {
        BatchAction::Cut { index, request } => {
            assert_eq!(index, 0);
            assert_eq!(request.input, "/tv/e01.mkv");
            assert_eq!(request.output, "/out/e01_trimmed.mkv");
            assert_eq!(request.keep, vec![seg(100.0, 1440.0)]);
            assert_eq!(request.mode, CutMode::Precise);
            assert!(request.overwrite);
        }
        other => panic!("{other:?}"),
    }
    batch.finished(&cut_well("/out/e01_trimmed.mkv"));
    assert_eq!(
        batch.next(false),
        BatchAction::Skip { index: 1, line: "跳过（时长未知）".to_string() }
    );
    assert!(matches!(batch.next(false), BatchAction::Cut { index: 2, .. }));
    batch.finished(&Err(CoreError::Io("full".to_string())));
    assert_eq!(
        batch.next(false),
        BatchAction::Skip { index: 3, line: "跳过（未检测到片头片尾）".to_string() }
    );
    assert_eq!(batch.next(false), BatchAction::Done);
    assert_eq!(
        batch.summary,
        CutSummary { succeeded: 1, failed: 1, skipped: 2, produced_secs: secs(1340.0) }
    );
}

#[test]
fn a_batch_stops_when_the_user_does() {
    let mut batch = CutBatch::new(plan(), CutMode::Fast, false);
    assert!(matches!(batch.next(false), BatchAction::Cut { index: 0, .. }));
    batch.finished(&Err(CoreError::Cancelled));
    assert_eq!(batch.next(false), BatchAction::Done);
    assert_eq!(batch.summary, CutSummary { failed: 1, ..CutSummary::default() });

    let mut batch = CutBatch::new(plan(), CutMode::Fast, false);
    assert_eq!(batch.next(true), BatchAction::Done);
    assert_eq!(batch.next(false), BatchAction::Done);
    assert_eq!(batch.summary, CutSummary::default());
}

struct Counter(usize);

impl CutSink for Counter {
    fn line(&mut self, _task_index: usize, _line: &str) {
        self.0 += 1;
    }

    fn progress(&mut self, _task_index: usize, _fraction: Fraction) {
        self.0 += 10;
    }

    fn finished(&mut self, _task_index: usize, outcome: &Result<CutOutcome, CoreError>) {
        if outcome.is_ok() {
            self.0 += 100;
        }
    }
}

#[test]
fn sinks_can_be_written_by_users() {
    let mut sink = Counter(0);
    sink.line(0, "x");
    sink.progress(0, Fraction::Unknown);
    sink.finished(0, &cut_well("/o"));
    assert_eq!(sink.0, 111);
}
