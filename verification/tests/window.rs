use intro_outro::app::messages::tools_dir;
use intro_outro::app::views::{
    font_hint, is_valid_field, level_color, view_row, PreviewView,
};
use intro_outro::app::{App, Busy, Effect, Launch, LogLevel};
use intro_outro::cut::{CutMode, CutOutcome, Cutter, Fraction};
use intro_outro::detect::cli::CliDetector;
use intro_outro::detect::DetectEvent;
use intro_outro::error::CoreError;
use intro_outro::fonts::choose_font;
use intro_outro::model::{Detection, EpisodeFile, Segment, TaskKind};
use intro_outro::pipeline::{build_tasks, CutSummary};
use intro_outro::probe::FfmpegTools;
use intro_outro::rows::{join_segment, resolve_field, split_text, Rgb, Row, RowStatus};
use intro_outro::secs::Secs;
use intro_outro::show::{non_empty, short_version, tool_tooltip, truncate};
use intro_outro::worker::{
    cut_info, preview_path, tools_checked, CutInfo, DetectorChoice, ToolInfo, WorkerMessage,
};

fn secs(x: f64) -> Secs {
    Secs::Finite((x * 1e9).round() as i128)
}

fn seg(start: f64, end: f64) -> Segment {
    Segment::new(secs(start), secs(end))
}

fn episode(name: &str, duration: Option<f64>) -> EpisodeFile {
    EpisodeFile {
        path: format!("/tv/{name}"),
        size_bytes: 2048,
        duration_secs: duration.map(secs),
        width: Some(1920),
        height: Some(1080),
        has_audio: true,
    }
}

fn tools() -> FfmpegTools {
    FfmpegTools { ffmpeg: "/bin/ffmpeg".to_string(), ffprobe: "/bin/ffprobe".to_string() }
}

fn info(needle: Option<&str>) -> ToolInfo {
    ToolInfo {
        ffmpeg: "/bin/ffmpeg".to_string(),
        ffmpeg_version: "ffmpeg version 7.1 Copyright".to_string(),
        needle: needle.map(String::from),
        needle_version: needle.map(|_| "needle-rs 0.1.5".to_string()),
    }
}

fn logs(app: &App) -> Vec<(LogLevel, &str)> {
    app.logs.iter().map(|l| (l.level, l.text.as_str())).collect()
}

/// A window in which both programs were found.
fn ready() -> App {
    let mut app = App::new(Some(4));
    let msg = WorkerMessage::ToolsChecked(Ok(info(Some("/bin/needle"))));
    app.handle_message(msg, Some(tools()));
    app
}

/// A window with two episodes on the list, the first with an opening.
fn listed() -> App {
    let mut app = ready();
    let files = vec![episode("e01.mkv", Some(1440.0)), episode("e02.mkv", Some(1440.0))];
    app.handle_message(WorkerMessage::ProbeDone(Ok(files)), None);
    let found = vec![
        Detection { opening: Some(seg(43.0, 132.0)), ending: None },
        Detection::default(),
    ];
    app.handle_message(WorkerMessage::DetectDone(Ok(found)), None);
    app.clear_log();
    app
}

#[test]
fn resolve_field_distinguishes_empty_from_invalid() {
    assert_eq!(resolve_field(""), Ok(None));
    assert_eq!(resolve_field("   "), Ok(None));
    assert_eq!(resolve_field("00:01:30"), Ok(Some(secs(90.0))));
    assert!(resolve_field("abc").is_err());
    assert!(resolve_field("12:99:99").is_ok());
}

#[test]
fn join_segment_rejects_reversed_ranges() {
    assert_eq!(join_segment(None, Some(secs(10.0))), None);
    assert_eq!(join_segment(Some(secs(10.0)), None), None);
    assert_eq!(join_segment(Some(secs(10.0)), Some(secs(5.0))), None);
    assert_eq!(
        join_segment(Some(secs(5.0)), Some(secs(10.0))),
        Some(seg(5.0, 10.0))
    );
}

#[test]
fn split_text_round_trips() {
    let (s, e) = split_text(Some(seg(90.0, 130.0)));
    assert_eq!(s, "00:01:30.000");
    assert_eq!(e, "00:02:10.000");
    assert_eq!(resolve_field(&s).unwrap(), Some(secs(90.0)));
    assert_eq!(resolve_field(&e).unwrap(), Some(secs(130.0)));

    let (s, e) = split_text(None);
    assert!(s.is_empty() && e.is_empty());
}

#[test]
fn short_version_extracts_the_number() {
    assert_eq!(
        short_version("ffmpeg version 7.1 Copyright (c) 2000-2024 the FFmpeg developers"),
        "7.1"
    );
    assert_eq!(short_version("怪东西"), "怪东西");
    assert_eq!(short_version("  a\tb \n c"), "c");
    assert_eq!(short_version("a b "), "a b ");
}

#[test]
fn truncate_handles_multibyte_text() {
    assert_eq!(truncate("短", 10), "短");
    let long = "剧集片头片尾批量去除工具";
    assert_eq!(truncate(long, 5).chars().count(), 5);
    assert!(truncate(long, 5).ends_with('…'));
    assert_eq!(truncate(long, 5), "剧集片头…");
    assert_eq!(truncate(long, 0), "…");
}

#[test]
fn non_empty_treats_whitespace_as_absent() {
    assert_eq!(non_empty(""), None);
    assert_eq!(non_empty("   "), None);
    assert_eq!(non_empty(" C:\\ffmpeg "), Some("C:\\ffmpeg".to_string()));
}

#[test]
fn a_new_window_waits_for_the_programs() {
    let app = App::new(Some(4));
    assert_eq!(app.status_line, "正在检查 ffmpeg / needle…");
    assert_eq!(app.out_suffix, "_trimmed");
    assert_eq!(app.busy, Busy::Idle);
    assert_eq!(app.detect_opts.analyze_parallelism, 2);
    assert_eq!(app.detector_label(), "未就绪");
    assert_eq!(app.backend_text(), "后端：未就绪");
    assert_eq!(tool_tooltip(&app.tool_info), "正在检查…");
}

#[test]
fn found_programs_are_taken_over() {
    let app = ready();
    assert_eq!(app.status_line, "ffmpeg：7.1　needle：needle-rs 0.1.5");
    assert_eq!(app.ffmpeg_dir, "/bin");
    assert_eq!(app.needle_dir, "/bin");
    assert_eq!(app.cutter, Some(Cutter::new("/bin/ffmpeg")));
    assert_eq!(app.detector, Some(DetectorChoice::Cli(CliDetector::new("/bin/needle"))));
    assert_eq!(
        logs(&app),
        vec![
            (LogLevel::Info, "ffmpeg：/bin/ffmpeg"),
            (LogLevel::Info, "needle：needle-rs 0.1.5"),
            (LogLevel::Info, "检测后端：needle 子进程"),
        ]
    );
    assert_eq!(
        tool_tooltip(&app.tool_info),
        "ffmpeg：/bin/ffmpeg\nffmpeg version 7.1 Copyright\nneedle：/bin/needle"
    );
    let lamp = app.tool_lamp();
    assert_eq!((lamp.label, lamp.note.as_str()), ("● ffmpeg 就绪", app.status_line.as_str()));
    assert_eq!(tools_dir(&info(None)).as_deref(), Some("/bin"));
    let bare = ToolInfo { ffmpeg: "ffmpeg".to_string(), ..info(None) };
    assert_eq!(tools_dir(&bare), None);
}

#[test]
fn missing_programs_are_told() {
    let mut app = App::new(None);
    app.handle_message(WorkerMessage::ToolsChecked(Ok(info(None))), Some(tools()));
    assert_eq!(app.status_line, "ffmpeg：7.1　needle：未找到");
    assert_eq!(app.detector, None);
    assert!(logs(&app)[1].1.starts_with("没找到 needle，自动检测不可用。"));
    assert_eq!(logs(&app)[1].0, LogLevel::Warn);
    assert!(tool_tooltip(&app.tool_info).ends_with("needle：未找到"));

    let mut app = App::new(None);
    app.handle_message(WorkerMessage::ToolsChecked(Err("没有".to_string())), None);
    assert_eq!(app.status_line, "ffmpeg 不可用");
    assert_eq!(app.tool_error.as_deref(), Some("没有"));
    assert_eq!(app.tool_lamp().label, "ffmpeg 未就绪");
    assert_eq!(app.tool_lamp().note, "没有");
    assert_eq!(logs(&app), vec![(LogLevel::Error, "没有")]);
}

#[test]
fn the_search_for_programs_is_summed_up() {
    let not_found = || CoreError::ToolNotFound { tool: "ffmpeg" };
    let found = tools_checked(
        Ok(tools()),
        Ok("v".to_string()),
        Ok(CliDetector::new("/n")),
        Ok("1".to_string()),
    )
    .unwrap();
    assert_eq!(found.needle.as_deref(), Some("/n"));
    assert_eq!(found.needle_version.as_deref(), Some("1"));
    let found =
        tools_checked(Ok(tools()), Err(not_found()), Err(not_found()), Ok("1".to_string())).unwrap();
    assert_eq!(found.ffmpeg_version, "版本未知");
    assert_eq!((found.needle, found.needle_version), (None, None));
    let error = tools_checked(Err(not_found()), Ok(String::new()), Err(not_found()), Err(not_found()));
    assert_eq!(error, Err(not_found().message()));
}

#[test]
fn new_videos_join_the_list() {
    let mut app = ready();
    app.clear_log();
    let scanned = Ok(vec!["/tv/e01.mkv".to_string()]);
    match app.add_inputs(scanned) {
        Some(Launch::Probe { tools: t, paths }) => {
            assert_eq!(t, tools());
            assert_eq!(paths, ["/tv/e01.mkv"]);
        }
        other => panic!("{other:?}"),
    }
    assert_eq!(app.busy, Busy::Probing);
    app.handle_message(
        WorkerMessage::ProbeProgress { current: 1, total: 1, name: "e01.mkv".to_string() },
        None,
    );
    assert_eq!(app.stage, "探测媒体信息：e01.mkv");
    assert_eq!(app.progress, Fraction::Of { part: 1, whole: 1 });
    assert_eq!(app.table_header().counter.as_deref(), Some("进度：1/1"));
    app.handle_message(WorkerMessage::ProbeDone(Ok(vec![episode("e01.mkv", Some(60.0))])), None);
    assert_eq!(app.busy, Busy::Idle);
    assert_eq!(app.stage, "");
    assert_eq!(app.out_dir.as_deref(), Some("/tv"));
    assert_eq!(app.rows[0].task.output, "/tv/e01_trimmed.mkv");
    assert_eq!(app.rows[0].task.kind, TaskKind::NoDetection);
    assert_eq!(app.status_line, "已导入 1 个文件");
    assert_eq!(
        logs(&app),
        vec![
            (LogLevel::Info, "开始探测 1 个新文件的媒体信息…"),
            (LogLevel::Info, "导入完成，共 1 个视频文件"),
            (LogLevel::Warn, "检测需要至少 2 集才能做跨集比对。只有 1 集时请手动填时间戳。"),
        ]
    );
    app.clear_log();
    // A second one goes behind it, and the first is not read again.
    let scanned = Ok(vec!["/tv//e01.mkv".to_string(), "/x/e02.mkv".to_string()]);
    match app.add_inputs(scanned) {
        Some(Launch::Probe { paths, .. }) => assert_eq!(paths, ["/x/e02.mkv"]),
        other => panic!("{other:?}"),
    }
    let second = EpisodeFile { path: "/x/e02.mkv".to_string(), ..episode("", None) };
    app.handle_message(WorkerMessage::ProbeDone(Ok(vec![second])), None);
    assert_eq!(app.rows.len(), 2);
    assert_eq!(app.rows[0].task.file.path, "/tv/e01.mkv");
    assert_eq!(app.rows[1].task.output, "/tv/e02_trimmed.mkv");
    assert_eq!(logs(&app).len(), 2);
}

#[test]
fn nothing_is_added_without_reason() {
    let mut app = listed();
    assert!(app.add_inputs(Ok(vec![])).is_none());
    assert_eq!(
        logs(&app).last().unwrap().1,
        "这些路径里没有找到视频文件（支持：mp4 / mkv / avi / mov / m4v / webm / ts / wmv / flv / mpg / mpeg）"
    );
    assert!(app.add_inputs(Ok(vec!["/tv/e02.mkv".to_string()])).is_none());
    assert_eq!(logs(&app).last().unwrap(), &(LogLevel::Info, "这些文件已经在列表里了"));
    assert!(app.add_inputs(Err(CoreError::Io("x".to_string()))).is_none());
    assert_eq!(logs(&app).last().unwrap(), &(LogLevel::Error, "扫描失败：IO 错误：x"));
    app.tools = None;
    assert!(app.add_inputs(Ok(vec!["/tv/e03.mkv".to_string()])).is_none());
    assert!(logs(&app).last().unwrap().1.starts_with("ffmpeg 不可用，无法读取视频信息。"));
    app.busy = Busy::Cutting;
    assert!(app.add_inputs(Ok(vec!["/tv/e03.mkv".to_string()])).is_none());
    assert_eq!(logs(&app).last().unwrap(), &(LogLevel::Warn, "任务进行中，暂不接受新文件"));
    app.handle_message(WorkerMessage::ProbeDone(Err("x".to_string())), None);
    assert_eq!(app.status_line, "探测失败");
    assert_eq!(app.rows.len(), 2);
}

#[test]
fn what_was_detected_goes_to_its_row() {
    let app = listed();
    assert_eq!(app.rows[0].opening_start, "00:00:43.000");
    assert_eq!(app.rows[0].opening_end, "00:02:12.000");
    assert_eq!(app.rows[0].ending_start, "");
    assert_eq!(app.rows[0].task.kind, TaskKind::Ready);
    assert_eq!(app.rows[0].task.keep, vec![seg(0.0, 43.0), seg(132.0, 1440.0)]);
    assert_eq!(app.rows[1].task.kind, TaskKind::NoDetection);
    assert_eq!(app.status_line, "检测完成，1 集有结果");

    let mut app = listed();
    app.handle_message(WorkerMessage::DetectDone(Err("x".to_string())), None);
    assert_eq!(logs(&app), vec![(LogLevel::Error, "检测失败：x")]);
    assert_eq!(app.status_line, "检测失败");
}

#[test]
fn openings_far_apart_are_warned_of() {
    let mut app = listed();
    let at = |t: f64| Detection { opening: Some(seg(t, t + 90.0)), ending: None };
    app.handle_message(WorkerMessage::DetectDone(Ok(vec![at(10.0), at(40.0)])), None);
    assert_eq!(logs(&app), vec![(LogLevel::Info, "检测完成：2 集里 2 集找到了片头或片尾")]);
    app.clear_log();
    app.handle_message(WorkerMessage::DetectDone(Ok(vec![at(10.0), at(50.25)])), None);
    assert_eq!(
        logs(&app)[1],
        (
            LogLevel::Warn,
            "各集片头起点相差 40 秒（最早 10.0s，最晚 50.2s），差异偏大。\
             请用右侧预览逐集确认切点，或检查这批文件是不是同一个剧集。"
        )
    );
}

#[test]
fn the_course_of_a_detection_is_shown() {
    let mut app = listed();
    app.handle_message(WorkerMessage::Detect(DetectEvent::Stage("x".to_string())), None);
    assert_eq!(app.stage, "x");
    app.handle_message(WorkerMessage::Detect(DetectEvent::Log("y".to_string())), None);
    let done = DetectEvent::EpisodeDone { index: 1, total: 2, name: "a".to_string() };
    app.handle_message(WorkerMessage::Detect(done), None);
    assert_eq!(app.progress, Fraction::Of { part: 1, whole: 2 });
    let failed = DetectEvent::EpisodeFailed {
        index: 2,
        total: 2,
        name: "b".to_string(),
        error: "e".to_string(),
    };
    app.handle_message(WorkerMessage::Detect(failed), None);
    assert_eq!(app.counter, (2, 2));
    assert_eq!(
        logs(&app),
        vec![
            (LogLevel::Info, "== x =="),
            (LogLevel::Info, "y"),
            (LogLevel::Info, "分析完成 [1/2] a"),
            (LogLevel::Warn, "分析失败 [2/2] b：e"),
        ]
    );
}

#[test]
fn typed_times_are_taken_over() {
    let mut app = listed();
    app.rows[1].opening_start = "1:00".to_string();
    app.rows[1].opening_end = "abc".to_string();
    app.rows[1].ending_end = "x".to_string();
    app.rows[1].apply_text_edits();
    assert_eq!(
        app.rows[1].edit_error.as_deref(),
        Some(
            "片头终点「abc」不是合法时间戳（可用 00:01:30 或 90.5 或 1:30）；\
             片尾终点「x」不是合法时间戳（可用 00:01:30 或 90.5 或 1:30）"
        )
    );
    assert!(app.rows[1].task.detection.is_empty());
    app.rows[1].opening_end = "90.5".to_string();
    app.rows[1].ending_end = " ".to_string();
    app.rows[1].apply_text_edits();
    assert_eq!(app.rows[1].edit_error, None);
    assert_eq!(app.rows[1].task.detection.opening, Some(seg(60.0, 90.5)));
    assert_eq!(app.rows[1].task.kind, TaskKind::Ready);
    app.reset_row(1);
    assert_eq!(app.rows[1].opening_start, "");
    assert!(app.rows[1].task.detection.is_empty());
    assert_eq!(app.rows[1].task.kind, TaskKind::NoDetection);
    app.reset_row(7);
    assert!(is_valid_field(" ") && is_valid_field("1:30") && !is_valid_field("1:x"));
}

#[test]
fn a_reset_brings_back_what_was_detected() {
    let mut app = listed();
    app.rows[0].opening_end = "140".to_string();
    app.rows[0].apply_text_edits();
    assert_eq!(app.rows[0].task.detection.opening, Some(seg(43.0, 140.0)));
    app.rows[0].reset_texts_from_detection();
    assert_eq!(app.rows[0].opening_start, "00:00:43.000");
    assert_eq!(app.rows[0].opening_end, "00:02:12.000");
    app.rows[0].opening_end = "abc".to_string();
    app.rows[0].apply_text_edits();
    app.rows[0].opening_start = String::new();
    app.rows[0].opening_end = String::new();
    app.rows[0].apply_text_edits();
    assert!(app.rows[0].task.detection.is_empty());
    assert!(view_row(&app.rows[0], 0, false).can_reset);
    app.reset_row(0);
    assert_eq!(app.rows[0].opening_end, "00:02:12.000");
    assert_eq!(app.rows[0].edit_error, None);
    assert_eq!(app.rows[0].task.detection.opening, Some(seg(43.0, 132.0)));
    assert_eq!(app.rows[0].task.keep, vec![seg(0.0, 43.0), seg(132.0, 1440.0)]);
}

#[test]
fn detection_needs_two_episodes_and_needle() {
    let mut app = listed();
    match app.start_detect() {
        Some(Launch::Detect { files, opts, .. }) => {
            assert_eq!(files, ["/tv/e01.mkv", "/tv/e02.mkv"]);
            assert_eq!(opts, app.detect_opts);
        }
        other => panic!("{other:?}"),
    }
    assert_eq!(app.busy, Busy::Detecting);
    assert_eq!(app.counter, (0, 2));
    assert_eq!(logs(&app), vec![(LogLevel::Info, "检测后端：needle 子进程（/bin/needle）")]);
    assert!(app.start_detect().is_none());

    let mut app = listed();
    app.detector = Some(DetectorChoice::Library);
    assert!(app.start_detect().is_some());
    assert_eq!(logs(&app)[1].0, LogLevel::Warn);

    let mut app = listed();
    app.detector = None;
    assert!(app.start_detect().is_none());
    assert_eq!(logs(&app)[0].0, LogLevel::Error);
    app.rows.pop();
    assert!(app.start_detect().is_none());
    assert!(logs(&app)[1].1.starts_with("检测需要至少 2 集。"));
}

#[test]
fn only_ready_episodes_are_queued() {
    let mut app = listed();
    app.out_suffix = "_x".to_string();
    match app.start_cut() {
        Some(Launch::Cut { tasks, mode, overwrite, cutter }) => {
            assert_eq!(tasks.len(), 2);
            assert_eq!(tasks[0].output, "/tv/e01_x.mkv");
            assert_eq!((mode, overwrite), (CutMode::Fast, false));
            assert_eq!(cutter, Cutter::new("/bin/ffmpeg"));
        }
        other => panic!("{other:?}"),
    }
    assert_eq!(app.rows[0].status, RowStatus::Queued);
    assert_eq!(app.rows[1].status, RowStatus::Skipped("未检测到片头片尾".to_string()));
    assert_eq!(app.stage, "开始切割");
    assert_eq!(
        logs(&app),
        vec![(LogLevel::Info, "开始切割 1 集，输出到 /tv（快速（流复制，无损））")]
    );
    assert!(app.start_cut().is_none());

    let mut app = listed();
    app.rows.remove(0);
    assert!(app.start_cut().is_none());
    assert!(logs(&app)[0].1.starts_with("没有可切割的剧集。"));
    app.out_dir = None;
    assert!(app.start_cut().is_none());
    assert_eq!(logs(&app)[1], (LogLevel::Warn, "还没选择输出目录"));
    app.cutter = None;
    assert!(app.start_cut().is_none());
    assert_eq!(logs(&app)[2], (LogLevel::Error, "ffmpeg 不可用，无法切割"));
}

#[test]
fn the_course_of_cutting_is_shown() {
    let mut app = listed();
    app.start_cut();
    app.clear_log();
    for i in 0..210 {
        let line = format!("l{i}");
        app.handle_message(WorkerMessage::CutLine { index: 0, line }, None);
    }
    assert_eq!(app.rows[0].log.len(), 200);
    assert_eq!(app.rows[0].log[0], "l10");
    let half = Fraction::Of { part: 1, whole: 2 };
    app.handle_message(WorkerMessage::CutProgress { index: 0, fraction: half }, None);
    assert_eq!(app.rows[0].progress, half);
    let over = Fraction::Of { part: 3, whole: 2 };
    app.handle_message(WorkerMessage::CutProgress { index: 0, fraction: over }, None);
    assert_eq!(app.rows[0].progress, Fraction::Of { part: 1, whole: 1 });
    app.handle_message(WorkerMessage::CutProgress { index: 9, fraction: half }, None);
    app.clear_log();
    let made = CutInfo { output: "/tv/e01_trimmed.mkv".to_string(), kept_secs: secs(1351.0) };
    app.handle_message(WorkerMessage::CutFinished { index: 0, result: Ok(made) }, None);
    assert_eq!(app.rows[0].status, RowStatus::Done { removed_secs: secs(89.0) });
    assert_eq!(app.rows[0].status.label(), "完成（去掉 89.0s）");
    app.handle_message(
        WorkerMessage::CutFinished { index: 1, result: Err("坏".to_string()) },
        None,
    );
    assert_eq!(app.rows[1].status, RowStatus::Failed("坏".to_string()));
    let sum = CutSummary { succeeded: 1, failed: 1, skipped: 0, produced_secs: secs(1351.0) };
    match app.handle_message(WorkerMessage::CutAllDone(sum), None) {
        Effect::OpenDir(d) => assert_eq!(d, "/tv"),
        other => panic!("{other:?}"),
    }
    assert_eq!(
        logs(&app),
        vec![
            (LogLevel::Info, "[1] 完成，保留 1351.0s -> e01_trimmed.mkv"),
            (LogLevel::Error, "[2] 失败：坏"),
            (LogLevel::Warn, "切割结束：成功 1，失败 1，跳过 0，共产出 22.5 分钟"),
        ]
    );
    assert_eq!(app.busy, Busy::Idle);
    let none = CutSummary { succeeded: 0, ..sum };
    assert!(matches!(app.handle_message(WorkerMessage::CutAllDone(none), None), Effect::Nothing));
}

#[test]
fn frames_are_asked_for_and_shown() {
    let mut app = listed();
    assert!(matches!(app.preview_view(), PreviewView::Hint));
    match app.request_preview(0) {
        Some(Launch::Preview { video, at_secs, index, .. }) => {
            assert_eq!(video, "/tv/e01.mkv");
            assert_eq!(at_secs, secs(132.0));
            assert_eq!(index, 0);
        }
        other => panic!("{other:?}"),
    }
    match app.preview_view() {
        PreviewView::Loading { title } => assert_eq!(title, "e01.mkv · 第 1 行"),
        other => panic!("{other:?}"),
    }
    let msg = WorkerMessage::PreviewReady {
        index: 0,
        png: "/tmp/x.png".to_string(),
        at_secs: secs(132.0),
    };
    match app.handle_message(msg, None) {
        Effect::LoadPicture { index, png, .. } => {
            assert_eq!((index, png.as_str()), (0, "/tmp/x.png"))
        }
        other => panic!("{other:?}"),
    }
    app.load_preview_texture(0, Ok(()), secs(132.0));
    match app.preview_view() {
        PreviewView::Picture { index, moment, .. } => {
            assert_eq!(index, 0);
            assert_eq!(moment.as_deref(), Some("时刻：00:02:12.000"));
        }
        other => panic!("{other:?}"),
    }
    app.load_preview_texture(0, Err("bad".to_string()), secs(1.0));
    match app.preview_view() {
        PreviewView::Failed { error, .. } => assert_eq!(error, "图片解码失败：bad"),
        other => panic!("{other:?}"),
    }
    app.request_preview(1);
    app.handle_message(
        WorkerMessage::PreviewFailed { index: 1, error: "x".to_string() },
        None,
    );
    assert_eq!(logs(&app), vec![(LogLevel::Warn, "抽帧预览失败：x")]);
    app.rows[1].preview.error = None;
    assert!(matches!(app.preview_view(), PreviewView::NoPicture { .. }));
    assert!(app.request_preview(5).is_none());
    app.clear_rows();
    assert_eq!(app.status_line, "列表已清空");
    app.preview_row = Some(3);
    assert!(matches!(app.preview_view(), PreviewView::Nothing));
    app.cutter = None;
    assert!(app.request_preview(0).is_none());
}

#[test]
fn frames_come_from_where_the_cut_is() {
    let task = |d: Detection, t: Option<f64>| {
        build_tasks(&[episode("a.mkv", t)], &[d], "/out", "_x").remove(0)
    };
    let end = Detection { opening: None, ending: Some(seg(1331.0, 1419.0)) };
    assert_eq!(Row::new(task(end, Some(1440.0))).preview_time(), secs(1331.0));
    let none = Detection::default();
    assert_eq!(Row::new(task(none, Some(1440.0))).preview_time(), secs(144.0));
    assert_eq!(Row::new(task(none, None)).preview_time(), secs(0.0));
}

#[test]
fn rows_show_what_is_known() {
    let mut app = listed();
    let v = view_row(&app.rows[0], 0, false);
    assert_eq!(v.number, "1");
    assert_eq!(v.name, "e01.mkv");
    assert_eq!(v.details, "2 KB · 00:24:00.000 · 1920x1080");
    assert!(!v.silent && v.can_preview && v.can_reset && !v.shows_progress);
    assert_eq!(v.keep, "00:00:00.000 - 00:00:43.000 + 00:02:12.000 - 00:24:00.000");
    assert_eq!(v.keep_short, "00:00:00.000 - 00:00:43.000 +…");
    assert_eq!(v.removed.as_deref(), Some("去掉 89.0s"));
    assert_eq!(v.status, "—");
    assert_eq!(v.color, Rgb { red: 110, green: 110, blue: 110 });
    assert_eq!(v.log, None);
    let v = view_row(&app.rows[1], 1, false);
    assert_eq!(v.status, "未检测到片头片尾");
    assert_eq!(v.color, Rgb { red: 150, green: 100, blue: 10 });
    assert!(!v.can_reset);
    app.rows[1].status = RowStatus::Cutting;
    app.rows[1].task.keep.clear();
    app.rows[1].log.push_back("a".to_string());
    app.rows[1].log.push_back("b".to_string());
    let v = view_row(&app.rows[1], 1, true);
    assert_eq!(v.keep, "—");
    assert_eq!(v.status, "切割中");
    assert_eq!(v.color, Rgb { red: 120, green: 180, blue: 255 });
    assert!(v.shows_progress);
    assert_eq!(v.log.as_deref(), Some("a\nb"));
}

#[test]
fn every_status_has_a_text_and_a_colour() {
    let dark = |s: RowStatus| s.color(true);
    assert_eq!(RowStatus::Queued.label(), "排队中");
    assert_eq!(RowStatus::Failed("e".to_string()).label(), "失败：e");
    assert_eq!(RowStatus::Skipped("r".to_string()).label(), "跳过：r");
    // The digits of the number that 64 bits hold decide, not those that are typed.
    for x in [30.15, 0.35, 0.25, 0.05, 2.675, 90.05, 1e9 / 7.0] {
        let done = RowStatus::Done { removed_secs: secs(x) };
        let exact = (x * 1e9).round() / 1e9;
        assert_eq!(done.label(), format!("完成（去掉 {exact:.1}s）"));
    }
    assert_eq!(dark(RowStatus::Queued), Rgb { red: 150, green: 150, blue: 150 });
    assert_eq!(
        dark(RowStatus::Done { removed_secs: secs(0.0) }),
        Rgb { red: 110, green: 210, blue: 130 }
    );
    assert_eq!(dark(RowStatus::Failed(String::new())), Rgb { red: 255, green: 130, blue: 130 });
    assert_eq!(dark(RowStatus::Skipped(String::new())), Rgb { red: 230, green: 190, blue: 110 });
    assert_eq!(level_color(LogLevel::Info), None);
    assert_eq!(level_color(LogLevel::Warn), Some(Rgb { red: 150, green: 100, blue: 10 }));
    assert_eq!(level_color(LogLevel::Error), Some(Rgb { red: 185, green: 28, blue: 28 }));
}

#[test]
fn the_header_sums_up_the_table() {
    let app = listed();
    let h = app.table_header();
    assert_eq!(h.title, "② 剧集列表（2 个文件）");
    assert_eq!(h.ready.as_deref(), Some("可切割 1 集"));
    assert_eq!(h.removed.as_deref(), Some("预计共去掉 1.5 分钟"));
    assert_eq!(h.counter, None);
    let h = App::new(None).table_header();
    assert_eq!((h.ready, h.removed), (None, None));
}

#[test]
fn the_log_keeps_the_last_thousand_lines() {
    let mut app = App::new(None);
    for i in 0..1005 {
        app.log(LogLevel::Info, &format!("{i}"));
    }
    assert_eq!(app.logs.len(), 1000);
    assert_eq!(app.logs[0].text, "5");
    assert_eq!(app.log_title(), "（1000 行）");
    app.clear_log();
    app.cancel_requested();
    app.log(LogLevel::Info, "x");
    assert_eq!(app.log_text(), "已请求取消，正在等待当前步骤停下…\nx");
}

#[test]
fn outputs_go_where_the_user_wants() {
    let mut app = listed();
    assert!(app.shows_fast_note());
    app.choose_output("/new");
    assert_eq!(app.out_label(), "/new");
    assert_eq!(app.status_line, "输出目录：/new");
    assert_eq!(app.rows[1].task.output, "/new/e02_trimmed.mkv");
    // Where that is the episode itself, the cutter refuses it.
    app.out_suffix = String::new();
    app.choose_output("/tv");
    assert_eq!(app.rows[1].task.output, app.rows[1].task.file.path);
    assert_eq!(App::new(None).out_label(), "（未选择）");
    app.choose_library(true);
    assert!(app.prefer_library);
    assert_eq!(app.detector, Some(DetectorChoice::Cli(CliDetector::new("/bin/needle"))));
    app.checking_tools();
    assert_eq!(app.status_line, "正在重新检查工具…");
    assert!(app.is_idle());
}

#[test]
fn the_first_usable_font_is_taken() {
    let found = choose_font(|p: &str| {
        if p.ends_with("PingFang.ttc") {
            Some(5000)
        } else if p.ends_with("Deng.ttf") {
            Some(1023)
        } else {
            None
        }
    });
    assert_eq!(found.loaded_from.as_deref(), Some("/System/Library/Fonts/PingFang.ttc"));
    assert_eq!(found.attempted.len(), 4);
    assert_eq!(found.attempted[1], r"C:\Windows\Fonts\Deng.ttf");
    assert_eq!(font_hint(&found), None);
    let none = choose_font(|_: &str| None);
    assert_eq!(none.loaded_from, None);
    assert_eq!(none.attempted.len(), 10);
    assert!(font_hint(&none).unwrap().starts_with("已尝试 10 处：\nC:\\Windows\\Fonts\\msyh.ttc\n"));
}

#[test]
fn results_of_cutting_are_passed_on() {
    let made = Ok(CutOutcome {
        output: "/o.mkv".to_string(),
        kept_secs: secs(5.0),
        segments: 1,
        used_concat: false,
    });
    assert_eq!(
        cut_info(&made),
        Ok(CutInfo { output: "/o.mkv".to_string(), kept_secs: secs(5.0) })
    );
    assert_eq!(cut_info(&Err(CoreError::Cancelled)), Err("任务已取消".to_string()));
    assert_eq!(
        preview_path("/tmp", 2, 99),
        "/tmp/intro-outro-remover-preview/frame-2-99.png"
    );
}
