use intro_outro::cut::job::{CutAction, CutEvent, CutFacts, CutStep};
use intro_outro::cut::{
    concat_list_line, parse_progress_line, same_file, temp_dir, CutMode, CutNote, CutObserver,
    CutOutcome, CutRequest, Cutter, Fraction, NoopObserver,
};
use intro_outro::error::CoreError;
use intro_outro::exec::{
    candidates, find_executable, push_capped, read_failure_line, watch_step, CommandLine,
    ExecResult, OutputTail, Stream, Watch,
};
use intro_outro::model::Segment;
use intro_outro::secs::Secs;

fn secs(x: f64) -> Secs {
    Secs::Finite((x * 1e9).round() as i128)
}

fn seg(start: f64, end: f64) -> Segment {
    Segment::new(secs(start), secs(end))
}

fn words(cmd: &CommandLine) -> Vec<&str> {
    let mut v = vec![cmd.program.as_str()];
    v.extend(cmd.args.iter().map(|a| a.as_str()));
    v
}

fn request(keep: Vec<Segment>) -> CutRequest {
    CutRequest {
        input: "/tv/e01.mkv".to_string(),
        output: "/out/e01_trimmed.mkv".to_string(),
        keep,
        mode: CutMode::Fast,
        overwrite: false,
    }
}

fn facts() -> CutFacts {
    CutFacts {
        input_real: Some("/tv/e01.mkv".to_string()),
        output_real: None,
        output_exists: false,
        pid: 42,
        nanos: 777,
    }
}

fn ran(code: i32) -> CutEvent {
    CutEvent::Ran(ExecResult {
        status: Some(code),
        cancelled: false,
        tail: vec!["last line".to_string()],
        stderr_tail: vec![],
    })
}

fn stopped() -> CutEvent {
    CutEvent::Ran(ExecResult { status: None, cancelled: true, tail: vec![], stderr_tail: vec![] })
}

fn finished(step: &CutStep) -> &Result<CutOutcome, CoreError> {
    match &step.action {
        CutAction::Finish(r) => r,
        other => panic!("{other:?}"),
    }
}

#[test]
fn parses_ffmpeg_progress_lines() {
    assert_eq!(parse_progress_line("out_time_us=1500000"), Some(secs(1.5)));
    assert_eq!(parse_progress_line("out_time_ms=2000000"), Some(secs(2.0)));
    assert_eq!(parse_progress_line("out_time=00:01:30.500000"), Some(secs(90.5)));
    assert_eq!(
        parse_progress_line("out_time=01:00:00.000000"),
        Some(secs(3600.0))
    );
}

#[test]
fn ignores_non_progress_lines() {
    assert_eq!(parse_progress_line("frame=123"), None);
    assert_eq!(parse_progress_line("progress=continue"), None);
    assert_eq!(parse_progress_line("bitrate=N/A"), None);
    assert_eq!(parse_progress_line("没有等号的一行"), None);
    assert_eq!(parse_progress_line("out_time=N/A"), None);
}

#[test]
fn progress_values_are_read_like_numbers() {
    assert_eq!(parse_progress_line(" out_time_us = 1 "), Some(Secs::Finite(1000)));
    assert_eq!(parse_progress_line("out_time_us=nan"), Some(Secs::Nan));
    assert_eq!(parse_progress_line("out_time=nan:0:0"), None);
    assert_eq!(parse_progress_line("out_time=-00:00:01.5"), Some(secs(1.5)));
    assert_eq!(parse_progress_line("out_time=00:-1:00"), Some(secs(-60.0)));
    assert_eq!(parse_progress_line("out_time=1:30"), None);
    assert_eq!(parse_progress_line("out_time_us=1=2"), None);
}

#[test]
fn concat_list_normalises_windows_paths_and_escapes_quotes() {
    let line = concat_list_line(r"C:\TV\Show S01E01\part_000.mkv");
    assert_eq!(line, "file 'C:/TV/Show S01E01/part_000.mkv'");

    let line = concat_list_line("/tv/it's here.mkv");
    assert_eq!(line, r"file '/tv/it'\''s here.mkv'");
}

#[test]
fn detects_same_file_by_canonical_path() {
    let real = |p: &str| Some(p.to_string());
    assert!(same_file("a.mkv", "a.mkv", &real("/tmp/a.mkv"), &real("/tmp/a.mkv")));
    assert!(!same_file("a.mkv", "b.mkv", &real("/tmp/a.mkv"), &real("/tmp/b.mkv")));
    assert!(!same_file("a.mkv", "b.mkv", &real("/tmp/a.mkv"), &None));
    // Where both really lead counts, and not how they are written.
    assert!(same_file("link.mkv", "a.mkv", &real("/tmp/a.mkv"), &real("/tmp/a.mkv")));
    // Without that the paths are compared step by step.
    assert!(same_file("/tv//a.mkv", "/tv/./a.mkv", &None, &None));
    assert!(!same_file("./a.mkv", "a.mkv", &None, &None));
}

#[test]
fn a_fast_cut_copies_all_streams() {
    let cutter = Cutter::new("/usr/bin/ffmpeg");
    let cmd = cutter.build_cut_command("in.mkv", "out.mkv", seg(132.0, 1331.25), CutMode::Fast, false);
    assert_eq!(
        words(&cmd),
        [
            "/usr/bin/ffmpeg", "-hide_banner", "-nostdin", "-nostats", "-loglevel", "info",
            "-progress", "pipe:1", "-ss", "132.000", "-i", "in.mkv", "-t", "1199.250", "-map", "0",
            "-c", "copy", "-avoid_negative_ts", "make_zero", "-n", "out.mkv",
        ]
    );
}

#[test]
fn a_precise_cut_encodes_anew() {
    let cutter = Cutter::new("ffmpeg");
    let cmd = cutter.build_cut_command("in.mkv", "out.mkv", seg(0.0004, 1.0016), CutMode::Precise, true);
    assert_eq!(
        words(&cmd),
        [
            "ffmpeg", "-hide_banner", "-nostdin", "-nostats", "-loglevel", "info", "-progress",
            "pipe:1", "-ss", "0.000", "-i", "in.mkv", "-t", "1.001", "-map", "0", "-c:v",
            "libx264", "-crf", "18", "-preset", "medium", "-pix_fmt", "yuv420p", "-c:a", "aac",
            "-b:a", "192k", "-c:s", "copy", "-avoid_negative_ts", "make_zero", "-y", "out.mkv",
        ]
    );
}

#[test]
fn a_frame_is_taken_at_the_moment() {
    let cutter = Cutter::new("ffmpeg");
    let cmd = cutter.frame_command("in.mkv", secs(-3.0), "/tmp/f.png");
    assert_eq!(
        words(&cmd),
        [
            "ffmpeg", "-hide_banner", "-nostdin", "-loglevel", "error", "-i", "in.mkv", "-ss",
            "0.000", "-frames:v", "1", "-q:v", "2", "-y", "/tmp/f.png",
        ]
    );
    assert_eq!(cutter.extract_frame(Err("no such file".to_string()), false), Err(CoreError::Io("no such file".to_string())));
    let ok = || ExecResult { status: Some(0), cancelled: false, tail: vec![], stderr_tail: vec![] };
    assert_eq!(cutter.extract_frame(Ok(ok()), true), Ok(()));
    assert_eq!(
        cutter.extract_frame(Ok(ok()), false),
        Err(CoreError::ParseFailed {
            what: "ffmpeg 抽帧",
            detail: "命令成功退出但没有产出图片".to_string(),
        })
    );
    let bad = ExecResult { status: Some(1), cancelled: false, tail: vec![], stderr_tail: vec!["x".to_string()] };
    assert_eq!(
        cutter.extract_frame(Ok(bad), true),
        Err(CoreError::CommandFailed {
            cmd: "ffmpeg 抽帧".to_string(),
            code: "退出码 1".to_string(),
            stderr: "x".to_string(),
        })
    );
}

#[test]
fn requests_that_must_not_be_cut_are_refused() {
    let cutter = Cutter::new("ffmpeg");
    let step = cutter.cut(request(vec![]), &facts());
    assert_eq!(finished(&step), &Err(CoreError::NothingToKeep("/tv/e01.mkv".to_string())));

    let mut same = request(vec![seg(0.0, 10.0)]);
    same.output = "/tv/./e01.mkv".to_string();
    let step = cutter.cut(same, &facts());
    assert_eq!(finished(&step), &Err(CoreError::OutputEqualsInput("/tv/e01.mkv".to_string())));

    let there = CutFacts { output_exists: true, ..facts() };
    let step = cutter.cut(request(vec![seg(0.0, 10.0)]), &there);
    assert_eq!(finished(&step), &Err(CoreError::OutputExists("/out/e01_trimmed.mkv".to_string())));

    // Nothing but empty segments: found out once the directory is there.
    let step = cutter.cut(request(vec![seg(5.0, 5.0)]), &facts());
    assert_eq!(step.action, CutAction::MakeDir("/out".to_string()));
    let step = step.job.step(CutEvent::Done);
    assert_eq!(finished(&step), &Err(CoreError::NothingToKeep("/tv/e01.mkv".to_string())));
}

#[test]
fn an_output_that_may_be_replaced_is() {
    let cutter = Cutter::new("ffmpeg");
    let there = CutFacts { output_exists: true, ..facts() };
    let req = CutRequest { overwrite: true, ..request(vec![seg(0.0, 10.0)]) };
    let step = cutter.cut(req, &there).job.step(CutEvent::Done);
    match &step.action {
        CutAction::Run(cmd) => assert!(words(cmd).contains(&"-y")),
        other => panic!("{other:?}"),
    }
}

#[test]
fn one_piece_is_cut_in_one_run() {
    let cutter = Cutter::new("ffmpeg");
    let step = cutter.cut(request(vec![seg(10.0, 30.0)]), &facts());
    assert_eq!(step.action, CutAction::MakeDir("/out".to_string()));
    let step = step.job.step(CutEvent::Done);
    match &step.action {
        CutAction::Run(cmd) => {
            assert_eq!(words(cmd).last(), Some(&"/out/e01_trimmed.mkv"));
            assert!(words(cmd).contains(&"-n"));
        }
        other => panic!("{other:?}"),
    }
    assert_eq!(
        step.job.note(Stream::Stdout, "out_time_us=5000000"),
        Some(CutNote::Progress(Fraction::Of { part: 5_000_000_000, whole: 20_000_000_000 }))
    );
    assert_eq!(
        step.job.note(Stream::Stdout, "out_time_us=99000000"),
        Some(CutNote::Progress(Fraction::Of { part: 1, whole: 1 }))
    );
    assert_eq!(step.job.note(Stream::Stdout, "fps=25"), None);
    assert_eq!(
        step.job.note(Stream::Stderr, "  Stream mapping: "),
        Some(CutNote::Line("Stream mapping:".to_string()))
    );
    assert_eq!(step.job.note(Stream::Stderr, "   "), None);
    let step = step.job.step(ran(0));
    assert_eq!(step.notes, vec![CutNote::Progress(Fraction::Of { part: 1, whole: 1 })]);
    assert_eq!(
        finished(&step),
        &Ok(CutOutcome {
            output: "/out/e01_trimmed.mkv".to_string(),
            kept_secs: secs(20.0),
            segments: 1,
            used_concat: false,
        })
    );
}

#[test]
fn a_failed_run_leaves_no_output_behind() {
    let cutter = Cutter::new("ffmpeg");
    let start = || cutter.cut(request(vec![seg(10.0, 30.0)]), &facts()).job.step(CutEvent::Done);
    let step = start().job.step(ran(1));
    assert_eq!(step.action, CutAction::RemoveFile("/out/e01_trimmed.mkv".to_string()));
    let step = step.job.step(CutEvent::Done);
    assert_eq!(
        finished(&step),
        &Err(CoreError::CommandFailed {
            cmd: "ffmpeg 切割 /tv/e01.mkv".to_string(),
            code: "退出码 1".to_string(),
            stderr: "last line".to_string(),
        })
    );
    let step = start().job.step(stopped());
    assert_eq!(step.action, CutAction::RemoveFile("/out/e01_trimmed.mkv".to_string()));
    let step = step.job.step(CutEvent::Failed("busy".to_string()));
    assert_eq!(finished(&step), &Err(CoreError::Cancelled));
    let step = start().job.step(CutEvent::Failed("no ffmpeg".to_string()));
    assert_eq!(finished(&step), &Err(CoreError::Io("no ffmpeg".to_string())));
}

#[test]
fn several_pieces_are_cut_and_joined() {
    let cutter = Cutter::new("ffmpeg");
    let temp = "/out/.intro-outro-tmp-42-777";
    let step = cutter.cut(request(vec![seg(0.0, 43.0), seg(132.0, 1331.0)]), &facts());
    let step = step.job.step(CutEvent::Done);
    assert_eq!(step.action, CutAction::MakeDir(temp.to_string()));
    let step = step.job.step(CutEvent::Done);
    assert_eq!(
        step.notes,
        vec![CutNote::Line("—— 第 1/2 段：00:00:00.000 → 00:00:43.000".to_string())]
    );
    match &step.action {
        CutAction::Run(cmd) => {
            assert_eq!(words(cmd).last().unwrap(), &format!("{temp}/part_000.mkv"));
            assert!(words(cmd).contains(&"-y"));
        }
        other => panic!("{other:?}"),
    }
    let step = step.job.step(ran(0));
    assert_eq!(
        step.notes,
        vec![CutNote::Line("—— 第 2/2 段：00:02:12.000 → 00:22:11.000".to_string())]
    );
    assert_eq!(
        step.job.note(Stream::Stdout, "out_time=00:00:01.000000"),
        Some(CutNote::Progress(Fraction::Of { part: 44_000_000_000, whole: 1_242_000_000_000 }))
    );
    let step = step.job.step(ran(0));
    assert_eq!(
        step.action,
        CutAction::Write {
            path: format!("{temp}/concat.txt"),
            text: format!("file '{temp}/part_000.mkv'\nfile '{temp}/part_001.mkv'\n"),
        }
    );
    let step = step.job.step(CutEvent::Done);
    assert_eq!(step.notes, vec![CutNote::Line("—— 拼接分段".to_string())]);
    match &step.action {
        CutAction::Run(cmd) => assert_eq!(
            words(cmd),
            [
                "ffmpeg", "-hide_banner", "-nostdin", "-nostats", "-loglevel", "info",
                "-progress", "pipe:1", "-f", "concat", "-safe", "0", "-i",
                "/out/.intro-outro-tmp-42-777/concat.txt", "-c", "copy", "-avoid_negative_ts",
                "make_zero", "-y", "/out/e01_trimmed.mkv",
            ]
        ),
        other => panic!("{other:?}"),
    }
    assert_eq!(
        step.job.note(Stream::Stdout, "out_time=00:00:01.000000"),
        Some(CutNote::Progress(Fraction::Of { part: 1, whole: 1 }))
    );
    let step = step.job.step(ran(0));
    assert_eq!(step.notes, vec![CutNote::Progress(Fraction::Of { part: 1, whole: 1 })]);
    assert_eq!(step.action, CutAction::RemoveDir(temp.to_string()));
    let step = step.job.step(CutEvent::Failed("busy".to_string()));
    assert_eq!(
        finished(&step),
        &Ok(CutOutcome {
            output: "/out/e01_trimmed.mkv".to_string(),
            kept_secs: secs(1242.0),
            segments: 2,
            used_concat: true,
        })
    );
}

#[test]
fn pieces_are_removed_when_something_fails() {
    let cutter = Cutter::new("ffmpeg");
    let temp = CutAction::RemoveDir("/out/.intro-outro-tmp-42-777".to_string());
    let parts = || {
        let step = cutter.cut(request(vec![seg(0.0, 43.0), seg(132.0, 1331.0)]), &facts());
        step.job.step(CutEvent::Done).job.step(CutEvent::Done)
    };
    // A piece fails.
    let step = parts().job.step(ran(0)).job.step(ran(-9));
    assert_eq!(step.action, temp);
    let step = step.job.step(CutEvent::Done);
    assert_eq!(
        finished(&step),
        &Err(CoreError::CommandFailed {
            cmd: "ffmpeg 切割第 2 段".to_string(),
            code: "退出码 -9".to_string(),
            stderr: "last line".to_string(),
        })
    );
    // The user stops it.
    let step = parts().job.step(stopped());
    assert_eq!(step.action, temp);
    assert_eq!(finished(&step.job.step(CutEvent::Done)), &Err(CoreError::Cancelled));
    // The list cannot be written.
    let step = parts().job.step(ran(0)).job.step(ran(0));
    let step = step.job.step(CutEvent::Failed("full".to_string()));
    assert_eq!(step.action, temp);
    assert_eq!(finished(&step.job.step(CutEvent::Done)), &Err(CoreError::Io("full".to_string())));
    // The pieces cannot be joined: first the output goes, and then the pieces.
    let step = parts().job.step(ran(0)).job.step(ran(0)).job.step(CutEvent::Done).job.step(ran(1));
    assert_eq!(step.action, CutAction::RemoveFile("/out/e01_trimmed.mkv".to_string()));
    let step = step.job.step(CutEvent::Done);
    assert_eq!(step.action, temp);
    assert!(finished(&step.job.step(CutEvent::Done)).is_err());
}

#[test]
fn fractions_stay_between_nothing_and_all() {
    let all = Fraction::Of { part: 1, whole: 1 };
    let none = Fraction::Of { part: 0, whole: 1 };
    assert_eq!(Fraction::new(secs(-1.0), secs(10.0)), none);
    assert_eq!(Fraction::new(secs(10.0), secs(10.0)), all);
    assert_eq!(Fraction::new(Secs::PosInf, secs(10.0)), all);
    assert_eq!(Fraction::new(Secs::NegInf, secs(10.0)), none);
    assert_eq!(Fraction::new(secs(5.0), Secs::PosInf), none);
    assert_eq!(Fraction::new(Secs::Nan, secs(10.0)), Fraction::Unknown);
    assert_eq!(Fraction::new(secs(5.0), Secs::Nan), Fraction::Unknown);
}

#[test]
fn the_directory_for_pieces_is_beside_the_output() {
    assert_eq!(temp_dir("/out/a.mkv", 1, 2), "/out/.intro-outro-tmp-1-2");
    assert_eq!(temp_dir("a.mkv", 1, 2), "./.intro-outro-tmp-1-2");
    assert_eq!(temp_dir(r"D:\out\a.mkv", 1, 2), r"D:\out\.intro-outro-tmp-1-2");
    assert_eq!(temp_dir("/a.mkv", 1, 2), "/.intro-outro-tmp-1-2");
}

#[test]
fn the_tail_keeps_the_last_lines() {
    let mut tail = OutputTail::new();
    for i in 0..250 {
        let stream = if i % 2 == 0 { Stream::Stdout } else { Stream::Stderr };
        tail.line(stream, &format!("line {i}"));
    }
    assert_eq!(tail.tail.len(), 200);
    assert_eq!(tail.tail[0], "line 50");
    assert_eq!(tail.tail[199], "line 249");
    assert_eq!(tail.stderr_tail.len(), 125);
    let res = tail.finish(Some(3), false);
    assert_eq!(res.code(), Some(3));
    assert!(!res.success());
    assert!(res.tail_text().starts_with("line 1\nline 3\n"));

    let mut lines = vec![];
    push_capped(&mut lines, "only");
    assert_eq!(lines, ["only"]);
}

#[test]
fn exit_codes_are_put_into_words() {
    let res = |status, cancelled| ExecResult {
        status,
        cancelled,
        tail: vec!["a".to_string(), "b".to_string()],
        stderr_tail: vec![],
    };
    assert!(res(Some(0), false).success());
    assert!(!res(Some(0), true).success());
    assert!(res(Some(0), false).into_error("x").is_ok());
    assert!(res(Some(1), true).into_error("x").is_ok());
    assert_eq!(
        res(None, false).into_error("x").unwrap_err(),
        CoreError::CommandFailed {
            cmd: "x".to_string(),
            code: "进程被强制终止，无退出码".to_string(),
            stderr: "a\nb".to_string(),
        }
    );
    assert_eq!(
        res(Some(i32::MIN), false).into_error("x").unwrap_err().message(),
        "x 执行失败（退出码 -2147483648）"
    );
    assert_eq!(Stream::Stdout.label(), "stdout");
    assert_eq!(Stream::Stderr.label(), "stderr");
    assert_eq!(read_failure_line("eof"), "<读取输出失败：eof>");
    assert_eq!(watch_step(true, true), Watch::Stop);
    assert_eq!(watch_step(false, true), Watch::Kill);
    assert_eq!(watch_step(false, false), Watch::Wait);
}

#[test]
fn programs_are_looked_for_where_the_user_says_first() {
    let dirs = vec!["/usr/bin".to_string(), "/opt/bin".to_string()];
    assert_eq!(
        candidates("ffmpeg", ".exe", Some("/tools"), &dirs),
        [
            "/tools/ffmpeg.exe",
            "/tools/bin/ffmpeg.exe",
            "/usr/bin/ffmpeg.exe",
            "/opt/bin/ffmpeg.exe",
        ]
    );
    assert_eq!(
        candidates("ffmpeg", "", Some(r"C:\tools"), &[]),
        [r"C:\tools\ffmpeg", r"C:\tools\bin\ffmpeg"]
    );
    let found = find_executable("ffmpeg", "", Some("/tools"), &dirs, |p: &str| {
        p == "/tools/bin/ffmpeg" || p == "/usr/bin/ffmpeg"
    });
    assert_eq!(found.as_deref(), Some("/tools/bin/ffmpeg"));
    let found = find_executable("ffmpeg", "", None, &dirs, |p: &str| p == "/opt/bin/ffmpeg");
    assert_eq!(found.as_deref(), Some("/opt/bin/ffmpeg"));
    assert_eq!(find_executable("ffmpeg", "", None, &dirs, |_: &str| false), None);
}

#[test]
fn modes_and_observers() {
    assert_eq!(CutMode::Fast.label(), "快速（流复制，无损）");
    assert_eq!(CutMode::Precise.label(), "精确（重新编码，帧精确）");
    assert!(!CutMode::Fast.is_frame_accurate());
    assert!(CutMode::Precise.is_frame_accurate());
    let mut quiet = NoopObserver;
    quiet.line("x");
    quiet.progress(Fraction::Unknown);
}

#[test]
fn errors_are_told_to_the_user() {
    let p = || "/a.mkv".to_string();
    let told = |e: CoreError| e.message();
    assert_eq!(
        told(CoreError::ToolNotFound { tool: "ffmpeg" }),
        "未找到 ffmpeg，请先安装它并确保它在 PATH 中，或在本工具里手动指定其所在目录"
    );
    assert_eq!(
        told(CoreError::OutputExists(p())),
        "输出文件已存在：/a.mkv（勾选「覆盖已存在的输出文件」可以覆盖它）"
    );
    assert_eq!(
        told(CoreError::ParseFailed { what: "x", detail: "y".to_string() }),
        "解析 x 的输出失败：y"
    );
    assert_eq!(told(CoreError::DurationUnknown(p())), "无法从视频中读出时长：/a.mkv");
    assert_eq!(told(CoreError::NoAudioStream(p())), "文件不含音轨，needle 无法分析：/a.mkv");
    assert_eq!(
        told(CoreError::NotEnoughEpisodes(1)),
        "只找到 1 个视频文件；跨集比对至少需要 2 集才能工作"
    );
    assert_eq!(
        told(CoreError::NoDetectionAtAll),
        "检测完成，但没有任何剧集找到公共片头或片尾（这些剧集之间可能本来就没有相同片头）"
    );
    assert_eq!(told(CoreError::Cancelled), "任务已取消");
    assert_eq!(
        told(CoreError::OutputEqualsInput(p())),
        "输出路径与输入相同，拒绝执行以免覆盖源文件：/a.mkv"
    );
    assert_eq!(
        told(CoreError::NothingToKeep(p())),
        "片头片尾覆盖了整段视频，没有可保留的内容：/a.mkv"
    );
    assert_eq!(told(CoreError::Io("e".to_string())), "IO 错误：e");
    assert_eq!(told(CoreError::Json("e".to_string())), "JSON 解析错误：e");
    assert_eq!(CoreError::Cancelled.clone(), CoreError::Cancelled);
}
