use intro_outro::error::CoreError;
use intro_outro::exec::Captured;
use intro_outro::model::Detection;
use intro_outro::probe::{
    first_line, parse_seconds, FfmpegTools, FfprobeFormat, FfprobeOutput, FfprobeStream, MediaInfo,
};
use intro_outro::secs::Secs;
use intro_outro::skipfile::{
    existing_frame_hash_paths, frame_hash_paths, interpret, read_detection, sidecar_paths,
    skip_file_path, FileText, RawSkipFile,
};
use serde_json::Value;

fn secs(x: f64) -> Secs {
    Secs::Finite((x * 1e9).round() as i128)
}

fn num(t: Secs) -> f64 {
    match t {
        Secs::Finite(n) => n as f64 / 1e9,
        other => panic!("{other:?}"),
    }
}

fn text_at(v: &Value, key: &str) -> Option<String> {
    v.get(key).and_then(|x| x.as_str()).map(|s| s.to_string())
}

fn number_at(v: &Value, key: &str) -> Option<u32> {
    v.get(key).and_then(|x| x.as_u64()).map(|n| n as u32)
}

fn ffprobe(json: &str) -> Result<FfprobeOutput, String> {
    let v: Value = serde_json::from_str(json).map_err(|e| e.to_string())?;
    let streams = match v.get("streams").and_then(|s| s.as_array()) {
        Some(list) => list
            .iter()
            .map(|s| FfprobeStream {
                codec_type: text_at(s, "codec_type"),
                codec_name: text_at(s, "codec_name"),
                width: number_at(s, "width"),
                height: number_at(s, "height"),
                duration: text_at(s, "duration"),
            })
            .collect(),
        None => vec![],
    };
    let format = v.get("format").map(|f| FfprobeFormat { duration: text_at(f, "duration") });
    Ok(FfprobeOutput { streams, format })
}

fn pair(v: &Value, key: &str) -> Option<(Secs, Secs)> {
    let list = v.get(key)?.as_array()?;
    Some((secs(list[0].as_f64()?), secs(list[1].as_f64()?)))
}

fn skip_file(json: &str) -> Result<RawSkipFile, String> {
    let v: Value = serde_json::from_str(json).map_err(|e| e.to_string())?;
    Ok(RawSkipFile {
        opening: pair(&v, "opening"),
        ending: pair(&v, "ending"),
        md5: text_at(&v, "md5"),
    })
}

fn tools() -> FfmpegTools {
    FfmpegTools { ffmpeg: "/bin/ffmpeg".to_string(), ffprobe: "/bin/ffprobe".to_string() }
}

fn captured(stdout: &str, stderr: &str) -> Captured {
    Captured { status: Some(1), stdout: stdout.to_string(), stderr: stderr.to_string() }
}

#[test]
fn parses_a_typical_mp4_probe() {
    let json = r#"{
            "streams": [
                {"codec_type":"video","codec_name":"h264","width":1920,"height":1080},
                {"codec_type":"audio","codec_name":"aac"}
            ],
            "format": {"duration":"1440.123456"}
        }"#;
    let p = ffprobe(json).unwrap();
    assert_eq!(p.streams.len(), 2);
    assert_eq!(
        p.format.as_ref().unwrap().duration.as_deref(),
        Some("1440.123456")
    );
    assert_eq!(
        p.media_info("/tv/a.mp4"),
        Ok(MediaInfo {
            duration_secs: Secs::Finite(1_440_123_456_000),
            width: Some(1920),
            height: Some(1080),
            has_audio: true,
            video_codec: Some("h264".to_string()),
            audio_codec: Some("aac".to_string()),
        })
    );
}

#[test]
fn parses_a_mkv_probe_with_missing_fields() {
    let json = r#"{
            "streams": [{"codec_type":"video","codec_name":"hevc"}],
            "format": {"duration":"1500.0","nb_streams":1}
        }"#;
    let p = ffprobe(json).unwrap();
    assert_eq!(p.streams[0].width, None);
    assert_eq!(p.streams[0].codec_name.as_deref(), Some("hevc"));
    let info = p.media_info("/tv/a.mkv").unwrap();
    assert_eq!(info.duration_secs, secs(1500.0));
    assert!(!info.has_audio);
}

#[test]
fn parses_probe_without_format_section() {
    let json = r#"{"streams":[{"codec_type":"video","duration":"600.5"}]}"#;
    let p = ffprobe(json).unwrap();
    assert!(p.format.is_none());
    assert_eq!(p.streams[0].duration.as_deref(), Some("600.5"));
    assert_eq!(p.media_info("/tv/a.mkv").unwrap().duration_secs, secs(600.5));
}

#[test]
fn duration_parser_rejects_non_numeric_junk() {
    assert_eq!(parse_seconds("1440.5"), Some(secs(1440.5)));
    assert_eq!(parse_seconds(" 1440 "), Some(secs(1440.0)));
    assert_eq!(parse_seconds("N/A"), None);
    assert_eq!(parse_seconds("nan"), None);
    assert_eq!(parse_seconds("inf"), None);
}

#[test]
fn videos_without_a_length_are_an_error() {
    let unknown = Err(CoreError::DurationUnknown("/tv/a.mkv".to_string()));
    let probe = |json: &str| ffprobe(json).unwrap().media_info("/tv/a.mkv");
    assert_eq!(probe("{}"), unknown);
    assert_eq!(probe(r#"{"format":{"duration":"0"}}"#), unknown);
    assert_eq!(probe(r#"{"format":{"duration":"-3"}}"#), unknown);
    assert_eq!(probe(r#"{"format":{"duration":"-1e-10"}}"#), unknown);
    assert_eq!(
        probe(r#"{"format":{"duration":"1e-10"}}"#).unwrap().duration_secs,
        Secs::Finite(1)
    );
    // Only the first video stream stands in for the container.
    assert_eq!(
        probe(r#"{"format":{"duration":"N/A"},"streams":[{"codec_type":"audio","duration":"9"}]}"#),
        unknown
    );
    assert_eq!(
        probe(r#"{"format":{"duration":"N/A"},"streams":[{"codec_type":"video","duration":"9"}]}"#)
            .unwrap()
            .duration_secs,
        secs(9.0)
    );
    // A container that says zero is believed.
    assert_eq!(
        probe(r#"{"format":{"duration":"0"},"streams":[{"codec_type":"video","duration":"9"}]}"#),
        unknown
    );
}

#[test]
fn ffprobe_is_asked_and_understood() {
    let cmd = tools().probe_command("/tv/a.mkv");
    assert_eq!(cmd.program, "/bin/ffprobe");
    assert_eq!(
        cmd.args,
        ["-v", "error", "-print_format", "json", "-show_format", "-show_streams", "/tv/a.mkv"]
    );
    // The exit code does not count.
    let out = captured("\n {\"format\":{\"duration\":\"5\"}} \n", "moov atom not found");
    let info = tools().probe("/tv/a.mkv", &Ok(out), ffprobe).unwrap();
    assert_eq!(info.duration_secs, secs(5.0));
    let out = captured("  oops \r\nmore", "");
    match tools().probe("/tv/a.mkv", &Ok(out), |_: &str| Err("bad".to_string())) {
        Err(CoreError::ParseFailed { what, detail }) => {
            assert_eq!(what, "ffprobe JSON");
            assert_eq!(detail, "bad；ffprobe 输出首行：oops");
        }
        other => panic!("{other:?}"),
    }
    assert_eq!(
        tools().probe("/tv/a.mkv", &Err("no such file".to_string()), ffprobe),
        Err(CoreError::Io("no such file".to_string()))
    );
}

#[test]
fn ffmpeg_tells_its_version() {
    assert_eq!(tools().version_command().args, ["-version"]);
    assert_eq!(
        tools().version(&captured("ffmpeg version 7.1 Copyright\nbuilt with gcc", "")),
        Ok("ffmpeg version 7.1 Copyright".to_string())
    );
    assert_eq!(
        tools().version(&captured(" \nffmpeg", " broken ")),
        Err(CoreError::ParseFailed {
            what: "ffmpeg -version",
            detail: "broken".to_string(),
        })
    );
    assert_eq!(first_line(""), "");
    assert_eq!(tools().clone(), tools());
}

#[test]
fn both_programs_of_ffmpeg_are_needed() {
    let dirs = vec!["/bin".to_string()];
    let found = FfmpegTools::discover("", None, &dirs, |_: &str| true).unwrap();
    assert_eq!(found, tools());
    assert_eq!(
        FfmpegTools::discover("", None, &dirs, |_: &str| false),
        Err(CoreError::ToolNotFound { tool: "ffmpeg" })
    );
    assert_eq!(
        FfmpegTools::discover("", Some("/x"), &dirs, |p: &str| p == "/x/bin/ffmpeg"),
        Err(CoreError::ToolNotFound { tool: "ffprobe" })
    );
}

#[test]
fn sidecar_paths_replace_the_extension() {
    let v = "/videos/Show.S01E01.1080p.mkv";
    assert_eq!(
        skip_file_path(v),
        "/videos/Show.S01E01.1080p.needle.skip.json"
    );
    assert_eq!(
        frame_hash_paths(v),
        vec![
            "/videos/Show.S01E01.1080p.needle.bin".to_string(),
            "/videos/Show.S01E01.1080p.needle.dat".to_string(),
        ]
    );
    assert_eq!(sidecar_paths(v).len(), 3);

    let v = "/videos/raw";
    assert_eq!(skip_file_path(v), "/videos/raw.needle.skip.json");
}

#[test]
fn parses_a_real_skip_file_payload() {
    let raw = skip_file(r#"{"opening":null,"ending":[1331.6644,1419.0249],"md5":"14bfa97f"}"#)
        .unwrap();
    let det = raw.to_detection();
    assert!(det.opening.is_none());
    let ending = det.ending.expect("应该解析出片尾");
    assert!((num(ending.start) - 1331.6644).abs() < 1e-3);
    assert!((num(ending.end) - 1419.0249).abs() < 1e-3);
}

#[test]
fn missing_md5_field_still_parses() {
    let raw = skip_file(r#"{"opening":[43.1,132.0],"ending":null}"#).unwrap();
    assert_eq!(raw.md5, None);
    assert!(raw.to_detection().opening.is_some());
}

#[test]
fn degenerate_segments_are_dropped() {
    let raw = RawSkipFile {
        opening: Some((secs(100.0), secs(100.0))),
        ending: Some((secs(200.0), secs(100.0))),
        md5: None,
    };
    assert!(raw.to_detection().is_empty());
}

#[test]
fn results_are_read_from_their_file() {
    let text = |s: &str| FileText::Text(s.to_string());
    assert_eq!(read_detection(&FileText::Missing, skip_file), Ok(None));
    assert_eq!(
        read_detection(&FileText::Unreadable("denied".to_string()), skip_file),
        Err(CoreError::Io("denied".to_string()))
    );
    // needle was killed while it wrote.
    assert_eq!(read_detection(&text(" \n "), skip_file), Ok(None));
    assert!(matches!(read_detection(&text("{"), skip_file), Err(CoreError::Json(_))));
    assert_eq!(read_detection(&text(r#"{"opening":[5,5]}"#), skip_file), Ok(None));
    let found = read_detection(&text(r#"{"opening":[1,5]}"#), skip_file).unwrap().unwrap();
    assert_eq!(found.opening.unwrap().start, secs(1.0));
    assert_eq!(found.ending, None);
    assert_eq!(interpret(Err("x".to_string())), Err(CoreError::Json("x".to_string())));
    assert_eq!(
        interpret(Ok(RawSkipFile { opening: None, ending: None, md5: None })),
        Ok::<Option<Detection>, CoreError>(None)
    );
}

#[test]
fn fingerprints_that_are_there_are_found() {
    let v = "/videos/a.mkv";
    assert_eq!(
        existing_frame_hash_paths(v, |p: &str| p.ends_with(".dat")),
        ["/videos/a.needle.dat"]
    );
    assert_eq!(existing_frame_hash_paths(v, |_: &str| true).len(), 2);
    assert!(existing_frame_hash_paths(v, |_: &str| false).is_empty());
}
