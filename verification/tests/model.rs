use intro_outro::model::{
    format_clock, format_timestamp, keep_segments, parse_timestamp, Detection, EpisodeFile,
    EpisodeTask, Segment, TaskKind,
};
use intro_outro::secs::Secs;

/// A time from a floating-point number of seconds.
fn secs(x: f64) -> Secs {
    if x.is_nan() {
        Secs::Nan
    } else if x == f64::INFINITY {
        Secs::PosInf
    } else if x == f64::NEG_INFINITY {
        Secs::NegInf
    } else {
        Secs::Finite((x * 1e9).round() as i128)
    }
}

/// A finite time as a floating-point number of seconds.
fn num(t: Secs) -> f64 {
    match t {
        Secs::Finite(n) => n as f64 / 1e9,
        other => panic!("{other:?}"),
    }
}

fn seg(start: f64, end: f64) -> Segment {
    Segment::new(secs(start), secs(end))
}

fn file() -> EpisodeFile {
    EpisodeFile {
        path: "/tv/e01.mkv".to_string(),
        size_bytes: 0,
        duration_secs: Some(secs(1440.0)),
        width: Some(1920),
        height: Some(1080),
        has_audio: true,
    }
}

#[test]
fn timestamp_formatting_pads_and_handles_garbage() {
    assert_eq!(format_timestamp(secs(0.0)), "00:00:00.000");
    assert_eq!(format_timestamp(secs(61.5)), "00:01:01.500");
    assert_eq!(format_timestamp(secs(3661.25)), "01:01:01.250");
    assert_eq!(format_timestamp(secs(-1.0)), "--:--:--");
    assert_eq!(format_timestamp(secs(f64::NAN)), "--:--:--");
    assert_eq!(format_timestamp(secs(f64::INFINITY)), "--:--:--");
}

#[test]
fn timestamp_parsing_accepts_all_three_documented_forms() {
    assert_eq!(parse_timestamp("90"), Some(secs(90.0)));
    assert_eq!(parse_timestamp("90.5"), Some(secs(90.5)));
    assert_eq!(parse_timestamp("01:30"), Some(secs(90.0)));
    assert_eq!(parse_timestamp("1:30"), Some(secs(90.0)));
    assert_eq!(parse_timestamp("00:01:30"), Some(secs(90.0)));
    assert_eq!(parse_timestamp("01:00:00"), Some(secs(3600.0)));
    assert_eq!(parse_timestamp("01:01:01.250"), Some(secs(3661.25)));
    assert_eq!(parse_timestamp(" 00：01：30 "), Some(secs(90.0)));
    assert_eq!(parse_timestamp("90，5"), Some(secs(90.5)));
}

#[test]
fn timestamp_parsing_rejects_garbage_instead_of_returning_zero() {
    assert_eq!(parse_timestamp(""), None);
    assert_eq!(parse_timestamp("abc"), None);
    assert_eq!(parse_timestamp("12:34:56:78"), None);
    assert_eq!(parse_timestamp(":"), None);
    assert_eq!(parse_timestamp("1.5:30"), None);
    assert_eq!(parse_timestamp("-5"), None);
}

#[test]
fn keep_segments_with_both_ends_removed_is_one_span() {
    let d = Detection {
        opening: Some(seg(0.0, 132.0)),
        ending: Some(seg(1331.0, 1440.0)),
    };
    let keep = keep_segments(secs(1440.0), &d);
    assert_eq!(keep.len(), 1);
    assert!((num(keep[0].start) - 132.0).abs() < 1e-9);
    assert!((num(keep[0].end) - 1331.0).abs() < 1e-9);
}

#[test]
fn keep_segments_keeps_the_cold_open_and_the_tail() {
    let d = Detection {
        opening: Some(seg(43.0, 132.0)),
        ending: Some(seg(1331.0, 1419.0)),
    };
    let keep = keep_segments(secs(1440.0), &d);
    assert_eq!(keep.len(), 3);
    assert!((num(keep[0].start) - 0.0).abs() < 1e-9);
    assert!((num(keep[0].end) - 43.0).abs() < 1e-9);
    assert!((num(keep[1].start) - 132.0).abs() < 1e-9);
    assert!((num(keep[1].end) - 1331.0).abs() < 1e-9);
    assert!((num(keep[2].start) - 1419.0).abs() < 1e-9);
    assert!((num(keep[2].end) - 1440.0).abs() < 1e-9);
}

#[test]
fn keep_segments_with_no_detection_keeps_whole_video() {
    let keep = keep_segments(secs(1440.0), &Detection::default());
    assert_eq!(keep, vec![seg(0.0, 1440.0)]);
}

#[test]
fn keep_segments_merges_overlapping_edits() {
    let d = Detection {
        opening: Some(seg(10.0, 100.0)),
        ending: Some(seg(50.0, 200.0)),
    };
    let keep = keep_segments(secs(300.0), &d);
    assert_eq!(keep.len(), 2);
    assert!((num(keep[0].start) - 0.0).abs() < 1e-9);
    assert!((num(keep[0].end) - 10.0).abs() < 1e-9);
    assert!((num(keep[1].start) - 200.0).abs() < 1e-9);
    assert!((num(keep[1].end) - 300.0).abs() < 1e-9);
}

#[test]
fn keep_segments_clamps_out_of_range_edits() {
    let d = Detection {
        opening: Some(seg(-30.0, 60.0)),
        ending: Some(seg(1380.0, 9999.0)),
    };
    let keep = keep_segments(secs(1440.0), &d);
    assert_eq!(keep.len(), 1);
    assert!((num(keep[0].start) - 60.0).abs() < 1e-9);
    assert!((num(keep[0].end) - 1380.0).abs() < 1e-9);
}

#[test]
fn keep_segments_drops_tiny_fragments() {
    let d = Detection {
        opening: Some(seg(0.0, 100.0)),
        ending: Some(seg(100.2, 300.0)),
    };
    let keep = keep_segments(secs(300.0), &d);
    assert!(keep.is_empty(), "低于 MIN_KEEP_SECS 的碎片应被丢弃");
}

#[test]
fn keep_segments_rejects_bad_duration() {
    assert!(keep_segments(secs(0.0), &Detection::default()).is_empty());
    assert!(keep_segments(secs(f64::NAN), &Detection::default()).is_empty());
}

#[test]
fn only_ready_tasks_are_actionable() {
    assert!(TaskKind::Ready.is_actionable());
    for k in [
        TaskKind::NoDetection,
        TaskKind::NothingToKeep,
        TaskKind::DurationUnknown,
    ] {
        assert!(!k.is_actionable(), "{k:?} 不应该被送进 ffmpeg");
    }
}

#[test]
fn fragments_shorter_than_half_a_second_are_dropped() {
    let d = |gap: f64| Detection {
        opening: Some(seg(0.0, 100.0)),
        ending: Some(seg(100.0 + gap, 300.0)),
    };
    assert_eq!(keep_segments(secs(300.0), &d(0.499999999)), vec![]);
    assert_eq!(keep_segments(secs(300.0), &d(0.5)), vec![seg(100.0, 100.5)]);
}

#[test]
fn a_short_video_without_detection_is_kept_whole() {
    let keep = keep_segments(secs(0.3), &Detection::default());
    assert_eq!(keep, vec![seg(0.0, 0.3)]);
}

#[test]
fn touching_and_reversed_detections_leave_no_gap() {
    // The ending touches the opening: one cut.
    let d = Detection {
        opening: Some(seg(10.0, 20.0)),
        ending: Some(seg(20.0, 30.0)),
    };
    assert_eq!(
        keep_segments(secs(40.0), &d),
        vec![seg(0.0, 10.0), seg(30.0, 40.0)]
    );
    // The ending comes before the opening and reaches past its end.
    let d = Detection {
        opening: Some(seg(15.0, 20.0)),
        ending: Some(seg(10.0, 30.0)),
    };
    assert_eq!(
        keep_segments(secs(40.0), &d),
        vec![seg(0.0, 10.0), seg(30.0, 40.0)]
    );
    // A segment that ends before it starts is no cut.
    let d = Detection {
        opening: Some(seg(20.0, 10.0)),
        ending: None,
    };
    assert_eq!(keep_segments(secs(40.0), &d), vec![seg(0.0, 40.0)]);
    // Nor is one that is not a number.
    let d = Detection {
        opening: Some(seg(f64::NAN, 10.0)),
        ending: Some(seg(30.0, f64::INFINITY)),
    };
    assert_eq!(keep_segments(secs(40.0), &d), vec![seg(0.0, 30.0)]);
}

#[test]
fn kept_and_removed_add_up() {
    let detection = Detection {
        opening: Some(seg(43.0, 132.0)),
        ending: Some(seg(1331.0, 1419.0)),
    };
    let task = EpisodeTask {
        file: file(),
        detection,
        keep: keep_segments(secs(1440.0), &detection),
        output: String::new(),
        kind: TaskKind::Ready,
    };
    assert_eq!(task.kept_secs(), Some(secs(1263.0)));
    assert_eq!(task.removed_secs(), Some(secs(177.0)));
    let unknown = EpisodeTask {
        file: EpisodeFile { duration_secs: None, ..file() },
        detection,
        keep: vec![],
        output: String::new(),
        kind: TaskKind::DurationUnknown,
    };
    assert_eq!(unknown.kept_secs(), None);
    assert_eq!(unknown.removed_secs(), None);
}

#[test]
fn shown_times_are_read_back() {
    for ms in [0i128, 1, 999, 59_999, 60_000, 3_599_999, 3_600_000, 359_999_999, 400_000_000_123] {
        let t = Secs::Finite(ms * 1_000_000);
        assert_eq!(parse_timestamp(&format_timestamp(t)), Some(t), "{ms}");
    }
    // Half a millisecond goes up.
    assert_eq!(format_timestamp(Secs::Finite(1_499_999)), "00:00:00.001");
    assert_eq!(format_timestamp(Secs::Finite(1_500_000)), "00:00:00.002");
    assert_eq!(parse_timestamp("--:--:--"), None);
}

#[test]
fn numbers_are_read_as_they_are_written() {
    assert_eq!(parse_timestamp("1e2"), Some(secs(100.0)));
    assert_eq!(parse_timestamp("1.5E-1"), Some(Secs::Finite(150_000_000)));
    assert_eq!(parse_timestamp("+.5"), Some(secs(0.5)));
    assert_eq!(parse_timestamp("5."), Some(secs(5.0)));
    assert_eq!(parse_timestamp("."), None);
    assert_eq!(parse_timestamp("1e"), None);
    assert_eq!(parse_timestamp("inf"), None);
    assert_eq!(parse_timestamp("NaN"), None);
    // A number is finite just as far as a double is.
    assert_eq!(parse_timestamp("1e40"), Some(Secs::Finite(i128::MAX)));
    assert_eq!(parse_timestamp("1.797693134862315e308"), Some(Secs::Finite(i128::MAX)));
    assert_eq!(parse_timestamp("1.7976931348623158e308"), Some(Secs::Finite(i128::MAX)));
    assert_eq!(parse_timestamp("1.7976931348623159e308"), None);
    assert_eq!(parse_timestamp("2e308"), None);
    assert_eq!(parse_timestamp("1e309"), None);
    for text in ["1.7976931348623158e308", "1.7976931348623159e308", "2e308"] {
        assert_eq!(text.parse::<f64>().unwrap().is_finite(), parse_timestamp(text).is_some());
    }
    assert_eq!(parse_timestamp("-1e40"), None);
    assert_eq!(parse_timestamp("1:2:3e1"), Some(secs(3750.0)));
    assert_eq!(parse_timestamp("+1: 2.5 "), Some(secs(62.5)));
    assert_eq!(parse_timestamp("-0:30"), None);
    assert_eq!(parse_timestamp("0:-1"), None);
    assert_eq!(parse_timestamp("1:-30"), Some(secs(30.0)));
    assert_eq!(parse_timestamp("18446744073709551616:00"), None);
    // More digits than a nanosecond are rounded, to the even neighbour in the middle.
    // Whatever is not zero keeps its sign.
    assert_eq!(parse_timestamp("0.0000000005"), Some(Secs::Finite(1)));
    assert_eq!(parse_timestamp("1e-10"), Some(Secs::Finite(1)));
    assert_eq!(parse_timestamp("-1e-10"), None);
    assert_eq!(parse_timestamp("1e-400"), Some(Secs::Finite(0)));
    for text in ["1e-324", "2.4703282292062327e-324", "2.4703282292062328e-324", "5e-324"] {
        let zero = text.parse::<f64>().unwrap() == 0.0;
        assert_eq!(parse_timestamp(text), Some(Secs::Finite(if zero { 0 } else { 1 })), "{text}");
        let negative = format!("-{text}");
        assert_eq!(parse_timestamp(&negative).is_some(), zero, "{text}");
    }
    assert_eq!(parse_timestamp("0e400"), Some(Secs::Finite(0)));
    assert_eq!(parse_timestamp("0.0000000015"), Some(Secs::Finite(2)));
    assert_eq!(parse_timestamp("0.00000000151"), Some(Secs::Finite(2)));
}

#[test]
fn clocks_round_to_seconds() {
    assert_eq!(format_clock(secs(3661.4)), "01:01:01");
    for ms in [0, 1, 1000, 1001, 1111, 4097, 86_399_999, 1_125_899_906_842_623u64] {
        let t = Secs::Finite(ms as i128 * 1_000_000);
        assert_eq!(parse_timestamp(&format_timestamp(t)), Some(t));
    }
    assert_eq!(format_timestamp(Secs::Finite(500_500_000)), "00:00:00.500");
    assert_eq!(format_timestamp(Secs::Finite(1_000_500_000)), "00:00:01.001");
    for half in [1000.5f64, 1001.5, 4097.5, 8003.5, 12345.5, 1.0e9 + 0.5] {
        let t = secs(half / 1000.0);
        let want = ((half / 1000.0) * 1000.0).round() as i128;
        assert_eq!(format_timestamp(t), format_timestamp(Secs::Finite(want * 1_000_000)));
    }
    assert_eq!(format_clock(secs(3661.5)), "01:01:02");
    assert_eq!(format_clock(secs(-0.1)), "--:--:--");
    assert_eq!(format_clock(secs(360000.0)), "100:00:00");
    assert_eq!(format_clock(Secs::Nan), "--:--:--");
}

#[test]
fn sizes_use_the_largest_unit() {
    let size = |n: u64| EpisodeFile { size_bytes: n, ..file() }.display_size();
    assert_eq!(size(0), "0 B");
    assert_eq!(size(1023), "1023 B");
    assert_eq!(size(1024), "1 KB");
    assert_eq!(size(1536), "2 KB");
    assert_eq!(size(2560), "2 KB");
    assert_eq!(size(1024 * 1024 - 1), "1024 KB");
    assert_eq!(size(1024 * 1024), "1.0 MB");
    assert_eq!(size(1_500_000), "1.4 MB");
    assert_eq!(size(1 << 30), "1.00 GB");
    assert_eq!(size(5_000_000_000), "4.66 GB");
}

#[test]
fn episodes_are_described() {
    let f = file();
    assert_eq!(f.name(), "e01.mkv");
    assert_eq!(f.display_duration(), "00:24:00.000");
    assert_eq!(f.display_resolution(), "1920x1080");
    let unknown = EpisodeFile {
        path: "/".to_string(),
        duration_secs: None,
        height: None,
        ..file()
    };
    assert_eq!(unknown.name(), "/");
    assert_eq!(unknown.display_duration(), "未知");
    assert_eq!(unknown.display_resolution(), "未知");
    assert_eq!(
        seg(83.456, 165.678).display(),
        "00:01:23.456 - 00:02:45.678"
    );
    assert_eq!(seg(10.0, 4.0).duration(), secs(-6.0));
    assert!(!seg(10.0, 10.0).is_valid());
    assert!(seg(-1.0, 10.0).is_valid());
    assert!(!seg(0.0, f64::INFINITY).is_valid());
    assert_eq!(TaskKind::Ready.label(), "待切割");
    assert_eq!(TaskKind::NoDetection.label(), "未检测到片头片尾");
    assert_eq!(TaskKind::NothingToKeep.label(), "无可保留内容");
    assert_eq!(TaskKind::DurationUnknown.label(), "时长未知");
}

#[test]
fn sums_of_finite_times_stay_finite() {
    let top = Secs::Finite(i128::MAX);
    let bottom = Secs::Finite(i128::MIN);
    assert_eq!(top.plus(Secs::Finite(1)), top);
    assert_eq!(bottom.minus(Secs::Finite(1)), bottom);
    assert_eq!(top.times(2), top);
    assert_eq!(top.plus(Secs::PosInf), Secs::PosInf);
    assert_eq!(Secs::PosInf.minus(Secs::PosInf), Secs::Nan);
    assert!(!Secs::Nan.le(Secs::Nan));
    assert_eq!(Secs::Nan.at_least_zero(), Secs::Finite(0));
    assert_eq!(Secs::Finite(25).tenth(), Secs::Finite(2));
    assert_eq!(Secs::Finite(-25).tenth(), Secs::Finite(-3));
    assert_eq!(Secs::from_secs(3), Secs::from_nanos(3_000_000_000));
}
