//! Episodes, what was detected in them, and what of them is kept.
//!
//! Plain data and plain computation: nothing here touches the file system or
//! runs a program. Detection, cutting and the window share these types.

use vstd::arithmetic::div_mod::lemma_div_is_ordered_by_denominator;
use vstd::arithmetic::power::*;
use vstd::prelude::*;

use crate::binary::{
    binary, fraction, is_full, lemma_limits, rescaled, round_binary, scaled_by, seconds, to_seconds,
    Rounded,
};
use crate::numbers::{fixed, fixed_text, parse_time, parse_whole, spelled, whole_number, SECONDS};
use crate::paths::{file_name, file_name_of};
use crate::secs::{zero, Secs, NANOS_PER_SEC};
use crate::text::{
    chars_of, decimal, decimal_text, find_char, lemma_first_at, padded, padded_text, pieces,
    replace_char, replaced, split_chars, trim_chars, trimmed,
};

verus! {

/// A fragment that is shorter than this is not kept: half a second, in nanoseconds.
///
/// An edit of the times by hand easily leaves a gap of a few tenths of a second
/// between the opening and the ending. Such a gap is a slip, not a wish.
pub const MIN_KEEP_NANOS: i128 = 500_000_000;

/// A video file, with what is known of its content.
#[derive(Debug, PartialEq)]
pub struct EpisodeFile {
    /// The absolute path.
    pub path: String,
    /// The size in bytes.
    pub size_bytes: u64,
    /// The length. `None` where it could not be read; zero would pass for an
    /// empty video.
    pub duration_secs: Option<Secs>,
    pub width: Option<u32>,
    pub height: Option<u32>,
    /// Whether there is an audio stream. Detection fails without one.
    pub has_audio: bool,
}

impl Clone for EpisodeFile {
    fn clone(&self) -> (r: Self)
        ensures
            r == *self,
    {
        EpisodeFile {
            path: self.path.clone(),
            size_bytes: self.size_bytes,
            duration_secs: self.duration_secs,
            width: self.width,
            height: self.height,
            has_audio: self.has_audio,
        }
    }
}

/// How many bytes a kilobyte, a megabyte and a gigabyte have.
pub const KB: u64 = 1024;

pub const MB: u64 = 1_048_576;

pub const GB: u64 = 1_073_741_824;

/// A number of bytes, of which 53 binary digits count, in a unit.
pub open spec fn size_in(bytes: u64, unit: u64, places: nat) -> Seq<char> {
    let b = binary(bytes as nat, 1, 53);
    fixed(b.num(), b.den() * unit as nat, places)
}

fn write_size(bytes: u64, unit: u64, places: usize) -> (r: String)
    requires
        1 <= unit <= GB,
        places <= 3,
    ensures
        r@ == size_in(bytes, unit, places as nat),
{
    let b = round_binary(bytes as u128, 1, 53);
    proof {
        lemma_limits();
        let n = bytes as int;
        if b.e < -53 {
            let p = pow(2, (-b.e) as nat);
            lemma_pow_strictly_increases(2, 53, (-b.e) as nat);
            assert(n * p >= p) by (nonlinear_arith)
                requires
                    n >= 1,
                    p >= 0,
            ;
        }
        if b.e > 12 {
            let p = pow(2, b.e as nat);
            let top = pow(2, 53);
            lemma_pow_adds(2, 10, 3);
            reveal_with_fuel(pow, 4);
            lemma_pow_increases(2, 13, b.e as nat);
            assert(1 * p * top >= 8192 * top) by (nonlinear_arith)
                requires
                    p >= 8192,
                    top >= 0,
            ;
        }
    }
    let (num, den) = fraction(b);
    proof {
        assert(den <= pow(2, 53)) by {
            if b.e < 0 {
                lemma_pow_increases(2, (-b.e) as nat, 53);
                lemma_pow_positive(2, (-b.e) as nat);
            }
        }
        let d = den as int;
        let u = unit as int;
        assert(0 < d * u <= 9_007_199_254_740_992 * 1_073_741_824) by (nonlinear_arith)
            requires
                0 < d <= 9_007_199_254_740_992,
                1 <= u <= 1_073_741_824,
        ;
    }
    fixed_text(num, den * unit as u128, places)
}

/// A number of bytes in the largest unit of which there is at least one.
pub open spec fn size_text(bytes: u64) -> Seq<char> {
    if bytes >= GB {
        size_in(bytes, GB, 2) + " GB"@
    } else if bytes >= MB {
        size_in(bytes, MB, 1) + " MB"@
    } else if bytes >= KB {
        size_in(bytes, KB, 0) + " KB"@
    } else {
        decimal(bytes as nat) + " B"@
    }
}

impl EpisodeFile {
    /// The name under which the file is listed.
    pub open spec fn name_spec(self) -> Seq<char> {
        match file_name_of(self.path@) {
            Some(n) => n,
            None => self.path@,
        }
    }

    /// The name under which the file is listed: its file name, or the whole path
    /// where there is none.
    pub fn name(&self) -> (r: String)
        ensures
            r@ == self.name_spec(),
    {
        match file_name(self.path.as_str()) {
            Some(n) => n,
            None => self.path.clone(),
        }
    }

    /// The size of the file as text.
    pub fn display_size(&self) -> (r: String)
        ensures
            r@ == size_text(self.size_bytes),
    {
        let b: u128 = self.size_bytes as u128;
        if self.size_bytes >= GB {
            write_size(self.size_bytes, GB, 2).concat(" GB")
        } else if self.size_bytes >= MB {
            write_size(self.size_bytes, MB, 1).concat(" MB")
        } else if self.size_bytes >= KB {
            write_size(self.size_bytes, KB, 0).concat(" KB")
        } else {
            decimal_text(b).concat(" B")
        }
    }

    /// The length of the video as text.
    pub fn display_duration(&self) -> (r: String)
        ensures
            self.duration_secs matches Some(d) ==> r@ == stamp(d),
            self.duration_secs is None ==> r@ == "未知"@,
    {
        match self.duration_secs {
            Some(d) => format_timestamp(d),
            None => "未知".to_string(),
        }
    }

    /// The size of the picture as text, such as `1920x1080`.
    pub fn display_resolution(&self) -> (r: String)
        ensures
            (self.width, self.height) matches (Some(w), Some(h)) ==> r@ == decimal(w as nat) + "x"@
                + decimal(h as nat),
            self.width is None || self.height is None ==> r@ == "未知"@,
    {
        match (self.width, self.height) {
            (Some(w), Some(h)) => decimal_text(w as u128).concat("x").concat(
                decimal_text(h as u128).as_str(),
            ),
            _ => "未知".to_string(),
        }
    }
}

/// A stretch of time.
#[derive(Debug, Clone, Copy, PartialEq, Eq, Structural)]
pub struct Segment {
    pub start: Secs,
    pub end: Secs,
}

impl Segment {
    /// The length, which may be negative.
    pub open spec fn length(self) -> Secs {
        self.end.minus_spec(self.start)
    }

    /// Both ends are finite and the end comes after the start.
    pub open spec fn valid(self) -> bool {
        self.start.finite() && self.end.finite() && self.start.before(self.end)
    }

    /// Whether the moment, in nanoseconds, lies within.
    pub open spec fn covers(self, moment: int) -> bool {
        self.start.nanos() <= moment < self.end.nanos()
    }

    pub fn new(start: Secs, end: Secs) -> (r: Segment)
        ensures
            r == (Segment { start, end }),
    {
        Segment { start, end }
    }

    /// The length, which may be negative.
    pub fn duration(&self) -> (r: Secs)
        ensures
            r == self.length(),
    {
        self.end.minus(self.start)
    }

    /// Whether both ends are finite and the end comes after the start.
    pub fn is_valid(&self) -> (r: bool)
        ensures
            r == self.valid(),
    {
        self.start.is_finite() && self.end.is_finite() && self.start.lt(self.end)
    }

    /// `00:01:23.456 - 00:02:45.678`
    pub fn display(&self) -> (r: String)
        ensures
            r@ == stamp(self.start) + " - "@ + stamp(self.end),
    {
        format_timestamp(self.start).concat(" - ").concat(format_timestamp(self.end).as_str())
    }
}

/// What was detected in one episode.
///
/// That an episode has no opening is ordinary (a first episode often has none)
/// and no error.
#[derive(Debug, Clone, Copy, PartialEq, Eq, Structural)]
pub struct Detection {
    pub opening: Option<Segment>,
    pub ending: Option<Segment>,
}

impl Default for Detection {
    fn default() -> (r: Self)
        ensures
            r == (Detection { opening: None, ending: None }),
    {
        Detection { opening: None, ending: None }
    }
}

impl Detection {
    /// Whether nothing was detected.
    pub open spec fn empty(self) -> bool {
        self.opening is None && self.ending is None
    }

    /// Whether nothing was detected.
    pub fn is_empty(&self) -> (r: bool)
        ensures
            r == self.empty(),
    {
        self.opening.is_none() && self.ending.is_none()
    }
}

/// What is to be done with an episode.
#[derive(Debug, Clone, Copy, PartialEq, Eq, Structural)]
pub enum TaskKind {
    /// There is something to cut away, and something to keep.
    Ready,
    /// There is nothing to cut away: neither an opening nor an ending was found, or
    /// none within the video.
    NoDetection,
    /// The opening and the ending cover the whole video.
    NothingToKeep,
    /// The length is unknown, so nothing can be computed.
    DurationUnknown,
}

impl TaskKind {
    /// What the list shows for the kind.
    pub open spec fn label_spec(self) -> Seq<char> {
        match self {
            TaskKind::Ready => "待切割"@,
            TaskKind::NoDetection => "未检测到片头片尾"@,
            TaskKind::NothingToKeep => "无可保留内容"@,
            TaskKind::DurationUnknown => "时长未知"@,
        }
    }

    /// What the list shows for the kind.
    pub fn label(&self) -> (r: &'static str)
        ensures
            r@ == self.label_spec(),
    {
        match self {
            TaskKind::Ready => "待切割",
            TaskKind::NoDetection => "未检测到片头片尾",
            TaskKind::NothingToKeep => "无可保留内容",
            TaskKind::DurationUnknown => "时长未知",
        }
    }

    /// Whether the episode is to be cut: only a `Ready` one is.
    pub fn is_actionable(&self) -> (r: bool)
        ensures
            r == (self is Ready),
    {
        match self {
            TaskKind::Ready => true,
            _ => false,
        }
    }
}

/// An episode with all that is needed to cut it.
#[derive(Debug, PartialEq)]
pub struct EpisodeTask {
    pub file: EpisodeFile,
    pub detection: Detection,
    /// What is kept: ascending, without overlaps, as [`keep_segments`] says.
    pub keep: Vec<Segment>,
    pub output: String,
    pub kind: TaskKind,
}

impl Clone for EpisodeTask {
    fn clone(&self) -> (r: Self)
        ensures
            r.file == self.file,
            r.detection == self.detection,
            r.keep@ == self.keep@,
            r.output == self.output,
            r.kind == self.kind,
    {
        EpisodeTask {
            file: self.file.clone(),
            detection: self.detection,
            keep: copy_segments(&self.keep),
            output: self.output.clone(),
            kind: self.kind,
        }
    }
}

/// A copy of a list of segments.
pub fn copy_segments(list: &[Segment]) -> (r: Vec<Segment>)
    ensures
        r@ == list@,
{
    let mut out: Vec<Segment> = Vec::new();
    let mut i: usize = 0;
    while i < list.len()
        invariant
            i <= list@.len(),
            out@ == list@.take(i as int),
        decreases list@.len() - i,
    {
        out.push(list[i]);
        i += 1;
    }
    assert(list@.take(list@.len() as int) =~= list@);
    out
}

/// The lengths of all segments together.
pub open spec fn total_length(list: Seq<Segment>) -> Secs
    decreases list.len(),
{
    if list.len() == 0 {
        zero()
    } else {
        total_length(list.drop_last()).plus_spec(list.last().length())
    }
}

impl EpisodeTask {
    /// How much is kept; nothing is known where the length of the video is not.
    pub open spec fn kept_spec(self) -> Option<Secs> {
        match self.file.duration_secs {
            Some(_) => Some(total_length(self.keep@)),
            None => None,
        }
    }

    /// How much is cut away, never less than zero.
    pub open spec fn removed_spec(self) -> Option<Secs> {
        match self.file.duration_secs {
            Some(total) => Some(
                total.minus_spec(total_length(self.keep@)).at_least_zero_spec(),
            ),
            None => None,
        }
    }

    /// How much is kept.
    pub fn kept_secs(&self) -> (r: Option<Secs>)
        ensures
            r == self.kept_spec(),
    {
        match self.file.duration_secs {
            Some(_) => Some(sum_lengths(&self.keep)),
            None => None,
        }
    }

    /// How much is cut away.
    pub fn removed_secs(&self) -> (r: Option<Secs>)
        ensures
            r == self.removed_spec(),
    {
        match (self.file.duration_secs, self.kept_secs()) {
            (Some(total), Some(kept)) => Some(total.minus(kept).at_least_zero()),
            _ => None,
        }
    }
}

/// The lengths of all segments together.
pub fn sum_lengths(list: &[Segment]) -> (r: Secs)
    ensures
        r == total_length(list@),
{
    let mut sum = Secs::Finite(0);
    let mut i: usize = 0;
    while i < list.len()
        invariant
            i <= list@.len(),
            sum == total_length(list@.take(i as int)),
        decreases list@.len() - i,
    {
        assert(list@.take(i + 1).drop_last() =~= list@.take(i as int));
        sum = sum.plus(list[i].duration());
        i += 1;
    }
    assert(list@.take(list@.len() as int) =~= list@);
    sum
}

/// `n / den` rounded to the nearest whole number, up from the middle, and no
/// more than fits into 64 bits.
pub open spec fn rounded_up(n: nat, den: nat) -> nat {
    let q = if 2 * (n % den) >= den {
        n / den + 1
    } else {
        n / den
    };
    if q > u64::MAX {
        u64::MAX as nat
    } else {
        q
    }
}

fn round_up(b: Rounded) -> (r: u64)
    requires
        is_full(b@),
        -90 <= b.e <= 60,
    ensures
        r == rounded_up(b@.num(), b@.den()),
{
    let (n, den) = fraction(b);
    let whole: u128 = n / den;
    proof {
        lemma_limits();
        lemma_pow_increases(2, 113, 126);
        lemma_div_is_ordered_by_denominator(n as int, 1, den as int);
    }
    let q: u128 = if 2 * (n % den) >= den {
        whole + 1
    } else {
        whole
    };
    if q > u64::MAX as u128 {
        u64::MAX
    } else {
        q as u64
    }
}

/// The milliseconds of so many nanoseconds: the seconds, as 64 bits hold them, a
/// thousand times, rounded.
pub open spec fn millis(nanos: nat) -> nat {
    let b = scaled_by(seconds(nanos), 1000, 1);
    rounded_up(b.num(), b.den())
}

/// Hours, minutes and seconds of a number of seconds.
pub open spec fn clock_text(secs: nat) -> Seq<char> {
    padded(secs / 3600, 2) + ":"@ + padded((secs / 60) % 60, 2) + ":"@ + padded(secs % 60, 2)
}

/// Hours, minutes, seconds and milliseconds of a number of milliseconds.
pub open spec fn stamp_text(ms: nat) -> Seq<char> {
    clock_text(ms / 1000) + "."@ + padded(ms % 1000, 3)
}

/// A time as `HH:MM:SS.mmm`, to the nearest millisecond.
///
/// A time below zero, infinite or not a number was never read: it is written
/// `--:--:--`, which nobody takes for the beginning of the video.
pub open spec fn stamp(t: Secs) -> Seq<char> {
    if t.finite() && t.nanos() >= 0 {
        stamp_text(millis(t.nanos() as nat))
    } else {
        "--:--:--"@
    }
}

/// A time as `HH:MM:SS`, to the nearest second.
pub open spec fn clock(t: Secs) -> Seq<char> {
    if t.finite() && t.nanos() >= 0 {
        clock_text(rounded_up(seconds(t.nanos() as nat).num(), seconds(t.nanos() as nat).den()))
    } else {
        "--:--:--"@
    }
}

fn write_clock(secs: u64) -> (r: String)
    ensures
        r@ == clock_text(secs as nat),
{
    let h = padded_text((secs / 3600) as u128, 2);
    let m = padded_text(((secs / 60) % 60) as u128, 2);
    let s = padded_text((secs % 60) as u128, 2);
    h.concat(":").concat(m.as_str()).concat(":").concat(s.as_str())
}

/// A time as `HH:MM:SS.mmm`.
pub fn format_timestamp(secs: Secs) -> (r: String)
    ensures
        r@ == stamp(secs),
{
    match secs {
        Secs::Finite(n) => if n >= 0 {
            let ms = round_up(rescaled(to_seconds(n as u128), 1000, 1));
            write_clock(ms / 1000).concat(".").concat(
                padded_text((ms % 1000) as u128, 3).as_str(),
            )
        } else {
            "--:--:--".to_string()
        },
        _ => "--:--:--".to_string(),
    }
}

/// A time as `HH:MM:SS`, for where space is short.
pub fn format_clock(secs: Secs) -> (r: String)
    ensures
        r@ == clock(secs),
{
    match secs {
        Secs::Finite(n) => if n >= 0 {
            write_clock(round_up(to_seconds(n as u128)))
        } else {
            "--:--:--".to_string()
        },
        _ => "--:--:--".to_string(),
    }
}

/// A typed time without the space around it, with the colon, the comma and the
/// point that a Chinese keyboard gives written as a clock has them.
pub open spec fn normalised(input: Seq<char>) -> Seq<char> {
    replaced(replaced(replaced(trimmed(input), '：', ":"@), '，', "."@), ',', "."@)
}

/// The time on a clock of minutes and seconds, or hours, minutes and seconds.
/// Only the last part may be more than a whole number.
pub open spec fn clock_time(parts: Seq<Seq<char>>) -> Option<Secs> {
    if parts.len() == 2 {
        match (whole_number(trimmed(parts[0])), spelled(trimmed(parts[1]), SECONDS as int)) {
            (Some(m), Some(s)) => Some(
                crate::secs::of_nanos(m * 60 * NANOS_PER_SEC).plus_spec(s),
            ),
            _ => None,
        }
    } else if parts.len() == 3 {
        match (
            whole_number(trimmed(parts[0])),
            whole_number(trimmed(parts[1])),
            spelled(trimmed(parts[2]), SECONDS as int),
        ) {
            (Some(h), Some(m), Some(s)) => Some(
                crate::secs::of_nanos((h * 60 + m) * 60 * NANOS_PER_SEC).plus_spec(s),
            ),
            _ => None,
        }
    } else {
        None
    }
}

/// The time, if it is one at which a video can be.
pub open spec fn usable(t: Option<Secs>) -> Option<Secs> {
    match t {
        Some(Secs::Finite(n)) => if n >= 0 {
            t
        } else {
            None
        },
        _ => None,
    }
}

/// The time that a typed text stands for: `HH:MM:SS`, `HH:MM:SS.mmm`, `MM:SS`
/// or a number of seconds. Anything else stands for nothing.
pub open spec fn typed_time(input: Seq<char>) -> Option<Secs> {
    let s = normalised(input);
    usable(
        if s.contains(':') {
            clock_time(pieces(s, ':'))
        } else {
            spelled(s, SECONDS as int)
        },
    )
}

fn keep_usable(t: Option<Secs>) -> (r: Option<Secs>)
    ensures
        r == usable(t),
{
    match t {
        Some(Secs::Finite(n)) => if n >= 0 {
            t
        } else {
            None
        },
        _ => None,
    }
}

fn read_clock(parts: &[Vec<char>]) -> (r: Option<Secs>)
    ensures
        r == clock_time(parts@.map_values(|v: Vec<char>| v@)),
{
    if parts.len() < 2 || parts.len() > 3 {
        return None;
    }
    let first = match parse_whole(trim_chars(parts[0].as_slice())) {
        Some(v) => v,
        None => {
            return None;
        },
    };
    let mut total: i128 = first as i128;
    if parts.len() == 3 {
        let second = match parse_whole(trim_chars(parts[1].as_slice())) {
            Some(v) => v,
            None => {
                return None;
            },
        };
        total = total * 60 + second as i128;
    }
    let last = match parse_time(trim_chars(parts[parts.len() - 1].as_slice()), SECONDS) {
        Some(t) => t,
        None => {
            return None;
        },
    };
    Some(Secs::Finite(total * 60 * NANOS_PER_SEC).plus(last))
}

/// The time that a typed text stands for, or nothing. What cannot be read is
/// never taken for zero.
pub fn parse_timestamp(input: &str) -> (r: Option<Secs>)
    ensures
        r == typed_time(input@),
{
    let text = chars_of(input);
    let colon = chars_of(":");
    let point = chars_of(".");
    let a = replace_char(trim_chars(text.as_slice()), '：', colon.as_slice());
    let b = replace_char(a.as_slice(), '，', point.as_slice());
    let s = replace_char(b.as_slice(), ',', point.as_slice());
    proof {
        lemma_first_at(s@, ':');
    }
    if find_char(s.as_slice(), ':') < s.len() {
        let parts = split_chars(s.as_slice(), ':');
        keep_usable(read_clock(&parts))
    } else {
        keep_usable(parse_time(s.as_slice(), SECONDS))
    }
}

/// The part of a segment that lies within the video.
pub open spec fn within(s: Segment, duration: Secs) -> Segment {
    Segment { start: s.start.clamped(zero(), duration), end: s.end.clamped(zero(), duration) }
}

/// What is cut for one detected segment: its part within the video, if there is one.
pub open spec fn cut_for(s: Option<Segment>, duration: Secs) -> Seq<Segment> {
    match s {
        Some(s) => if within(s, duration).valid() {
            seq![within(s, duration)]
        } else {
            Seq::empty()
        },
        None => Seq::empty(),
    }
}

/// What is cut: the opening and the ending, the earlier one first.
pub open spec fn cuts(duration: Secs, d: Detection) -> Seq<Segment> {
    let a = cut_for(d.opening, duration);
    let b = cut_for(d.ending, duration);
    if a.len() > 0 && b.len() > 0 && b[0].start.before(a[0].start) {
        b + a
    } else {
        a + b
    }
}

/// Cuts in order, with those that overlap or touch made one.
pub open spec fn merged(list: Seq<Segment>) -> Seq<Segment>
    decreases list.len(),
{
    if list.len() == 0 {
        list
    } else {
        let before = merged(list.drop_last());
        let c = list.last();
        if before.len() > 0 && c.start.no_later(before.last().end) {
            if before.last().end.before(c.end) {
                before.drop_last().push(Segment { start: before.last().start, end: c.end })
            } else {
                before
            }
        } else {
            before.push(c)
        }
    }
}

/// Where the last cut ends; the beginning of the video where there is none.
pub open spec fn after(list: Seq<Segment>) -> Secs {
    if list.len() == 0 {
        zero()
    } else {
        list.last().end
    }
}

/// What lies before each cut, back to the one before it.
pub open spec fn gaps_before(list: Seq<Segment>) -> Seq<Segment>
    decreases list.len(),
{
    if list.len() == 0 {
        list
    } else {
        let front = gaps_before(list.drop_last());
        let from = after(list.drop_last());
        if from.before(list.last().start) {
            front.push(Segment { start: from, end: list.last().start })
        } else {
            front
        }
    }
}

/// What lies outside the cuts.
pub open spec fn gaps(list: Seq<Segment>, duration: Secs) -> Seq<Segment> {
    if after(list).before(duration) {
        gaps_before(list).push(Segment { start: after(list), end: duration })
    } else {
        gaps_before(list)
    }
}

/// The segments that are not shorter than half a second.
pub open spec fn long_ones(list: Seq<Segment>) -> Seq<Segment>
    decreases list.len(),
{
    if list.len() == 0 {
        list
    } else if !list.last().length().before(Secs::Finite(MIN_KEEP_NANOS)) {
        long_ones(list.drop_last()).push(list.last())
    } else {
        long_ones(list.drop_last())
    }
}

/// What is kept of a video: all that lies outside the cuts, without fragments
/// that are shorter than half a second. A video without cuts is kept whole, however short.
pub open spec fn kept(duration: Secs, d: Detection) -> Seq<Segment> {
    if !duration.finite() || duration.nanos() <= 0 {
        Seq::empty()
    } else if cuts(duration, d).len() == 0 {
        seq![Segment { start: zero(), end: duration }]
    } else {
        long_ones(gaps(merged(cuts(duration, d)), duration))
    }
}

fn collect_cuts(duration: Secs, d: &Detection) -> (r: Vec<Segment>)
    ensures
        r@ == cuts(duration, *d),
{
    let mut list: Vec<Segment> = Vec::new();
    let start = Secs::Finite(0);
    if let Some(s) = d.opening {
        let c = Segment::new(s.start.clamp(start, duration), s.end.clamp(start, duration));
        if c.is_valid() {
            list.push(c);
        }
    }
    assert(list@ =~= cut_for(d.opening, duration));
    if let Some(s) = d.ending {
        let c = Segment::new(s.start.clamp(start, duration), s.end.clamp(start, duration));
        if c.is_valid() {
            if list.len() > 0 && c.start.lt(list[0].start) {
                list.insert(0, c);
            } else {
                list.push(c);
            }
        }
    }
    assert(list@ =~= cuts(duration, *d));
    list
}

fn merge_cuts(list: &[Segment]) -> (r: Vec<Segment>)
    ensures
        r@ == merged(list@),
{
    let mut out: Vec<Segment> = Vec::new();
    let mut i: usize = 0;
    while i < list.len()
        invariant
            i <= list@.len(),
            out@ == merged(list@.take(i as int)),
        decreases list@.len() - i,
    {
        assert(list@.take(i + 1).drop_last() =~= list@.take(i as int));
        let c = list[i];
        let n = out.len();
        if n > 0 && c.start.le(out[n - 1].end) {
            let last = out[n - 1];
            if last.end.lt(c.end) {
                out.set(n - 1, Segment::new(last.start, c.end));
                assert(out@ =~= merged(list@.take(i as int)).drop_last().push(
                    Segment { start: last.start, end: c.end },
                ));
            }
        } else {
            out.push(c);
        }
        i += 1;
    }
    assert(list@.take(list@.len() as int) =~= list@);
    out
}

fn find_gaps(list: &[Segment], duration: Secs) -> (r: Vec<Segment>)
    ensures
        r@ == gaps(list@, duration),
{
    let mut out: Vec<Segment> = Vec::new();
    let mut cursor = Secs::Finite(0);
    let mut i: usize = 0;
    while i < list.len()
        invariant
            i <= list@.len(),
            out@ == gaps_before(list@.take(i as int)),
            cursor == after(list@.take(i as int)),
        decreases list@.len() - i,
    {
        assert(list@.take(i + 1).drop_last() =~= list@.take(i as int));
        let c = list[i];
        if cursor.lt(c.start) {
            out.push(Segment::new(cursor, c.start));
        }
        cursor = c.end;
        i += 1;
    }
    assert(list@.take(list@.len() as int) =~= list@);
    if cursor.lt(duration) {
        out.push(Segment::new(cursor, duration));
    }
    out
}

fn drop_short(list: &[Segment]) -> (r: Vec<Segment>)
    ensures
        r@ == long_ones(list@),
{
    let mut out: Vec<Segment> = Vec::new();
    let mut i: usize = 0;
    while i < list.len()
        invariant
            i <= list@.len(),
            out@ == long_ones(list@.take(i as int)),
        decreases list@.len() - i,
    {
        assert(list@.take(i + 1).drop_last() =~= list@.take(i as int));
        if !list[i].duration().lt(Secs::Finite(MIN_KEEP_NANOS)) {
            out.push(list[i]);
        }
        i += 1;
    }
    assert(list@.take(list@.len() as int) =~= list@);
    out
}

/// What is kept of a video of the given length.
///
/// The opening and the ending are stretches of their own. What lies before the
/// opening (a cold open) and behind the ending (a preview) is content and is
/// kept, so an episode usually falls into three pieces. Only where the opening
/// begins with the video and the ending lasts until its end is one piece left.
pub fn keep_segments(duration: Secs, detection: &Detection) -> (r: Vec<Segment>)
    ensures
        r@ == kept(duration, *detection),
{
    match duration {
        Secs::Finite(n) => if n <= 0 {
            return Vec::new();
        },
        _ => {
            return Vec::new();
        },
    }
    let cuts = collect_cuts(duration, detection);
    if cuts.len() == 0 {
        let mut whole: Vec<Segment> = Vec::new();
        whole.push(Segment::new(Secs::Finite(0), duration));
        assert(whole@ =~= kept(duration, *detection));
        return whole;
    }
    let merged = merge_cuts(&cuts);
    let gaps = find_gaps(&merged, duration);
    drop_short(&gaps)
}

} // verus!
