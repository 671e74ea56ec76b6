//! The rows of the table: an episode, the times as the user types them, and how
//! far the cutting of it has come.

use std::collections::VecDeque;

use vstd::prelude::*;

use crate::cut::Fraction;
use crate::model::{
    format_timestamp, parse_timestamp, stamp, typed_time, Detection, EpisodeTask, Segment,
};
use crate::numbers::{fixed_secs, fixed_secs_text};
use crate::pipeline::{is_planned, recompute_task};
use crate::secs::{zero, Secs};
use crate::text::{joined, texts, trim, trimmed};

verus! {

/// A colour on the screen.
#[derive(Debug, Clone, Copy, PartialEq, Eq, Structural)]
pub struct Rgb {
    pub red: u8,
    pub green: u8,
    pub blue: u8,
}

/// A colour on the screen.
pub open spec fn rgb_spec(red: u8, green: u8, blue: u8) -> Rgb {
    Rgb { red, green, blue }
}

fn rgb(red: u8, green: u8, blue: u8) -> (r: Rgb)
    ensures
        r == rgb_spec(red, green, blue),
{
    Rgb { red, green, blue }
}

/// How far an episode is.
#[derive(Debug, PartialEq)]
pub enum RowStatus {
    /// Nothing was done.
    Idle,
    /// It waits to be cut.
    Queued,
    /// It is being cut.
    Cutting,
    /// It is cut.
    Done { removed_secs: Secs },
    /// It could not be cut.
    Failed(String),
    /// It was not to be cut.
    Skipped(String),
}

/// A number of seconds with one decimal place.
pub open spec fn one_place(t: Secs) -> Seq<char> {
    fixed_secs(t, 1, 1)
}

impl RowStatus {
    /// What the table shows.
    pub open spec fn label_spec(self) -> Seq<char> {
        match self {
            RowStatus::Idle => "—"@,
            RowStatus::Queued => "排队中"@,
            RowStatus::Cutting => "切割中"@,
            RowStatus::Done { removed_secs } => "完成（去掉 "@ + one_place(removed_secs) + "s）"@,
            RowStatus::Failed(e) => "失败："@ + e@,
            RowStatus::Skipped(r) => "跳过："@ + r@,
        }
    }

    /// The colour in which the table shows it.
    pub open spec fn color_spec(self, dark: bool) -> Rgb {
        match self {
            RowStatus::Idle | RowStatus::Queued => if dark {
                rgb_spec(150, 150, 150)
            } else {
                rgb_spec(110, 110, 110)
            },
            RowStatus::Cutting => if dark {
                rgb_spec(120, 180, 255)
            } else {
                rgb_spec(30, 90, 190)
            },
            RowStatus::Done { .. } => if dark {
                rgb_spec(110, 210, 130)
            } else {
                rgb_spec(20, 120, 50)
            },
            RowStatus::Failed(_) => if dark {
                rgb_spec(255, 130, 130)
            } else {
                rgb_spec(185, 28, 28)
            },
            RowStatus::Skipped(_) => if dark {
                rgb_spec(230, 190, 110)
            } else {
                rgb_spec(150, 100, 10)
            },
        }
    }

    /// What the table shows.
    pub fn label(&self) -> (r: String)
        ensures
            r@ == self.label_spec(),
    {
        match self {
            RowStatus::Idle => "—".to_string(),
            RowStatus::Queued => "排队中".to_string(),
            RowStatus::Cutting => "切割中".to_string(),
            RowStatus::Done { removed_secs } => "完成（去掉 ".to_string().concat(
                fixed_secs_text(*removed_secs, 1, 1).as_str(),
            ).concat("s）"),
            RowStatus::Failed(e) => "失败：".to_string().concat(e.as_str()),
            RowStatus::Skipped(r) => "跳过：".to_string().concat(r.as_str()),
        }
    }

    /// The colour in which the table shows it.
    pub fn color(&self, dark: bool) -> (r: Rgb)
        ensures
            r == self.color_spec(dark),
    {
        match self {
            RowStatus::Idle | RowStatus::Queued => if dark {
                rgb(150, 150, 150)
            } else {
                rgb(110, 110, 110)
            },
            RowStatus::Cutting => if dark {
                rgb(120, 180, 255)
            } else {
                rgb(30, 90, 190)
            },
            RowStatus::Done { removed_secs: _ } => if dark {
                rgb(110, 210, 130)
            } else {
                rgb(20, 120, 50)
            },
            RowStatus::Failed(_) => if dark {
                rgb(255, 130, 130)
            } else {
                rgb(185, 28, 28)
            },
            RowStatus::Skipped(_) => if dark {
                rgb(230, 190, 110)
            } else {
                rgb(150, 100, 10)
            },
        }
    }
}

/// What a field for a time holds: nothing where it is blank, a time, or something
/// else. A slip is never taken for zero.
pub open spec fn field_value(text: Seq<char>) -> Result<Option<Secs>, Seq<char>> {
    let t = trimmed(text);
    if t.len() == 0 {
        Ok(None)
    } else {
        match typed_time(t) {
            Some(secs) => Ok(Some(secs)),
            None => Err("「"@ + t + "」不是合法时间戳（可用 00:01:30 或 90.5 或 1:30）"@),
        }
    }
}

/// The result of reading a field, with its text as a sequence of characters.
pub open spec fn field_view(r: Result<Option<Secs>, String>) -> Result<Option<Secs>, Seq<char>> {
    match r {
        Ok(v) => Ok(v),
        Err(e) => Err(e@),
    }
}

/// What a field for a time holds.
pub fn resolve_field(text: &str) -> (r: Result<Option<Secs>, String>)
    ensures
        field_view(r) == field_value(text@),
{
    let t = trim(text);
    if t.as_str().is_empty() {
        return Ok(None);
    }
    match parse_timestamp(t.as_str()) {
        Some(secs) => Ok(Some(secs)),
        None => Err(
            "「".to_string().concat(t.as_str()).concat(
                "」不是合法时间戳（可用 00:01:30 或 90.5 或 1:30）",
            ),
        ),
    }
}

/// Start and end as a segment. Where one is missing or they are the wrong way
/// round there is none: better nothing than a wrong cut.
pub open spec fn joined_segment(start: Option<Secs>, end: Option<Secs>) -> Option<Segment> {
    match (start, end) {
        (Some(start), Some(end)) => if (Segment { start, end }).valid() {
            Some(Segment { start, end })
        } else {
            None
        },
        _ => None,
    }
}

/// Start and end as a segment.
pub fn join_segment(start: Option<Secs>, end: Option<Secs>) -> (r: Option<Segment>)
    ensures
        r == joined_segment(start, end),
{
    match (start, end) {
        (Some(s), Some(e)) => {
            let seg = Segment::new(s, e);
            if seg.is_valid() {
                Some(seg)
            } else {
                None
            }
        },
        _ => None,
    }
}

/// A segment as the texts of two fields.
pub open spec fn field_texts(seg: Option<Segment>) -> (Seq<char>, Seq<char>) {
    match seg {
        Some(s) => (stamp(s.start), stamp(s.end)),
        None => (Seq::empty(), Seq::empty()),
    }
}

/// A segment as the texts of two fields.
pub fn split_text(seg: Option<Segment>) -> (r: (String, String))
    ensures
        (r.0@, r.1@) == field_texts(seg),
{
    match seg {
        Some(s) => (format_timestamp(s.start), format_timestamp(s.end)),
        None => (String::new(), String::new()),
    }
}

/// How far the frame of an episode is that shows where the cut will be. The
/// picture itself is kept elsewhere.
#[derive(Debug, PartialEq)]
pub struct PreviewState {
    pub loading: bool,
    /// Whether there is a picture.
    pub has_picture: bool,
    /// The moment that it shows.
    pub at_secs: Option<Secs>,
    pub error: Option<String>,
}

/// A row of the table.
#[derive(Debug)]
pub struct Row {
    pub task: EpisodeTask,
    /// What was detected. What the user types goes to the task and leaves this as
    /// it is, so that it can be brought back.
    pub detected: Detection,
    /// The four times as they stand in their fields. While the user types, what
    /// stands there need not be a time.
    pub opening_start: String,
    pub opening_end: String,
    pub ending_start: String,
    pub ending_end: String,
    /// What is wrong with the fields.
    pub edit_error: Option<String>,
    pub status: RowStatus,
    pub progress: Fraction,
    /// The last lines that ffmpeg wrote.
    pub log: VecDeque<String>,
    pub preview: PreviewState,
}

/// Nothing done yet.
pub open spec fn no_progress() -> Fraction {
    Fraction::Of { part: 0, whole: 1 }
}

impl Row {
    /// The fields show what was detected.
    pub open spec fn shows_detection(self) -> bool {
        &&& (self.opening_start@, self.opening_end@) == field_texts(self.detected.opening)
        &&& (self.ending_start@, self.ending_end@) == field_texts(self.detected.ending)
        &&& self.edit_error is None
    }

    /// A row for an episode that nothing was done with.
    pub fn new(task: EpisodeTask) -> (r: Row)
        ensures
            r.task == task,
            r.detected == task.detection,
            r.shows_detection(),
            r.status is Idle,
            r.progress == no_progress(),
            r.log@.len() == 0,
            r.preview == (PreviewState {
                loading: false,
                has_picture: false,
                at_secs: None,
                error: None,
            }),
    {
        let (opening_start, opening_end) = split_text(task.detection.opening);
        let (ending_start, ending_end) = split_text(task.detection.ending);
        let detected = task.detection;
        Row {
            task,
            detected,
            opening_start,
            opening_end,
            ending_start,
            ending_end,
            edit_error: None,
            status: RowStatus::Idle,
            progress: Fraction::Of { part: 0, whole: 1 },
            log: VecDeque::new(),
            preview: PreviewState {
                loading: false,
                has_picture: false,
                at_secs: None,
                error: None,
            },
        }
    }

    /// Writes what was detected into the fields, in place of what was typed.
    pub fn reset_texts_from_detection(&mut self)
        ensures
            final(self).shows_detection(),
            *final(self) == (Row {
                opening_start: final(self).opening_start,
                opening_end: final(self).opening_end,
                ending_start: final(self).ending_start,
                ending_end: final(self).ending_end,
                edit_error: None,
                ..*old(self)
            }),
    {
        let (os, oe) = split_text(self.detected.opening);
        let (es, ee) = split_text(self.detected.ending);
        self.opening_start = os;
        self.opening_end = oe;
        self.ending_start = es;
        self.ending_end = ee;
        self.edit_error = None;
    }

    /// What the four fields hold.
    pub open spec fn fields(self) -> Seq<Result<Option<Secs>, Seq<char>>> {
        seq![
            field_value(self.opening_start@),
            field_value(self.opening_end@),
            field_value(self.ending_start@),
            field_value(self.ending_end@),
        ]
    }

    /// What is wrong with the fields, in their order.
    pub open spec fn field_errors(self) -> Seq<Seq<char>> {
        field_error("片头起点"@, field_value(self.opening_start@)) + field_error(
            "片头终点"@,
            field_value(self.opening_end@),
        ) + field_error("片尾起点"@, field_value(self.ending_start@)) + field_error(
            "片尾终点"@,
            field_value(self.ending_end@),
        )
    }

    /// What the fields say was detected.
    pub open spec fn typed_detection(self) -> Detection {
        Detection {
            opening: joined_segment(self.fields()[0]->Ok_0, self.fields()[1]->Ok_0),
            ending: joined_segment(self.fields()[2]->Ok_0, self.fields()[3]->Ok_0),
        }
    }

    /// Takes over what the user typed. Where a field cannot be read, that is said
    /// and nothing else changes. Where all can, the cut is planned anew.
    pub fn apply_text_edits(&mut self)
        ensures
            old(self).field_errors().len() > 0 ==> {
                &&& final(self).edit_error matches Some(e) && e@ == joined(
                    old(self).field_errors(),
                    "；"@,
                )
                &&& *final(self) == (Row { edit_error: final(self).edit_error, ..*old(self) })
            },
            old(self).field_errors().len() == 0 ==> {
                &&& final(self).edit_error is None
                &&& *final(self) == (Row {
                    edit_error: None,
                    task: final(self).task,
                    ..*old(self)
                })
                &&& final(self).task.detection == old(self).typed_detection()
                &&& final(self).task.file == old(self).task.file
                &&& final(self).task.output == old(self).task.output
                &&& is_planned(final(self).task)
            },
    {
        let os = resolve_field(self.opening_start.as_str());
        let oe = resolve_field(self.opening_end.as_str());
        let es = resolve_field(self.ending_start.as_str());
        let ee = resolve_field(self.ending_end.as_str());
        let mut errors: Vec<String> = Vec::new();
        assert(texts(errors@) =~= Seq::<Seq<char>>::empty());
        note_error(&mut errors, "片头起点", &os);
        note_error(&mut errors, "片头终点", &oe);
        note_error(&mut errors, "片尾起点", &es);
        note_error(&mut errors, "片尾终点", &ee);
        assert(texts(errors@) =~= self.field_errors());
        assert(texts(errors@).len() == errors@.len());
        if errors.len() > 0 {
            self.edit_error = Some(crate::text::join(&errors, "；"));
            return;
        }
        self.edit_error = None;
        self.task.detection = Detection {
            opening: join_segment(value_of(os), value_of(oe)),
            ending: join_segment(value_of(es), value_of(ee)),
        };
        recompute_task(&mut self.task);
    }

    /// The moment whose frame shows best whether the cut is right: the end of the
    /// opening, or else the start of the ending, or else somewhere near the start.
    pub open spec fn preview_time_spec(self) -> Secs {
        match (self.task.detection.opening, self.task.detection.ending) {
            (Some(o), _) => o.end,
            (None, Some(e)) => e.start,
            (None, None) => match self.task.file.duration_secs {
                Some(d) => d.tenth_spec(),
                None => zero(),
            },
        }
    }

    /// The moment whose frame shows best whether the cut is right.
    pub fn preview_time(&self) -> (r: Secs)
        ensures
            r == self.preview_time_spec(),
    {
        if let Some(o) = self.task.detection.opening {
            return o.end;
        }
        if let Some(e) = self.task.detection.ending {
            return e.start;
        }
        match self.task.file.duration_secs {
            Some(d) => d.tenth(),
            None => Secs::Finite(0),
        }
    }
}

/// What is wrong with a field, under its name.
pub open spec fn field_error(label: Seq<char>, value: Result<Option<Secs>, Seq<char>>) -> Seq<
    Seq<char>,
> {
    match value {
        Ok(_) => Seq::empty(),
        Err(e) => seq![label + e],
    }
}

fn note_error(errors: &mut Vec<String>, label: &str, value: &Result<Option<Secs>, String>)
    ensures
        texts(final(errors)@) == texts(old(errors)@) + field_error(label@, field_view(*value)),
{
    let ghost before = texts(errors@);
    match value {
        Ok(_) => {
            assert(before + Seq::<Seq<char>>::empty() =~= before);
        },
        Err(e) => {
            errors.push(label.to_string().concat(e.as_str()));
            assert(texts(errors@) =~= before + seq![label@ + e@]);
        },
    }
}

fn value_of(field: Result<Option<Secs>, String>) -> (r: Option<Secs>)
    ensures
        field matches Ok(v) ==> r == v,
{
    match field {
        Ok(v) => v,
        Err(_) => None,
    }
}

} // verus!
