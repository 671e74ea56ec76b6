//! What the window shows of the state.

use vstd::prelude::*;

use crate::app::start::ready_count;
use crate::app::{App, Busy, LogLevel};
use crate::cut::Fraction;
use crate::fonts::FontSetup;
use crate::model::{format_timestamp, parse_timestamp, size_text, stamp, typed_time, EpisodeFile};
use crate::numbers::{fixed_secs, fixed_secs_text};
use crate::pipeline::{describe_keep, keep_text};
use crate::rows::{one_place, Rgb, Row, RowStatus};
use crate::secs::{zero, Secs};
use crate::show::{truncate, truncated};
use crate::text::{decimal, decimal_text, is_blank, joined, maybe_string, texts, trimmed};

verus! {

/// The colours of warnings, of errors and of what is well.
pub open spec fn amber() -> Rgb {
    Rgb { red: 150, green: 100, blue: 10 }
}

pub open spec fn red() -> Rgb {
    Rgb { red: 185, green: 28, blue: 28 }
}

pub open spec fn green() -> Rgb {
    Rgb { red: 20, green: 120, blue: 50 }
}

/// Whether the programs are there, in one word and in its colour, and the line
/// behind it.
pub struct ToolLamp {
    pub label: &'static str,
    pub color: Rgb,
    pub note: String,
}

/// What a field looks like while the user types: not wrong where it is blank or
/// holds a time.
pub fn is_valid_field(text: &str) -> (r: bool)
    ensures
        r == (trimmed(text@).len() == 0 || typed_time(text@) is Some),
{
    is_blank(text) || parse_timestamp(text).is_some()
}

/// What stands above the table.
pub struct TableHeader {
    pub title: String,
    /// How many episodes are to be cut.
    pub ready: Option<String>,
    /// How much is cut away.
    pub removed: Option<String>,
    /// How far the work is that goes on.
    pub counter: Option<String>,
}

/// How much is cut away of all episodes that are to be cut.
pub open spec fn total_removed(rows: Seq<Row>) -> Secs
    decreases rows.len(),
{
    if rows.len() == 0 {
        zero()
    } else {
        let before = total_removed(rows.drop_last());
        match rows.last().task.removed_spec() {
            Some(t) => if rows.last().task.kind is Ready {
                before.plus_spec(t)
            } else {
                before
            },
            None => before,
        }
    }
}

/// What a row of the table shows.
pub struct RowView {
    pub number: String,
    pub name: String,
    /// Size, length and picture.
    pub details: String,
    /// Whether it must be said that there is no sound.
    pub silent: bool,
    pub keep: String,
    /// The same, cut off where it is long.
    pub keep_short: String,
    /// How much is cut away.
    pub removed: Option<String>,
    pub status: String,
    pub color: Rgb,
    pub shows_progress: bool,
    pub can_preview: bool,
    /// Whether there is anything to drop or to bring back.
    pub can_reset: bool,
    /// What ffmpeg wrote last.
    pub log: Option<String>,
}

/// The details of a file.
pub open spec fn details_of(f: EpisodeFile) -> Seq<char> {
    size_text(f.size_bytes) + " · "@ + (match f.duration_secs {
        Some(d) => stamp(d),
        None => "未知"@,
    }) + " · "@ + (match (f.width, f.height) {
        (Some(w), Some(h)) => decimal(w as nat) + "x"@ + decimal(h as nat),
        _ => "未知"@,
    })
}

/// What is kept, for a row of the table.
pub open spec fn keep_cell(row: Row) -> Seq<char> {
    if row.task.keep@.len() == 0 {
        "—"@
    } else {
        keep_text(row.task.keep@)
    }
}

/// Whether the row says why the episode is not to be cut.
pub open spec fn says_kind(row: Row) -> bool {
    row.status is Idle && row.task.kind !is Ready
}

/// Whether something is done.
pub open spec fn begun(f: Fraction) -> bool {
    f matches Fraction::Of { part, whole } && part > 0
}

/// Whether a row shows what it has to.
pub open spec fn shows_row(v: RowView, row: Row, index: usize, dark: bool) -> bool {
    &&& v.number@ == decimal((index + 1) as nat)
    &&& v.name@ == row.task.file.name_spec()
    &&& v.details@ == details_of(row.task.file)
    &&& v.silent == !row.task.file.has_audio
    &&& v.keep@ == keep_cell(row)
    &&& v.keep_short@ == truncated(keep_cell(row), 30)
    &&& match row.task.removed_spec() {
        Some(t) => maybe_string(v.removed) == Some("去掉 "@ + one_place(t) + "s"@),
        None => v.removed is None,
    }
    &&& v.status@ == (if says_kind(row) {
        row.task.kind.label_spec()
    } else {
        row.status.label_spec()
    })
    &&& v.color == (if says_kind(row) {
        amber()
    } else {
        row.status.color_spec(dark)
    })
    &&& v.shows_progress == (row.status is Cutting || begun(row.progress))
    &&& v.can_preview == !row.preview.loading
    &&& v.can_reset == !(row.detected.empty() && row.task.detection.empty())
    &&& if row.log@.len() == 0 {
        v.log is None
    } else {
        maybe_string(v.log) == Some(joined(texts(row.log@), "\n"@))
    }
}

/// The lines of a row in one text.
fn join_lines(row: &Row) -> (r: String)
    ensures
        r@ == joined(texts(row.log@), "\n"@),
{
    let mut list: Vec<String> = Vec::new();
    let mut i: usize = 0;
    while i < row.log.len()
        invariant
            i <= row.log@.len(),
            list@.len() == i,
            forall|k: int| 0 <= k < i ==> (#[trigger] list@[k])@ == row.log@[k]@,
        decreases row.log@.len() - i,
    {
        list.push(row.log[i].clone());
        i += 1;
    }
    assert(texts(list@) =~= texts(row.log@));
    crate::text::join(&list, "\n")
}

/// What a row of the table shows.
pub fn view_row(row: &Row, index: usize, dark: bool) -> (r: RowView)
    ensures
        shows_row(r, *row, index, dark),
{
    let file = &row.task.file;
    let keep = if row.task.keep.len() == 0 {
        "—".to_string()
    } else {
        describe_keep(&row.task.keep)
    };
    let idle = match row.status {
        RowStatus::Idle => true,
        _ => false,
    };
    let cutting = match row.status {
        RowStatus::Cutting => true,
        _ => false,
    };
    let begun = match row.progress {
        Fraction::Of { part, whole: _ } => part > 0,
        Fraction::Unknown => false,
    };
    let kind = idle && !row.task.kind.is_actionable();
    let removed = match row.task.removed_secs() {
        Some(t) => Some(
            "去掉 ".to_string().concat(fixed_secs_text(t, 1, 1).as_str()).concat("s"),
        ),
        None => None,
    };
    RowView {
        number: decimal_text(index as u128 + 1),
        name: file.name(),
        details: file.display_size().concat(" · ").concat(file.display_duration().as_str()).concat(
            " · ",
        ).concat(file.display_resolution().as_str()),
        silent: !file.has_audio,
        keep_short: truncate(keep.as_str(), 30),
        keep,
        removed,
        status: if kind {
            row.task.kind.label().to_string()
        } else {
            row.status.label()
        },
        color: if kind {
            Rgb { red: 150, green: 100, blue: 10 }
        } else {
            row.status.color(dark)
        },
        shows_progress: cutting || begun,
        can_preview: !row.preview.loading,
        can_reset: !(row.detected.is_empty() && row.task.detection.is_empty()),
        log: if row.log.len() == 0 {
            None
        } else {
            Some(join_lines(row))
        },
    }
}

/// What the panel with the frame shows.
#[derive(Debug)]
pub enum PreviewView {
    /// No row was chosen.
    Hint,
    /// The row is gone.
    Nothing,
    /// The frame is on its way.
    Loading { title: String },
    /// The frame could not be had.
    Failed { title: String, error: String },
    /// There is none.
    NoPicture { title: String },
    /// The frame, with the moment that it shows.
    Picture { title: String, index: usize, moment: Option<String> },
}

/// The title of the panel with the frame.
pub open spec fn preview_title(row: Row, index: usize) -> Seq<char> {
    row.task.file.name_spec() + " · 第 "@ + decimal((index + 1) as nat) + " 行"@
}

/// Whether the panel with the frame shows what it has to.
pub open spec fn shows_preview(v: PreviewView, app: App) -> bool {
    match app.preview_row {
        None => v is Hint,
        Some(index) => if index >= app.rows@.len() {
            v is Nothing
        } else {
            let row = app.rows@[index as int];
            let title = preview_title(row, index);
            if row.preview.loading {
                v matches PreviewView::Loading { title: t } && t@ == title
            } else if row.preview.error is Some {
                v matches PreviewView::Failed { title: t, error } && t@ == title && Some(error)
                    == row.preview.error
            } else if !row.preview.has_picture {
                v matches PreviewView::NoPicture { title: t } && t@ == title
            } else {
                v matches PreviewView::Picture { title: t, index: i, moment } && t@ == title && i
                    == index && maybe_string(moment) == (match row.preview.at_secs {
                    Some(at) => Some("时刻："@ + stamp(at)),
                    None => None,
                })
            }
        },
    }
}

/// Whether the user is shown where fonts were looked for: the places, where none
/// could be used.
pub open spec fn font_hint_spec(setup: FontSetup) -> Option<Seq<char>> {
    if setup.loaded_from is Some {
        None
    } else if setup.attempted@.len() == 0 {
        Some("（没有可用的候选路径）"@)
    } else {
        Some(
            "已尝试 "@ + decimal(setup.attempted@.len()) + " 处：\n"@ + joined(
                texts(setup.attempted@),
                "\n"@,
            ),
        )
    }
}

/// Where fonts were looked for, where none could be used.
pub fn font_hint(setup: &FontSetup) -> (r: Option<String>)
    ensures
        maybe_string(r) == font_hint_spec(*setup),
{
    match &setup.loaded_from {
        Some(_) => None,
        None => if setup.attempted.len() == 0 {
            Some("（没有可用的候选路径）".to_string())
        } else {
            Some(
                "已尝试 ".to_string().concat(
                    decimal_text(setup.attempted.len() as u128).as_str(),
                ).concat(" 处：\n").concat(
                    crate::text::join(&setup.attempted, "\n").as_str(),
                ),
            )
        },
    }
}

/// The colour of a line of the log; none where it is like all text.
pub fn level_color(level: LogLevel) -> (r: Option<Rgb>)
    ensures
        r == (match level {
            LogLevel::Info => None,
            LogLevel::Warn => Some(amber()),
            LogLevel::Error => Some(red()),
        }),
{
    match level {
        LogLevel::Info => None,
        LogLevel::Warn => Some(Rgb { red: 150, green: 100, blue: 10 }),
        LogLevel::Error => Some(Rgb { red: 185, green: 28, blue: 28 }),
    }
}

impl App {
    /// Whether nothing is going on, so that something can be started.
    pub fn is_idle(&self) -> (r: bool)
        ensures
            r == (self.busy is Idle),
    {
        match self.busy {
            Busy::Idle => true,
            _ => false,
        }
    }

    /// Whether the programs are there.
    pub fn tool_lamp(&self) -> (r: ToolLamp)
        ensures
            match self.tool_error {
                Some(e) => r.label@ == "ffmpeg 未就绪"@ && r.color == red() && r.note@ == e@,
                None => r.label@ == "● ffmpeg 就绪"@ && r.color == green() && r.note@
                    == self.status_line@,
            },
    {
        match &self.tool_error {
            Some(e) => ToolLamp {
                label: "ffmpeg 未就绪",
                color: Rgb { red: 185, green: 28, blue: 28 },
                note: e.clone(),
            },
            None => ToolLamp {
                label: "● ffmpeg 就绪",
                color: Rgb { red: 20, green: 120, blue: 50 },
                note: self.status_line.clone(),
            },
        }
    }

    /// How many lines the log has.
    pub fn log_title(&self) -> (r: String)
        ensures
            r@ == "（"@ + decimal(self.logs@.len()) + " 行）"@,
    {
        "（".to_string().concat(decimal_text(self.logs.len() as u128).as_str()).concat(" 行）")
    }

    /// The texts of the log.
    pub open spec fn log_texts(self) -> Seq<Seq<char>> {
        self.log_lines().map_values(|l: (LogLevel, Seq<char>)| l.1)
    }

    /// The log in one text.
    pub fn log_text(&self) -> (r: String)
        ensures
            r@ == joined(self.log_texts(), "\n"@),
    {
        let mut list: Vec<String> = Vec::new();
        let mut i: usize = 0;
        while i < self.logs.len()
            invariant
                i <= self.logs@.len(),
                list@.len() == i,
                forall|k: int| 0 <= k < i ==> (#[trigger] list@[k])@ == self.logs@[k].text@,
            decreases self.logs@.len() - i,
        {
            list.push(self.logs[i].text.clone());
            i += 1;
        }
        assert(texts(list@) =~= self.log_texts());
        crate::text::join(&list, "\n")
    }

    fn sum_removed(&self) -> (r: Secs)
        ensures
            r == total_removed(self.rows@),
    {
        let mut sum = Secs::Finite(0);
        let mut i: usize = 0;
        while i < self.rows.len()
            invariant
                i <= self.rows@.len(),
                sum == total_removed(self.rows@.take(i as int)),
            decreases self.rows@.len() - i,
        {
            assert(self.rows@.take(i + 1).drop_last() =~= self.rows@.take(i as int));
            if self.rows[i].task.kind.is_actionable() {
                match self.rows[i].task.removed_secs() {
                    Some(t) => {
                        sum = sum.plus(t);
                    },
                    None => {},
                }
            }
            i += 1;
        }
        assert(self.rows@.take(i as int) =~= self.rows@);
        sum
    }

    /// What stands above the table.
    pub fn table_header(&self) -> (r: TableHeader)
        ensures
            r.title@ == "② 剧集列表（"@ + decimal(self.rows@.len()) + " 个文件）"@,
            maybe_string(r.ready) == (if self.rows@.len() == 0 {
                None
            } else {
                Some("可切割 "@ + decimal(ready_count(self.rows@)) + " 集"@)
            }),
            maybe_string(r.removed) == (if self.rows@.len() > 0 && zero().before(
                total_removed(self.rows@),
            ) {
                Some(
                    "预计共去掉 "@ + fixed_secs(total_removed(self.rows@), 60, 1)
                        + " 分钟"@,
                )
            } else {
                None
            }),
            maybe_string(r.counter) == (if !(self.busy is Idle) && self.counter.1 > 0 {
                Some(
                    "进度："@ + decimal(self.counter.0 as nat) + "/"@ + decimal(
                        self.counter.1 as nat,
                    ),
                )
            } else {
                None
            }),
    {
        let title = "② 剧集列表（".to_string().concat(
            decimal_text(self.rows.len() as u128).as_str(),
        ).concat(" 个文件）");
        let mut ready = None;
        let mut removed = None;
        if self.rows.len() > 0 {
            ready = Some(
                "可切割 ".to_string().concat(
                    decimal_text(self.count_ready() as u128).as_str(),
                ).concat(" 集"),
            );
            let total = self.sum_removed();
            if Secs::Finite(0).lt(total) {
                removed = Some(
                    "预计共去掉 ".to_string().concat(
                        fixed_secs_text(total, 60, 1).as_str(),
                    ).concat(" 分钟"),
                );
            }
        }
        let counter = if !self.is_idle() && self.counter.1 > 0 {
            Some(
                "进度：".to_string().concat(decimal_text(self.counter.0 as u128).as_str()).concat(
                    "/",
                ).concat(decimal_text(self.counter.1 as u128).as_str()),
            )
        } else {
            None
        };
        TableHeader { title, ready, removed, counter }
    }

    /// What the panel with the frame shows.
    pub fn preview_view(&self) -> (r: PreviewView)
        ensures
            shows_preview(r, *self),
    {
        let index = match self.preview_row {
            None => {
                return PreviewView::Hint;
            },
            Some(i) => i,
        };
        if index >= self.rows.len() {
            return PreviewView::Nothing;
        }
        let row = &self.rows[index];
        let title = row.task.file.name().concat(" · 第 ").concat(
            decimal_text(index as u128 + 1).as_str(),
        ).concat(" 行");
        if row.preview.loading {
            return PreviewView::Loading { title };
        }
        if let Some(e) = &row.preview.error {
            return PreviewView::Failed { title, error: e.clone() };
        }
        if !row.preview.has_picture {
            return PreviewView::NoPicture { title };
        }
        let moment = match row.preview.at_secs {
            Some(at) => Some("时刻：".to_string().concat(format_timestamp(at).as_str())),
            None => None,
        };
        PreviewView::Picture { title, index, moment }
    }

    /// The directory for the outputs, for the user to read.
    pub fn out_label(&self) -> (r: String)
        ensures
            r@ == (match self.out_dir {
                Some(d) => d@,
                None => "（未选择）"@,
            }),
    {
        match &self.out_dir {
            Some(d) => d.clone(),
            None => "（未选择）".to_string(),
        }
    }

    /// Whether the user is told what the fast mode means.
    pub fn shows_fast_note(&self) -> (r: bool)
        ensures
            r == (self.cut_mode is Fast),
    {
        !self.cut_mode.is_frame_accurate()
    }

    /// The way in which needle is used, for the user to read.
    pub fn backend_text(&self) -> (r: String)
        ensures
            r@ == "后端："@ + (match self.detector {
                Some(d) => d.label_spec(),
                None => "未就绪"@,
            }),
    {
        "后端：".to_string().concat(self.detector_label())
    }
}

} // verus!
