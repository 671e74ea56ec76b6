//! Laws of what is started when the user asks for it, and of what the window shows.

use vstd::prelude::*;

use crate::app::messages::{count_fraction, within_range};
use crate::app::start::{adding, after_request_preview, after_start_detect, fresh_paths, on_list};
use crate::app::views::{shows_preview, shows_row, PreviewView, RowView};
use crate::app::{App, Busy, Launch};
use crate::cut::Fraction;
use crate::detect::library::{library_awaits, library_move, LibraryAct, LibraryEvent, LibraryStage};
use crate::detect::{collected, finding_text, DetectOptions};
use crate::error::Fault;
use crate::exec::Ran;
use crate::laws::keep::in_order;
use crate::laws::names::{is_without, what_is_joined_can_be_taken_apart};
use crate::laws::times::lemma_decimal;
use crate::laws::window::new_paths_are_read;
use crate::model::{total_length, Detection, Segment};
use crate::numbers::{all_digits, value};
use crate::pipeline::{keep_text, segment_text};
use crate::probe::{first_line_of, version_of};
use crate::rows::{Row, RowStatus};
use crate::secs::Secs;
use crate::text::{joined, lemma_first_at_is, pieces, texts, trimmed};
use crate::worker::{is_choice, DetectorChoice};

verus! {

/// A detection is started just where nothing else goes on, there are two videos at
/// least, and there is a needle. It is then about each video of the table, in its
/// place, and done as the user set it.
pub proof fn detections_are_started_for_the_table(
    before: App,
    after: App,
    launch: Option<Launch>,
    i: int,
)
    requires
        after_start_detect(before, after, launch),
        0 <= i < before.rows@.len(),
    ensures
        launch is Some <==> before.busy == Busy::Idle && before.rows@.len() >= 2
            && before.detector is Some,
        launch is Some ==> launch->0 is Detect && after.busy == Busy::Detecting,
        launch matches Some(Launch::Detect { detector, files, opts }) ==> {
            &&& Some(detector) == before.detector
            &&& files@.len() == before.rows@.len()
            &&& files@[i]@ == before.rows@[i].task.file.path@
            &&& opts == before.detect_opts
        },
        launch is None ==> after.busy == before.busy,
        after.rows == before.rows,
{
    if let Some(Launch::Detect { detector, files, opts }) = launch {
        assert(texts(files@).len() == files@.len());
        assert(texts(files@)[i] == files@[i]@);
    }
}

/// A frame is asked of the row's own video, at the row's own moment, and no other
/// row changes.
pub proof fn frames_are_asked_of_their_row(
    before: App,
    after: App,
    index: usize,
    launch: Option<Launch>,
    k: int,
)
    requires
        after_request_preview(before, after, index, launch),
        0 <= k < before.rows@.len(),
    ensures
        launch is Some <==> before.cutter is Some && index < before.rows@.len(),
        launch is Some ==> launch->0 is Preview,
        launch matches Some(Launch::Preview { cutter, video, at_secs, index: i }) ==> {
            &&& video == before.rows@[index as int].task.file.path
            &&& at_secs == before.rows@[index as int].preview_time_spec()
            &&& i == index
            &&& after.preview_row == Some(index)
            &&& after.rows@[index as int].preview.loading
        },
        k != index ==> after.rows@[k] == before.rows@[k],
        after.rows@[k].task == before.rows@[k].task,
{
}

/// Videos are read just where nothing else goes on, there is an ffmpeg, and some of
/// those that were found are not on the list yet.
pub proof fn new_videos_are_read(app: App, paths: Vec<String>)
    ensures
        adding(app, Ok(paths)).1 is Some <==> app.busy == Busy::Idle && app.tools is Some && exists|
            i: int,
        |
            0 <= i < paths@.len() && !on_list(app.rows@, #[trigger] paths@[i]@),
        adding(app, Ok(paths)).1 matches Some(fresh) ==> fresh == fresh_paths(
            app.rows@,
            texts(paths@),
        ),
{
    let all = texts(paths@);
    let at = new_paths_are_read(app.rows@, all);
    if at.len() > 0 {
        let i = at[0];
        assert(all[i] == paths@[i]@);
        assert(!on_list(app.rows@, paths@[i]@));
    }
    if exists|i: int| 0 <= i < paths@.len() && !on_list(app.rows@, #[trigger] paths@[i]@) {
        let i = choose|i: int| 0 <= i < paths@.len() && !on_list(app.rows@, #[trigger] paths@[i]@);
        assert(all[i] == paths@[i]@);
        assert(at.contains(i));
    }
}

/// How needle is used follows from what there is and what the user prefers: as a
/// library where there is one and it is preferred, otherwise as the program that
/// was found, and without a program as a library, where there is one.
pub proof fn the_detector_is_the_one_preferred(
    needle: Option<Seq<char>>,
    prefer_library: bool,
    built_in: bool,
    choice: Option<DetectorChoice>,
)
    requires
        is_choice(needle, prefer_library, built_in, choice),
    ensures
        built_in && prefer_library ==> choice == Some(DetectorChoice::Library),
        !(built_in && prefer_library) ==> (needle matches Some(exe) ==> (choice matches Some(
            DetectorChoice::Cli(d),
        ) && d.needle_exe@ == exe)),
        needle is None && built_in ==> choice == Some(DetectorChoice::Library),
        needle is None && !built_in ==> choice is None,
{
}

/// With needle as a library, all videos are analysed, and all of them are compared
/// by the fingerprints that were taken. What goes wrong, or is stopped, is what the
/// detection ends with; otherwise it ends with what was read.
pub proof fn libraries_are_asked_of_all_videos(
    files: Seq<Seq<char>>,
    opts: DetectOptions,
    stage: LibraryStage,
    event: LibraryEvent,
)
    requires
        library_awaits(files.len(), opts, stage, event),
        opts.keep_sidecars,
    ensures
        ({
            let act = library_move(files, opts, stage, event).act;
            match event {
                LibraryEvent::Looked { cancelled } => if cancelled {
                    act == LibraryAct::Finish(Err(Fault::Cancelled))
                } else {
                    act matches LibraryAct::Analyze(a) && a.videos == files
                },
                LibraryEvent::Analyzed { given, cancelled } => match given {
                    Err(_) => act matches LibraryAct::Finish(Err(Fault::ParseFailed { .. })),
                    Ok(hashes) => if cancelled {
                        act == LibraryAct::Finish(Err(Fault::Cancelled))
                    } else {
                        act matches LibraryAct::Compare(c) && c.videos == files && c.frame_hashes
                            == hashes@
                    },
                },
                LibraryEvent::Compared { given, cancelled } => match given {
                    Err(_) => act matches LibraryAct::Finish(Err(Fault::ParseFailed { .. })),
                    Ok(_) => if cancelled {
                        act == LibraryAct::Finish(Err(Fault::Cancelled))
                    } else {
                        act is Read
                    },
                },
                LibraryEvent::Read { readings } => act == LibraryAct::Finish(
                    collected(readings@),
                ),
                LibraryEvent::Cleaned { paths, removed } => act == LibraryAct::Finish(
                    stage->result,
                ),
            }
        }),
{
}

/// What a program says of its version is the first line that it writes, and what is
/// behind it makes no difference. One that writes a blank line has not told it.
pub proof fn versions_are_first_lines(
    line: Seq<char>,
    rest: Seq<char>,
    stderr: Seq<char>,
    what: Seq<char>,
)
    requires
        is_without(line, '\n'),
    ensures
        first_line_of(line + seq!['\n'] + rest) == trimmed(line),
        first_line_of(line) == trimmed(line),
        version_of(line + seq!['\n'] + rest, stderr, what) is Ok <==> trimmed(line).len() > 0,
        trimmed(line).len() > 0 ==> version_of(line + seq!['\n'] + rest, stderr, what) == Ok::<
            Seq<char>,
            Fault,
        >(trimmed(line)),
{
    let s = line + seq!['\n'] + rest;
    let at = line.len() as int;
    assert(s[at] == '\n');
    assert forall|i: int| 0 <= i < at implies s[i] != '\n' by {
        assert(s[i] == line[i]);
    }
    lemma_first_at_is(s, '\n', at);
    lemma_first_at_is(line, '\n', at);
    assert(s.take(at) =~= line);
    assert(line.take(at) =~= line);
}

/// What was found in a video is told: its opening and its ending where it has both,
/// and the one that it has otherwise.
pub proof fn findings_are_told(opening: Segment, ending: Segment)
    ensures
        finding_text(Some(Detection { opening: Some(opening), ending: Some(ending) })) == "片头 "@
            + segment_text(opening) + "，"@ + ("片尾 "@ + segment_text(ending)),
        finding_text(Some(Detection { opening: Some(opening), ending: None })) == "片头 "@
            + segment_text(opening),
        finding_text(Some(Detection { opening: None, ending: Some(ending) })) == "片尾 "@
            + segment_text(ending),
        finding_text(None) == "未检测到片头或片尾"@,
{
    let a = "片头 "@ + segment_text(opening);
    let b = "片尾 "@ + segment_text(ending);
    let none = Seq::<Seq<char>>::empty();
    assert(seq![a] + none =~= seq![a]);
    assert(none + seq![b] =~= seq![b]);
    assert(seq![a] + seq![b] =~= seq![a, b]);
    assert(seq![a, b].drop_last() =~= seq![a]);
    assert(joined(seq![a], "，"@) == a);
    assert(joined(seq![b], "，"@) == b);
    assert(joined(seq![a, b], "，"@) == a + "，"@ + b);
}

/// What is kept is told segment by segment, in order.
pub proof fn kept_segments_are_told(keep: Seq<Segment>, s: Segment)
    ensures
        keep_text(Seq::empty()) == Seq::<char>::empty(),
        keep_text(seq![s]) == segment_text(s),
        keep.len() > 0 ==> keep_text(keep.push(s)) == keep_text(keep) + " + "@ + segment_text(s),
{
    let f = |s: Segment| segment_text(s);
    assert(Seq::<Segment>::empty().map_values(f) =~= Seq::<Seq<char>>::empty());
    assert(seq![s].map_values(f) =~= seq![segment_text(s)]);
    let all = keep.push(s).map_values(f);
    assert(all.drop_last() =~= keep.map_values(f));
    assert(all.last() == segment_text(s));
}

/// Of a program that went wrong it is told what it wrote to stderr last, where it
/// wrote anything there, and what it wrote at all otherwise: line by line.
pub proof fn failures_are_told_line_by_line(r: Ran)
    requires
        forall|i: int| 0 <= i < r.stderr_tail.len() ==> is_without(#[trigger] r.stderr_tail[i], '\n'),
        forall|i: int| 0 <= i < r.tail.len() ==> is_without(#[trigger] r.tail[i], '\n'),
    ensures
        r.stderr_tail.len() > 0 ==> pieces(r.tail_text(), '\n') == r.stderr_tail,
        r.stderr_tail.len() == 0 && r.tail.len() > 0 ==> pieces(r.tail_text(), '\n') == r.tail,
{
    reveal_strlit("\n");
    assert("\n"@ =~= seq!['\n']);
    if r.stderr_tail.len() > 0 {
        what_is_joined_can_be_taken_apart(r.stderr_tail, '\n');
    } else if r.tail.len() > 0 {
        what_is_joined_can_be_taken_apart(r.tail, '\n');
    }
}

/// A row shows its own video: its place on the list, whether it has sound, and why
/// it is not to be cut, as long as nothing was done with it.
pub proof fn rows_show_their_video(v: RowView, row: Row, index: usize, dark: bool)
    requires
        shows_row(v, row, index, dark),
    ensures
        v.number@.len() > 0 && all_digits(v.number@) && value(v.number@) == index + 1,
        v.silent <==> !row.task.file.has_audio,
        row.status is Idle && row.task.kind !is Ready ==> v.status@ == row.task.kind.label_spec(),
        row.status is Idle && row.task.kind is Ready ==> v.status@ == "—"@,
        row.status is Queued ==> v.status@ == "排队中"@,
        row.status is Cutting ==> v.status@ == "切割中"@ && v.shows_progress,
        row.status matches RowStatus::Failed(e) ==> v.status@ == "失败："@ + e@,
        row.task.keep@.len() == 0 ==> v.keep@ == "—"@,
        row.task.keep@.len() > 0 ==> v.keep@ == keep_text(row.task.keep@),
        v.keep_short@.len() <= 30,
        row.task.file.duration_secs is None ==> v.removed is None,
        v.can_preview <==> !row.preview.loading,
{
    lemma_decimal((index + 1) as nat);
    reveal_strlit("…");
}

/// The panel shows the chosen row: that its frame is on its way before anything
/// else, then that it could not be had, and the frame itself only without either.
pub proof fn the_panel_shows_the_chosen_row(v: PreviewView, app: App)
    requires
        shows_preview(v, app),
    ensures
        v is Hint <==> app.preview_row is None,
        app.preview_row matches Some(index) ==> {
            &&& v is Nothing <==> index >= app.rows@.len()
            &&& index < app.rows@.len() ==> {
                let p = app.rows@[index as int].preview;
                &&& v is Loading <==> p.loading
                &&& v is Failed <==> !p.loading && p.error is Some
                &&& v is NoPicture <==> !p.loading && p.error is None && !p.has_picture
                &&& v is Picture <==> !p.loading && p.error is None && p.has_picture
                &&& v matches PreviewView::Picture { title, index: i, moment } ==> i == index
            }
        },
{
}

/// How far something is lies between nothing and all, and is what it was where it
/// did already.
pub proof fn fractions_stay_in_range(part: i128, whole: i128, done: usize, all: usize)
    requires
        whole > 0,
    ensures
        within_range(Fraction::Of { part, whole }) matches Fraction::Of { part: p, whole: w } && w
            > 0 && 0 <= p <= w && (0 <= part <= whole ==> p * whole == part * w) && (part < 0
            ==> p == 0) && (part > whole ==> p == w),
        all > 0 ==> count_fraction(done, all) == (Fraction::Of {
            part: done as i128,
            whole: all as i128,
        }),
        all == 0 ==> (count_fraction(done, all) matches Fraction::Of { part: p, whole: w } && p == 0
            && w > 0),
{
}

/// The length of segments in order is that of each of them, one by one.
pub proof fn lengths_add_up(list: Seq<Segment>, end: int)
    requires
        in_order(list, end),
        0 <= end <= i128::MAX,
    ensures
        total_length(list) == Secs::Finite(
            list.map_values(|s: Segment| s.end.nanos() - s.start.nanos()).fold_left(
                0int,
                |a: int, b: int| a + b,
            ) as i128,
        ),
        0 <= list.map_values(|s: Segment| s.end.nanos() - s.start.nanos()).fold_left(
            0int,
            |a: int, b: int| a + b,
        ) <= end,
    decreases list.len(),
{
    reveal(Seq::fold_left);
    let f = |s: Segment| s.end.nanos() - s.start.nanos();
    let add = |a: int, b: int| a + b;
    let all = list.map_values(f);
    if list.len() > 0 {
        let front = list.drop_last();
        assert(all.drop_last() =~= front.map_values(f));
        assert(all.last() == f(list.last()));
        assert(forall|i: int| 0 <= i < front.len() ==> #[trigger] front[i] == list[i]);
        assert(list[list.len() - 1].valid());
        let before = if front.len() > 0 {
            front.last().end.nanos()
        } else {
            0
        };
        if front.len() > 0 {
            assert(list[list.len() - 2].end.nanos() < list[list.len() - 1].start.nanos());
            assert(front.last() == list[list.len() - 2]);
            assert(list[list.len() - 2].valid());
        }
        assert(in_order(front, before));
        lengths_add_up(front, before);
        assert(all.fold_left(0int, add) == front.map_values(f).fold_left(0int, add) + all.last());
    }
}

/// Times are added, taken from each other and compared as their nanoseconds are.
pub proof fn times_are_counted_in_nanoseconds(a: i128, b: i128, low: i128, high: i128)
    requires
        low <= high,
        i128::MIN <= a + b <= i128::MAX,
        i128::MIN <= a - b <= i128::MAX,
    ensures
        Secs::Finite(a).plus_spec(Secs::Finite(b)) == Secs::Finite((a + b) as i128),
        Secs::Finite(a).minus_spec(Secs::Finite(b)) == Secs::Finite((a - b) as i128),
        Secs::Finite(a).before(Secs::Finite(b)) <==> a < b,
        Secs::Finite(a).no_later(Secs::Finite(b)) <==> a <= b,
        Secs::Finite(a).clamped(Secs::Finite(low), Secs::Finite(high)) matches Secs::Finite(c) && low
            <= c <= high && (low <= a <= high ==> c == a) && (a < low ==> c == low) && (a > high
            ==> c == high),
        Secs::Finite(a).at_least_zero_spec() matches Secs::Finite(c) && c >= 0 && (a >= 0 ==> c
            == a) && (a < 0 ==> c == 0),
        !Secs::Nan.before(Secs::Finite(a)) && !Secs::Finite(a).before(Secs::Nan),
        Secs::Finite(a).before(Secs::PosInf) && Secs::NegInf.before(Secs::Finite(a)),
{
}

} // verus!
