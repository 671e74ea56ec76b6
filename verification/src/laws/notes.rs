//! Laws of what is told while work goes on, and of how programs are looked for.

use vstd::prelude::*;

use crate::app::messages::{
    after_detect_event, after_picture, after_preview_failed, after_probe_progress, finished_line,
};
use crate::app::views::font_hint_spec;
use crate::app::{App, LogLevel};
use crate::cut::job::Plan;
use crate::cut::{Fraction, Note};
use crate::detect::job::search_notes;
use crate::detect::library::{library_begin, LibraryAct};
use crate::detect::{default_options, finding_notes, finding_text, readable, Reading, Told};
use crate::error::Fault;
use crate::exec::{answered, capped, code_text, first_file, places, tail_of, Ran};
use crate::fonts::FontSetup;
use crate::laws::searching::ends_in;
use crate::laws::names::{all_white, parts_occur_between_others};
use crate::laws::window::lemma_trimmed;
use crate::model::{stamp, Detection, EpisodeFile};
use crate::paths::{file_name_of, joined_path};
use crate::pipeline::{detection_at, shown_name};
use crate::probe::{probe_args, probe_outcome, FfprobeOutput};
use crate::secs::Secs;
use crate::show::{non_empty_spec, tooltip_of};
use crate::text::{decimal, occurs, texts, trimmed};
use crate::worker::{CutInfo, ToolInfo};

verus! {

/// A picture that could be loaded is shown in its row, with its moment; where it
/// could not, the row says so and keeps what it had. No other row changes.
pub proof fn pictures_go_to_their_row(
    before: App,
    after: App,
    index: usize,
    decoded: Result<(), String>,
    at: Secs,
    k: int,
)
    requires
        after_picture(before, after, index, decoded, at),
        0 <= k < before.rows@.len(),
    ensures
        after.rows@.len() == before.rows@.len(),
        k != index ==> after.rows@[k] == before.rows@[k],
        k == index ==> {
            let p = after.rows@[k].preview;
            let old_p = before.rows@[k].preview;
            &&& !p.loading
            &&& decoded is Ok ==> p.has_picture && p.at_secs == Some(at) && p.error is None
            &&& decoded is Err ==> p.error is Some && p.has_picture == old_p.has_picture
                && p.at_secs == old_p.at_secs
            &&& after.rows@[k].task == before.rows@[k].task
        },
{
}

/// Where a frame could not be had, its row says so, and waits no longer.
pub proof fn missing_pictures_are_told(before: App, after: App, index: usize, error: String)
    requires
        after_preview_failed(before, after, index, error),
        index < before.rows@.len(),
    ensures
        !after.rows@[index as int].preview.loading,
        after.rows@[index as int].preview.error == Some(error),
        after.log_lines().last().0 == LogLevel::Warn,
{
}

/// While videos are read or analysed, as much is done as were counted, of as many as
/// there are.
pub proof fn progress_is_what_is_counted(
    before: App,
    after: App,
    index: usize,
    total: usize,
    name: Seq<char>,
)
    requires
        0 < total,
    ensures
        after_probe_progress(before, after, index, total, name) ==> after.progress
            == (Fraction::Of { part: index as i128, whole: total as i128 }) && after.counter == (
            index,
            total,
        ) && after.rows == before.rows,
        after_detect_event(
            before,
            after,
            Told::EpisodeDone { index: index as nat, total: total as nat, name },
        ) ==> after.progress == (Fraction::Of { part: index as i128, whole: total as i128 })
            && after.counter == (index, total) && after.log_lines().last().0 == LogLevel::Info,
        forall|error: Seq<char>| #[trigger]
            after_detect_event(
                before,
                after,
                Told::EpisodeFailed { index: index as nat, total: total as nat, name, error },
            ) ==> after.progress == (Fraction::Of { part: index as i128, whole: total as i128 })
                && after.log_lines().last().0 == LogLevel::Warn,
{
}

/// What needle says stands in the log as it is; the stages of its work are marked.
pub proof fn told_lines_are_logged(before: App, after: App, line: Seq<char>)
    ensures
        after_detect_event(before, after, Told::Log(line)) ==> after.log_lines().last() == (
            LogLevel::Info,
            line,
        ) && after.stage == before.stage,
        after_detect_event(before, after, Told::Stage(line)) ==> after.stage@ == line,
{
}

/// Of a video for which there is no result nothing is detected, and each other one
/// has its own.
pub proof fn videos_have_their_own_detections(list: Seq<Detection>, i: int)
    ensures
        0 <= i < list.len() ==> detection_at(list, i) == list[i],
        i >= list.len() ==> detection_at(list, i).opening is None && detection_at(
            list,
            i,
        ).ending is None,
{
}

/// To keep the last lines as they come keeps the last of all lines.
pub proof fn the_last_lines_are_kept_as_they_come(lines: Seq<Seq<char>>, line: Seq<char>)
    ensures
        capped(tail_of(lines), line) == tail_of(lines.push(line)),
{
    let all = lines.push(line);
    if lines.len() >= 200 {
        assert(capped(tail_of(lines), line) =~= tail_of(all));
    } else {
        assert(capped(tail_of(lines), line) =~= all);
    }
}

/// A program that is in the directory that the user named is taken from there,
/// whatever there is elsewhere. One that is nowhere is not found, and one that is
/// found is at a place where there is a file.
pub proof fn programs_are_found_where_they_are<F: Fn(&str) -> bool>(
    is_file: F,
    file: Seq<char>,
    dir: Seq<char>,
    dirs: Seq<Seq<char>>,
    found: Option<Seq<char>>,
)
    requires
        first_file(is_file, places(file, Some(dir), dirs), found),
    ensures
        !answered(is_file, joined_path(dir, file), false) ==> found == Some(joined_path(dir, file)),
        found matches Some(place) ==> answered(is_file, place, true) && places(
            file,
            Some(dir),
            dirs,
        ).contains(place),
        found is None ==> forall|i: int|
            0 <= i < dirs.len() ==> answered(is_file, joined_path(#[trigger] dirs[i], file), false),
{
    let all = places(file, Some(dir), dirs);
    assert(all[0] == joined_path(dir, file));
    if found is None {
        assert forall|i: int| 0 <= i < dirs.len() implies answered(
            is_file,
            joined_path(#[trigger] dirs[i], file),
            false,
        ) by {
            assert(all[2 + i] == joined_path(dirs[i], file));
        }
    }
}

/// Unless the user wants something else, endings are looked for too, needle's own
/// numbers are used, and nothing is left behind.
pub proof fn the_usual_settings_are_those_of_needle(cores: Option<usize>)
    ensures
        ({
            let o = default_options(cores);
            &&& o.include_endings && o.threading
            &&& !o.force_reanalyze && !o.keep_sidecars
            &&& o.hash_match_threshold == 10
            &&& o.min_opening_duration_secs == 20 && o.min_ending_duration_secs == 20
            &&& o.time_padding_secs == Secs::Finite(0)
            &&& 1 <= o.analyze_parallelism <= 4
        }),
{
}

/// ffprobe is asked for what it knows of the container and of each stream, in JSON,
/// and the video comes last.
pub proof fn videos_are_asked_for_all_streams(video: Seq<char>)
    ensures
        probe_args(video).last() == video,
        probe_args(video).contains("-show_format"@),
        probe_args(video).contains("-show_streams"@),
        exists|i: int|
            0 <= i < probe_args(video).len() - 2 && #[trigger] probe_args(video)[i]
                == "-print_format"@ && probe_args(video)[i + 1] == "json"@,
{
    let args = probe_args(video);
    assert(args[2] == "-print_format"@ && args[3] == "json"@);
    assert(args[4] == "-show_format"@);
    assert(args[5] == "-show_streams"@);
}

/// What ffprobe wrote is what is known of a video, where it could be read; where it
/// could not, the error says why.
pub proof fn probes_give_what_was_read(
    output: FfprobeOutput,
    error: String,
    stdout: Seq<char>,
    video: Seq<char>,
)
    ensures
        probe_outcome(Ok(output), stdout, video) == output.info(video),
        probe_outcome(Err(error), stdout, video) matches Err(Fault::ParseFailed { what, detail })
            && occurs(detail, error@),
{
    let f = probe_outcome(Err(error), stdout, video)->Err_0;
    let rest = "；ffprobe 输出首行："@ + crate::probe::first_line_of(stdout);
    let none = Seq::<char>::empty();
    assert(none + error@ + rest =~= f->detail);
    parts_occur_between_others(f->detail, error@);
}

/// A detection with needle as a library begins where there are two videos and the
/// user did not stop it.
pub proof fn libraries_begin_with_two_videos(count: nat, cancelled: bool)
    ensures
        library_begin(count, cancelled).act is Look <==> count >= 2 && !cancelled,
        count < 2 ==> library_begin(count, cancelled).act == LibraryAct::Finish(
            Err(Fault::NotEnoughEpisodes(count)),
        ),
        count >= 2 && cancelled ==> library_begin(count, cancelled).act == LibraryAct::Finish(
            Err(Fault::Cancelled),
        ),
{
}

/// A field that is blank holds nothing, and any other what stands in it.
pub proof fn blank_fields_hold_nothing(s: Seq<char>)
    ensures
        non_empty_spec(s) is None <==> all_white(s),
        !all_white(s) ==> non_empty_spec(s) == Some(trimmed(s)),
{
    lemma_trimmed(s);
}

/// Where no font could be used, the user is told where one was looked for.
pub proof fn missing_fonts_are_told(setup: FontSetup, i: int)
    requires
        0 <= i < setup.attempted@.len(),
    ensures
        font_hint_spec(setup) is None <==> setup.loaded_from is Some,
        setup.loaded_from is None ==> occurs(font_hint_spec(setup)->0, setup.attempted@[i]@),
{
    if setup.loaded_from is None {
        let list = texts(setup.attempted@);
        assert(list[i] == setup.attempted@[i]@);
        lemma_occurs_joined(list, "\n"@, i);
        let front = "已尝试 "@ + decimal(setup.attempted@.len()) + " 处：\n"@;
        let tail = crate::text::joined(list, "\n"@);
        parts_occur_between_others(tail, list[i]);
        let (a, b) = choose|a: Seq<char>, b: Seq<char>| #[trigger] (a + list[i] + b) == tail;
        let hint = font_hint_spec(setup)->0;
        assert((front + a) + list[i] + b =~= hint);
        parts_occur_between_others(hint, list[i]);
    }
}

/// Each text of a row occurs in it.
proof fn lemma_occurs_joined(list: Seq<Seq<char>>, sep: Seq<char>, i: int)
    requires
        0 <= i < list.len(),
    ensures
        occurs(crate::text::joined(list, sep), list[i]),
    decreases list.len(),
{
    let none = Seq::<char>::empty();
    let s = crate::text::joined(list, sep);
    parts_occur_between_others(s, list[i]);
    if list.len() == 1 {
        assert(none + list[0] + none =~= s);
    } else if i == list.len() - 1 {
        let front = crate::text::joined(list.drop_last(), sep) + sep;
        assert(front + list[i] + none =~= s);
    } else {
        let front = list.drop_last();
        lemma_occurs_joined(front, sep, i);
        let t = crate::text::joined(front, sep);
        parts_occur_between_others(t, list[i]);
        assert(front[i] == list[i]);
        let (a, b) = choose|a: Seq<char>, b: Seq<char>| #[trigger] (a + list[i] + b) == t;
        assert(a + list[i] + (b + sep + list.last()) =~= s);
    }
}

/// What is known of the programs is told: where each is, and which ffmpeg it is.
pub proof fn tooltips_tell_of_the_programs(info: ToolInfo)
    ensures
        occurs(tooltip_of(Some(info)), info.ffmpeg@),
        occurs(tooltip_of(Some(info)), info.ffmpeg_version@),
        info.needle matches Some(p) ==> ends_in(tooltip_of(Some(info)), p@),
{
    let t = tooltip_of(Some(info));
    let end = match info.needle {
        Some(p) => p@,
        None => "未找到"@,
    };
    let rest = "\n"@ + info.ffmpeg_version@ + "\nneedle："@ + end;
    assert("ffmpeg："@ + info.ffmpeg@ + rest =~= t);
    parts_occur_between_others(t, info.ffmpeg@);
    let front = "ffmpeg："@ + info.ffmpeg@ + "\n"@;
    let back = "\nneedle："@ + end;
    assert(front + info.ffmpeg_version@ + back =~= t);
    parts_occur_between_others(t, info.ffmpeg_version@);
    assert(t.skip(t.len() - end.len()) =~= end);
}

/// Of each video whose results could be read one line tells, in its place: with its
/// name, and with what was found in it.
pub proof fn findings_are_told_in_order(files: Seq<Seq<char>>, readings: Seq<Reading>, i: int)
    requires
        files.len() == readings.len(),
        0 <= i < readable(readings),
    ensures
        finding_notes(files, readings).len() == readable(readings),
        finding_notes(files, readings)[i] matches Told::Log(line) && ends_in(
            line,
            finding_text(readings[i]->Ok_0),
        ) && occurs(line, shown_name(files[i])) && occurs(line, decimal((i + 1) as nat)),
{
    let line = finding_notes(files, readings)[i]->Log_0;
    let end = finding_text(readings[i]->Ok_0);
    assert(line.skip(line.len() - end.len()) =~= end);
    let number = decimal((i + 1) as nat);
    let front = "["@ + number + "/"@ + decimal(files.len()) + "] "@;
    let back = " -> "@ + end;
    assert(front + shown_name(files[i]) + back =~= line);
    parts_occur_between_others(line, shown_name(files[i]));
    let rest = "/"@ + decimal(files.len()) + "] "@ + shown_name(files[i]) + " -> "@ + end;
    assert("["@ + number + rest =~= line);
    parts_occur_between_others(line, number);
}

/// The name of a file is shown without the way to it; a path without a name as it is.
pub proof fn files_are_shown_by_their_names(path: Seq<char>, file: EpisodeFile)
    ensures
        file_name_of(path) matches Some(n) ==> shown_name(path) == n,
        file_name_of(path) is None ==> shown_name(path) == path,
        file_name_of(file.path@) matches Some(n) ==> file.name_spec() == n,
        file_name_of(file.path@) is None ==> file.name_spec() == file.path@,
{
}

/// Of a program that failed the code is told with its sign, and of one that was
/// killed that it has none.
pub proof fn codes_are_told_with_their_sign(r: Ran, cmd: Seq<char>, n: i32)
    requires
        n > 0,
    ensures
        ends_in(code_text(Some(n)), decimal(n as nat)),
        ends_in(code_text(Some((-n) as i32)), "-"@ + decimal(n as nat)),
        code_text(None) != code_text(Some(n)),
        r.failure(cmd) matches Fault::CommandFailed { cmd: c, code, stderr } && c == cmd && code
            == code_text(r.status) && stderr == r.tail_text(),
{
    let a = code_text(Some(n));
    let d = decimal(n as nat);
    assert(a.skip(a.len() - d.len()) =~= d);
    let b = code_text(Some((-n) as i32));
    let e = "-"@ + d;
    assert(b.skip(b.len() - e.len()) =~= e);
    reveal_strlit("退出码 ");
    reveal_strlit("进程被强制终止，无退出码");
    assert(a[0] == '退' && code_text(None)[0] == '进');
}

/// Before a piece is cut its number is told, and where it begins and ends.
pub proof fn pieces_are_told(plan: Plan, i: nat)
    requires
        i < plan.keep.len(),
    ensures
        plan.part_note(i) matches Note::Line(line) && occurs(line, decimal(i + 1)) && occurs(
            line,
            stamp(plan.keep[i as int].start),
        ) && ends_in(line, stamp(plan.keep[i as int].end)),
{
    let line = plan.part_note(i)->Line_0;
    let start = stamp(plan.keep[i as int].start);
    let end = stamp(plan.keep[i as int].end);
    assert(line.skip(line.len() - end.len()) =~= end);
    let front = "—— 第 "@ + decimal(i + 1) + "/"@ + decimal(plan.keep.len()) + " 段："@;
    let back = " → "@ + end;
    assert(front + start + back =~= line);
    parts_occur_between_others(line, start);
    let rest = "/"@ + decimal(plan.keep.len()) + " 段："@ + start + " → "@ + end;
    assert("—— 第 "@ + decimal(i + 1) + rest =~= line);
    parts_occur_between_others(line, decimal(i + 1));
}

/// What came of a cut is told under the number of its row, and by the name of what
/// was made, or by why it was not.
pub proof fn finished_cuts_are_told(index: usize, result: Result<CutInfo, String>)
    ensures
        occurs(finished_line(index, result).1, decimal((index + 1) as nat)),
        match result {
            Ok(info) => finished_line(index, result).0 == LogLevel::Info && (file_name_of(
                info.output@,
            ) matches Some(n) ==> ends_in(finished_line(index, result).1, n)),
            Err(e) => finished_line(index, result).0 == LogLevel::Error && ends_in(
                finished_line(index, result).1,
                e@,
            ),
        },
{
    let line = finished_line(index, result).1;
    let n = decimal((index + 1) as nat);
    match result {
        Ok(info) => {
            let name = match file_name_of(info.output@) {
                Some(n) => n,
                None => Seq::empty(),
            };
            assert(line.skip(line.len() - name.len()) =~= name);
            let rest = "] 完成，保留 "@ + crate::rows::one_place(info.kept_secs) + "s -> "@ + name;
            assert("["@ + n + rest =~= line);
        },
        Err(e) => {
            assert(line.skip(line.len() - e@.len()) =~= e@);
            let rest = "] 失败："@ + e@;
            assert("["@ + n + rest =~= line);
        },
    }
    parts_occur_between_others(line, n);
}

/// Videos that had to be left out are told of, just where there are any.
pub proof fn videos_left_out_are_told(count: nat, left: nat)
    requires
        left <= count,
    ensures
        search_notes(count, left).len() == (if left < count {
            3nat
        } else {
            2nat
        }),
        left < count ==> (search_notes(count, left)[0] matches Told::Log(line) && occurs(
            line,
            decimal((count - left) as nat),
        ) && occurs(line, decimal(left))),
{
    if left < count {
        let line = search_notes(count, left)[0]->Log_0;
        let a = decimal((count - left) as nat);
        let none = Seq::<char>::empty();
        let rest = " 个文件分析失败已跳过，用剩下 "@ + decimal(left) + " 个继续比对"@;
        assert(none + a + rest =~= line);
        parts_occur_between_others(line, a);
        let front = a + " 个文件分析失败已跳过，用剩下 "@;
        assert(front + decimal(left) + " 个继续比对"@ =~= line);
        parts_occur_between_others(line, decimal(left));
    }
}

} // verus!
