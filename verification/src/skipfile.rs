//! The files that needle leaves beside a video.
//!
//! needle hands its results over in a file only. Its name is that of the video
//! with the extension replaced:
//!
//! ```text
//! Show.S01E01.mp4  ->  Show.S01E01.needle.skip.json
//! ```
//!
//! needle writes no such file where it found nothing, so a missing file means
//! "nothing found" and is no error.

use vstd::prelude::*;

use crate::error::{outcome, CoreError, Fault};
use crate::exec::answered;
use crate::model::{Detection, Segment};
use crate::paths::{extended, with_extension};
use crate::secs::Secs;
use crate::text::{is_blank, texts, trimmed};

verus! {

/// The extensions of the files with the fingerprints of a video. The released
/// needle writes the first, its main branch the second; both are needle's.
pub const FRAME_HASH_EXTS: [&'static str; 2] = ["needle.bin", "needle.dat"];

/// The extension of the file with what was found in a video.
pub const SKIP_FILE_EXT: &'static str = "needle.skip.json";

/// What a file of results holds: start and end of the opening and of the ending.
#[derive(Debug, PartialEq)]
pub struct RawSkipFile {
    pub opening: Option<(Secs, Secs)>,
    pub ending: Option<(Secs, Secs)>,
    /// A checksum of the video's beginning. It is not looked at.
    pub md5: Option<String>,
}

/// Start and end as a segment; nothing where they make none.
pub open spec fn segment_of(raw: Option<(Secs, Secs)>) -> Option<Segment> {
    match raw {
        Some((start, end)) => if (Segment { start, end }).valid() {
            Some(Segment { start, end })
        } else {
            None
        },
        None => None,
    }
}

fn to_segment(raw: Option<(Secs, Secs)>) -> (r: Option<Segment>)
    ensures
        r == segment_of(raw),
{
    match raw {
        Some((start, end)) => {
            let s = Segment::new(start, end);
            if s.is_valid() {
                Some(s)
            } else {
                None
            }
        },
        None => None,
    }
}

impl RawSkipFile {
    /// What was detected. A stretch that ends where it starts, or before, comes
    /// from a single match and counts for nothing.
    pub open spec fn detection(self) -> Detection {
        Detection { opening: segment_of(self.opening), ending: segment_of(self.ending) }
    }

    /// What was detected.
    pub fn to_detection(&self) -> (r: Detection)
        ensures
            r == self.detection(),
    {
        Detection { opening: to_segment(self.opening), ending: to_segment(self.ending) }
    }
}

/// Every place where needle may leave fingerprints of the video.
pub open spec fn hash_places(video: Seq<char>) -> Seq<Seq<char>> {
    seq![extended(video, "needle.bin"@), extended(video, "needle.dat"@)]
}

/// Every file that needle may leave beside the video.
pub open spec fn sidecars(video: Seq<char>) -> Seq<Seq<char>> {
    hash_places(video).push(extended(video, SKIP_FILE_EXT@))
}

/// Every place where needle may leave fingerprints of the video.
pub fn frame_hash_paths(video: &str) -> (r: Vec<String>)
    ensures
        texts(r@) == hash_places(video@),
{
    let mut out: Vec<String> = Vec::new();
    out.push(with_extension(video, FRAME_HASH_EXTS[0]));
    out.push(with_extension(video, FRAME_HASH_EXTS[1]));
    assert(texts(out@) =~= hash_places(video@));
    out
}

/// The place of the file with what was found in the video.
pub fn skip_file_path(video: &str) -> (r: String)
    ensures
        r@ == extended(video@, SKIP_FILE_EXT@),
{
    with_extension(video, SKIP_FILE_EXT)
}

/// Every file that needle may leave beside the video.
pub fn sidecar_paths(video: &str) -> (r: Vec<String>)
    ensures
        texts(r@) == sidecars(video@),
{
    let mut out = frame_hash_paths(video);
    out.push(skip_file_path(video));
    assert(texts(out@) =~= sidecars(video@));
    out
}

/// The fingerprint files of the video that are there. `is_file` tells whether
/// there is a file at a place.
pub fn existing_frame_hash_paths<F: Fn(&str) -> bool>(video: &str, is_file: F) -> (r: Vec<String>)
    requires
        forall|p: &str| call_requires(is_file, (p,)),
    ensures
        exists|there: Seq<bool>|
            there.len() == hash_places(video@).len() && (forall|i: int|
                0 <= i < there.len() ==> answered(
                    is_file,
                    #[trigger] hash_places(video@)[i],
                    there[i],
                )) && texts(r@) == #[trigger] chosen(hash_places(video@), there),
{
    let all = frame_hash_paths(video);
    let ghost places = texts(all@);
    let mut out: Vec<String> = Vec::new();
    let ghost mut there: Seq<bool> = Seq::empty();
    let mut i: usize = 0;
    while i < all.len()
        invariant
            i <= all@.len(),
            places == texts(all@),
            there.len() == i,
            forall|p: &str| call_requires(is_file, (p,)),
            forall|j: int| 0 <= j < i ==> answered(is_file, #[trigger] places[j], there[j]),
            texts(out@) == chosen(places.take(i as int), there),
        decreases all@.len() - i,
    {
        let place = all[i].as_str();
        let is_there = is_file(place);
        let ghost before = texts(out@);
        assert(answered(is_file, places[i as int], is_there));
        if is_there {
            out.push(all[i].clone());
            assert(texts(out@) =~= before.push(place@));
        }
        proof {
            let more = there.push(is_there);
            assert(more.drop_last() =~= there);
            assert(places.take(i + 1).drop_last() =~= places.take(i as int));
            there = more;
        }
        i += 1;
    }
    assert(places.take(places.len() as int) =~= places);
    out
}

/// Those of the list that are marked.
pub open spec fn chosen(list: Seq<Seq<char>>, marks: Seq<bool>) -> Seq<Seq<char>>
    decreases marks.len(),
{
    if marks.len() == 0 || list.len() == 0 {
        Seq::empty()
    } else if marks.last() {
        chosen(list.drop_last(), marks.drop_last()).push(list.last())
    } else {
        chosen(list.drop_last(), marks.drop_last())
    }
}

/// What came of reading a file as text.
#[derive(Debug, PartialEq, Eq)]
pub enum FileText {
    /// There is no such file.
    Missing,
    /// The system reported an error.
    Unreadable(String),
    Text(String),
}

/// What the parsed results say: an error where they could not be parsed, and
/// nothing where neither an opening nor an ending is in them.
pub open spec fn reading_of(parsed: Result<RawSkipFile, String>) -> Result<Option<Detection>, Fault> {
    match parsed {
        Ok(raw) => Ok(
            if raw.detection().empty() {
                None
            } else {
                Some(raw.detection())
            },
        ),
        Err(e) => Err(Fault::Json(e@)),
    }
}

/// What the parsed results say.
pub fn interpret(parsed: Result<RawSkipFile, String>) -> (r: Result<Option<Detection>, CoreError>)
    ensures
        outcome(r) == reading_of(parsed),
{
    match parsed {
        Ok(raw) => {
            let det = raw.to_detection();
            if det.is_empty() {
                Ok(None)
            } else {
                Ok(Some(det))
            }
        },
        Err(e) => Err(CoreError::Json(e)),
    }
}

/// Reads what was detected in a video from its file of results. A missing file
/// and an empty one (needle was killed while it wrote) mean that nothing was
/// found. `parse` takes the text apart.
pub fn read_detection<F: Fn(&str) -> Result<RawSkipFile, String>>(
    file: &FileText,
    parse: F,
) -> (r: Result<Option<Detection>, CoreError>)
    requires
        forall|s: &str| call_requires(parse, (s,)),
    ensures
        match *file {
            FileText::Missing => outcome(r) == Ok::<Option<Detection>, Fault>(None),
            FileText::Unreadable(e) => outcome(r) == Err::<Option<Detection>, Fault>(
                Fault::Io(e@),
            ),
            FileText::Text(t) => if trimmed(t@).len() == 0 {
                outcome(r) == Ok::<Option<Detection>, Fault>(None)
            } else {
                exists|s: &str, parsed: Result<RawSkipFile, String>|
                    s@ == t@ && #[trigger] call_ensures(parse, (s,), parsed) && outcome(r)
                        == reading_of(parsed)
            },
        },
{
    match file {
        FileText::Missing => Ok(None),
        FileText::Unreadable(e) => Err(CoreError::Io(e.clone())),
        FileText::Text(t) => {
            if is_blank(t.as_str()) {
                return Ok(None);
            }
            let text = t.as_str();
            let parsed = parse(text);
            let ghost outcome = parsed;
            let r = interpret(parsed);
            assert(call_ensures(parse, (text,), outcome));
            r
        },
    }
}

} // verus!
