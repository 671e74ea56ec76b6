//! Laws of what is read: needle's results, and what ffprobe tells of a video.

use vstd::prelude::*;

use crate::detect::{collected, readable, result_of, Reading};
use crate::error::{CoreError, Fault};
use crate::model::{Detection, Segment};
use crate::pipeline::episode_of;
use crate::probe::{seconds_in, stream_of, FfprobeOutput, FfprobeStream, MediaInfo};
use crate::secs::Secs;
use crate::skipfile::{reading_of, RawSkipFile};

verus! {

/// Whether two times are the start and the end of a stretch: both are numbers, and
/// the one is before the other.
pub open spec fn makes_a_stretch(start: Secs, end: Secs) -> bool {
    start is Finite && end is Finite && start->Finite_0 < end->Finite_0
}

/// The opening and the ending are read from a file of results each for itself: what
/// stands there for the one makes no difference to the other. A stretch is taken
/// as it stands there; what is none counts for nothing.
pub proof fn opening_and_ending_are_read_apart(raw: RawSkipFile, start: Secs, end: Secs)
    ensures
        raw.opening == Some((start, end)) && makes_a_stretch(start, end)
            ==> raw.detection().opening == Some(Segment { start, end }),
        raw.ending == Some((start, end)) && makes_a_stretch(start, end)
            ==> raw.detection().ending == Some(Segment { start, end }),
        raw.opening == Some((start, end)) && !makes_a_stretch(start, end)
            ==> raw.detection().opening is None,
        raw.ending == Some((start, end)) && !makes_a_stretch(start, end)
            ==> raw.detection().ending is None,
        raw.opening is None ==> raw.detection().opening is None,
        raw.ending is None ==> raw.detection().ending is None,
{
}

/// What is read from a file of results is what stands in it, wherever an opening or
/// an ending stands in it; nothing otherwise, and an error where it could not be
/// taken apart.
pub proof fn files_are_read_as_they_are(
    raw: RawSkipFile,
    error: String,
    opening: (Secs, Secs),
    ending: (Secs, Secs),
)
    requires
        raw.opening is Some ==> raw.opening == Some(opening),
        raw.ending is Some ==> raw.ending == Some(ending),
    ensures
        ({
            let begins = raw.opening is Some && makes_a_stretch(opening.0, opening.1);
            let ends = raw.ending is Some && makes_a_stretch(ending.0, ending.1);
            let read = reading_of(Ok::<RawSkipFile, String>(raw));
            &&& read is Ok
            &&& read->Ok_0 is Some <==> begins || ends
            &&& begins ==> read->Ok_0->Some_0.opening == Some(
                Segment { start: opening.0, end: opening.1 },
            )
            &&& ends ==> read->Ok_0->Some_0.ending == Some(
                Segment { start: ending.0, end: ending.1 },
            )
            &&& ends && !begins ==> read->Ok_0->Some_0.opening is None
            &&& begins && !ends ==> read->Ok_0->Some_0.ending is None
        }),
        reading_of(Err::<RawSkipFile, String>(error)) == Err::<Option<Detection>, Fault>(
            Fault::Json(error@),
        ),
{
}

proof fn lemma_readable(readings: Seq<Reading>)
    ensures
        readable(readings) <= readings.len(),
        forall|i: int| 0 <= i < readable(readings) ==> #[trigger] readings[i] is Ok,
        readable(readings) < readings.len() ==> readings[readable(readings) as int] is Err,
    decreases readings.len(),
{
    if readings.len() > 0 && readings[0] is Ok {
        let rest = readings.drop_first();
        lemma_readable(rest);
        assert forall|i: int| 0 <= i < readable(readings) implies #[trigger] readings[i] is Ok by {
            if i > 0 {
                assert(rest[i - 1] is Ok);
            }
        }
        if readable(readings) < readings.len() {
            assert(readings[readable(readings) as int] == rest[readable(rest) as int]);
        }
    }
}

/// Whether an opening or an ending was read.
pub open spec fn found_something(r: Reading) -> bool {
    r matches Ok(Some(d)) && (d.opening is Some || d.ending is Some)
}

/// A detection gives for each video just what was read of it, in its place. It fails
/// just where something could not be read, with the first such error, and where
/// nothing was found in any of the videos.
pub proof fn all_that_was_read_is_given(readings: Seq<Reading>)
    ensures
        collected(readings) is Ok <==> (forall|i: int|
            0 <= i < readings.len() ==> #[trigger] readings[i] is Ok) && exists|i: int|
            0 <= i < readings.len() && found_something(#[trigger] readings[i]),
        collected(readings) matches Ok(list) ==> {
            &&& list.len() == readings.len()
            &&& forall|i: int|
                0 <= i < list.len() ==> {
                    &&& (#[trigger] readings[i]) matches Ok(Some(d)) ==> list[i] == d
                    &&& readings[i] matches Ok(None) ==> list[i].opening is None
                        && list[i].ending is None
                }
        },
        forall|i: int|
            0 <= i < readings.len() && (#[trigger] readings[i]) is Err && (forall|j: int|
                0 <= j < i ==> #[trigger] readings[j] is Ok) ==> collected(readings) == Err::<
                Seq<Detection>,
                Fault,
            >(readings[i]->Err_0@),
        (forall|i: int|
            0 <= i < readings.len() ==> #[trigger] readings[i] is Ok && !found_something(
                readings[i],
            )) ==> collected(readings) == Err::<Seq<Detection>, Fault>(Fault::NoDetectionAtAll),
{
    lemma_readable(readings);
    let n = readable(readings) as int;
    let all = readings.map_values(|r: Reading| result_of(r));
    assert forall|i: int|
        0 <= i < readings.len() && (#[trigger] readings[i]) is Err && (forall|j: int|
            0 <= j < i ==> #[trigger] readings[j] is Ok) implies i == n by {
        if n < i {
            assert(readings[n] is Ok);
        }
    }
    if n == readings.len() {
        if exists|i: int| 0 <= i < readings.len() && found_something(#[trigger] readings[i]) {
            let i = choose|i: int|
                0 <= i < readings.len() && found_something(#[trigger] readings[i]);
            assert(!all[i].empty());
        } else {
            assert forall|i: int| 0 <= i < all.len() implies (#[trigger] all[i]).empty() by {
                assert(!found_something(readings[i]));
                assert(readings[i] is Ok);
            }
        }
    } else {
        assert(readings[n] is Err);
    }
}

/// Whether a stream says that it is of a kind.
pub open spec fn is_of(s: FfprobeStream, kind: Seq<char>) -> bool {
    s.codec_type matches Some(t) && t@ == kind
}

/// Whether a stream is the first of its kind.
pub open spec fn is_first(streams: Seq<FfprobeStream>, i: int, kind: Seq<char>) -> bool {
    &&& 0 <= i < streams.len()
    &&& is_of(streams[i], kind)
    &&& forall|j: int| 0 <= j < i ==> !is_of(#[trigger] streams[j], kind)
}

proof fn lemma_stream(streams: Seq<FfprobeStream>, kind: Seq<char>)
    ensures
        stream_of(streams, kind) is Some <==> exists|i: int|
            0 <= i < streams.len() && is_of(#[trigger] streams[i], kind),
        forall|i: int| #[trigger]
            is_first(streams, i, kind) ==> stream_of(streams, kind) == Some(streams[i]),
    decreases streams.len(),
{
    if streams.len() > 0 {
        let rest = streams.drop_first();
        lemma_stream(rest, kind);
        if !is_of(streams[0], kind) {
            if exists|i: int| 0 <= i < streams.len() && is_of(#[trigger] streams[i], kind) {
                let i = choose|i: int|
                    0 <= i < streams.len() && is_of(#[trigger] streams[i], kind);
                assert(is_of(rest[i - 1], kind));
            }
            if exists|i: int| 0 <= i < rest.len() && is_of(#[trigger] rest[i], kind) {
                let i = choose|i: int| 0 <= i < rest.len() && is_of(#[trigger] rest[i], kind);
                assert(is_of(streams[i + 1], kind));
            }
            assert forall|i: int| #[trigger] is_first(streams, i, kind) implies stream_of(
                streams,
                kind,
            ) == Some(streams[i]) by {
                assert forall|j: int| 0 <= j < i - 1 implies !is_of(#[trigger] rest[j], kind) by {
                    assert(!is_of(streams[j + 1], kind));
                }
                assert(is_first(rest, i - 1, kind));
            }
        } else {
            assert forall|i: int| #[trigger] is_first(streams, i, kind) implies i == 0 by {
                if i > 0 {
                    assert(!is_of(streams[0], kind));
                }
            }
        }
    }
}

/// A video has sound just where one of its streams, wherever it stands among them,
/// is an audio stream. Its picture is that of the first video stream, and its codecs
/// are those of the first stream of each kind.
pub proof fn streams_are_told_by_their_kind(output: FfprobeOutput, video: Seq<char>, i: int)
    requires
        output.info(video) is Ok,
    ensures
        ({
            let info = output.info(video)->Ok_0;
            let streams = output.streams@;
            &&& info.has_audio <==> exists|k: int|
                0 <= k < streams.len() && is_of(#[trigger] streams[k], "audio"@)
            &&& is_first(streams, i, "video"@) ==> info.width == streams[i].width && info.height
                == streams[i].height && info.video_codec == streams[i].codec_name
            &&& is_first(streams, i, "audio"@) ==> info.audio_codec == streams[i].codec_name
            &&& (forall|k: int| 0 <= k < streams.len() ==> !is_of(#[trigger] streams[k], "video"@))
                ==> info.width is None && info.height is None && info.video_codec is None
            &&& (forall|k: int| 0 <= k < streams.len() ==> !is_of(#[trigger] streams[k], "audio"@))
                ==> info.audio_codec is None
        }),
{
    lemma_stream(output.streams@, "video"@);
    lemma_stream(output.streams@, "audio"@);
}

/// Streams of other kinds before or behind make no difference: two outputs in which
/// the same kinds of streams occur agree on whether there is sound.
pub proof fn sound_does_not_depend_on_the_order(
    a: FfprobeOutput,
    b: FfprobeOutput,
    video: Seq<char>,
)
    requires
        a.info(video) is Ok,
        b.info(video) is Ok,
        forall|k: int|
            0 <= k < a.streams@.len() ==> exists|l: int|
                0 <= l < b.streams@.len() && #[trigger] b.streams@[l].codec_type
                    == (#[trigger] a.streams@[k]).codec_type,
        forall|l: int|
            0 <= l < b.streams@.len() ==> exists|k: int|
                0 <= k < a.streams@.len() && #[trigger] a.streams@[k].codec_type
                    == (#[trigger] b.streams@[l]).codec_type,
    ensures
        a.info(video)->Ok_0.has_audio == b.info(video)->Ok_0.has_audio,
{
    streams_are_told_by_their_kind(a, video, 0);
    streams_are_told_by_their_kind(b, video, 0);
    let (s, t) = (a.streams@, b.streams@);
    if a.info(video)->Ok_0.has_audio {
        let k = choose|k: int| 0 <= k < s.len() && is_of(#[trigger] s[k], "audio"@);
        let l = choose|l: int| 0 <= l < t.len() && #[trigger] t[l].codec_type == s[k].codec_type;
        assert(is_of(t[l], "audio"@));
    }
    if b.info(video)->Ok_0.has_audio {
        let l = choose|l: int| 0 <= l < t.len() && is_of(#[trigger] t[l], "audio"@);
        let k = choose|k: int| 0 <= k < s.len() && #[trigger] s[k].codec_type == t[l].codec_type;
        assert(is_of(s[k], "audio"@));
    }
}

/// The length that a text gives, if it gives one.
pub open spec fn given_length(text: Option<String>) -> Option<Secs> {
    match text {
        Some(s) => seconds_in(s@),
        None => None,
    }
}

/// The length of a video is the one that its container gives; where it gives none,
/// that of the first video stream. Where it is not more than nothing, or there is
/// none, the video cannot be used, and that is said of just this video.
pub proof fn lengths_are_those_of_the_container(
    output: FfprobeOutput,
    video: Seq<char>,
    i: int,
    length: Secs,
)
    ensures
        ({
            let whole = match output.format {
                Some(f) => given_length(f.duration),
                None => None,
            };
            let usable = length is Finite && length->Finite_0 > 0;
            let unknown = Err::<MediaInfo, Fault>(Fault::DurationUnknown(video));
            &&& whole == Some(length) && usable ==> output.info(video) is Ok && output.info(
                video,
            )->Ok_0.duration_secs == length
            &&& whole == Some(length) && !usable ==> output.info(video) == unknown
            &&& whole is None && is_first(output.streams@, i, "video"@) && given_length(
                output.streams@[i].duration,
            ) == Some(length) && usable ==> output.info(video) is Ok && output.info(
                video,
            )->Ok_0.duration_secs == length
            &&& whole is None && is_first(output.streams@, i, "video"@) && (given_length(
                output.streams@[i].duration,
            ) is None || given_length(output.streams@[i].duration) == Some(length) && !usable)
                ==> output.info(video) == unknown
            &&& whole is None && (forall|k: int|
                0 <= k < output.streams@.len() ==> !is_of(
                    #[trigger] output.streams@[k],
                    "video"@,
                )) ==> output.info(video) == unknown
        }),
{
    lemma_stream(output.streams@, "video"@);
}

/// An episode on the list has all that was read of its video. One that could not be
/// read is on it too, without a length.
pub proof fn episodes_have_what_was_read(
    path: String,
    size: Option<u64>,
    info: MediaInfo,
    error: CoreError,
)
    ensures
        ({
            let e = episode_of(path, size, Ok::<MediaInfo, CoreError>(info));
            &&& e.path == path
            &&& size is Some ==> e.size_bytes == size->0
            &&& e.duration_secs == Some(info.duration_secs)
            &&& e.width == info.width
            &&& e.height == info.height
            &&& e.has_audio == info.has_audio
        }),
        ({
            let e = episode_of(path, size, Err::<MediaInfo, CoreError>(error));
            &&& e.path == path
            &&& size is Some ==> e.size_bytes == size->0
            &&& e.duration_secs is None
            &&& e.width is None && e.height is None
            &&& e.has_audio
        }),
{
}

} // verus!
