//! needle as a library: the part of its interface that is used here.
//!
//! This is a stand-in with needle's signatures. It takes the settings like needle
//! does, and finds nothing: no fingerprints are taken and nothing is compared.
//! What needle finds it does not hand out anyway. It writes it to a file beside
//! each video.

use vstd::prelude::*;

use crate::secs::Secs;

verus! {

/// How long a stretch of sound is for one fingerprint, in nanoseconds: 0.3 seconds,
/// as near as 32 bits come to it.
pub const DEFAULT_HASH_NANOS: i128 = 300_000_012;

/// What can go wrong in needle.
#[derive(Debug, Clone, Copy, PartialEq, Eq, Structural)]
pub enum Error {
    Stub,
}

impl Error {
    /// The error in words.
    pub open spec fn text(self) -> Seq<char> {
        "needle stub error"@
    }

    /// The error in words.
    pub fn message(&self) -> (r: &'static str)
        ensures
            r@ == self.text(),
    {
        "needle stub error"
    }
}

/// The fingerprints of a video.
#[derive(Debug, Clone, Copy, PartialEq, Eq)]
pub struct FrameHashes {
    private: (),
}

impl Default for FrameHashes {
    fn default() -> (r: Self) {
        FrameHashes { private: () }
    }
}

/// What was found in a video. It cannot be read from here.
#[derive(Debug, Clone, Copy, PartialEq, Eq)]
pub struct SearchResult {
    opening: Option<(Secs, Secs)>,
    ending: Option<(Secs, Secs)>,
}

impl SearchResult {
    /// Whether neither an opening nor an ending was found.
    pub closed spec fn nothing(self) -> bool {
        self.opening is None && self.ending is None
    }
}

impl Default for SearchResult {
    fn default() -> (r: Self)
        ensures
            r.nothing(),
    {
        SearchResult { opening: None, ending: None }
    }
}

/// Takes the fingerprints of videos.
#[derive(Debug)]
pub struct Analyzer<P> {
    pub videos: Vec<P>,
    /// Whether the ends of the videos are taken too. If not, no endings are found.
    pub include_endings: bool,
    pub threaded_decoding: bool,
    pub force: bool,
}

impl<P> Default for Analyzer<P> {
    fn default() -> (r: Self)
        ensures
            r.videos@.len() == 0,
            !r.include_endings,
            !r.threaded_decoding,
            !r.force,
    {
        Analyzer {
            videos: Vec::new(),
            include_endings: false,
            threaded_decoding: false,
            force: false,
        }
    }
}

impl<P> Analyzer<P> {
    pub fn from_files(videos: Vec<P>, threaded_decoding: bool, force: bool) -> (r: Self)
        ensures
            r == (Analyzer { videos, include_endings: false, threaded_decoding, force }),
    {
        Analyzer { videos, include_endings: false, threaded_decoding, force }
    }

    pub fn with_include_endings(self, include_endings: bool) -> (r: Self)
        ensures
            r == (Analyzer { include_endings, ..self }),
    {
        Analyzer { include_endings, ..self }
    }

    pub fn with_threaded_decoding(self, threaded_decoding: bool) -> (r: Self)
        ensures
            r == (Analyzer { threaded_decoding, ..self }),
    {
        Analyzer { threaded_decoding, ..self }
    }

    /// Takes the fingerprints.
    pub fn run(&self, _hash_duration: Secs, _persist: bool, _threading: bool) -> (r: Result<
        Vec<FrameHashes>,
        Error,
    >)
        ensures
            r matches Ok(hashes) && hashes@.len() == 0,
    {
        Ok(Vec::new())
    }
}

/// Compares videos by their fingerprints.
#[derive(Debug)]
pub struct Comparator<P> {
    pub videos: Vec<P>,
    pub include_endings: bool,
    pub hash_match_threshold: u32,
    pub min_opening_duration: Secs,
    pub min_ending_duration: Secs,
    pub time_padding: Secs,
}

impl<P> Comparator<P> {
    /// Nothing is to be compared yet, and all settings are needle's own.
    pub open spec fn is_plain(self) -> bool {
        &&& !self.include_endings
        &&& self.hash_match_threshold == 10
        &&& self.min_opening_duration == Secs::Finite(0)
        &&& self.min_ending_duration == Secs::Finite(0)
        &&& self.time_padding == Secs::Finite(0)
    }
}

impl<P> Default for Comparator<P> {
    fn default() -> (r: Self)
        ensures
            r.videos@.len() == 0,
            r.is_plain(),
    {
        Comparator {
            videos: Vec::new(),
            include_endings: false,
            hash_match_threshold: 10,
            min_opening_duration: Secs::Finite(0),
            min_ending_duration: Secs::Finite(0),
            time_padding: Secs::Finite(0),
        }
    }
}

/// Compares the videos of an analyzer.
impl<P> From<Analyzer<P>> for Comparator<P> {
    fn from(analyzer: Analyzer<P>) -> (r: Self) {
        Comparator {
            videos: analyzer.videos,
            include_endings: false,
            hash_match_threshold: 10,
            min_opening_duration: Secs::Finite(0),
            min_ending_duration: Secs::Finite(0),
            time_padding: Secs::Finite(0),
        }
    }
}

impl<P> vstd::std_specs::convert::FromSpecImpl<Analyzer<P>> for Comparator<P> {
    open spec fn obeys_from_spec() -> bool {
        true
    }

    open spec fn from_spec(analyzer: Analyzer<P>) -> Self {
        Comparator {
            videos: analyzer.videos,
            include_endings: false,
            hash_match_threshold: 10,
            min_opening_duration: Secs::Finite(0),
            min_ending_duration: Secs::Finite(0),
            time_padding: Secs::Finite(0),
        }
    }
}

impl<P> Comparator<P> {
    pub fn with_include_endings(self, include_endings: bool) -> (r: Self)
        ensures
            r == (Comparator { include_endings, ..self }),
    {
        Comparator { include_endings, ..self }
    }

    pub fn with_hash_match_threshold(self, hash_match_threshold: u32) -> (r: Self)
        ensures
            r == (Comparator { hash_match_threshold, ..self }),
    {
        Comparator { hash_match_threshold, ..self }
    }

    pub fn with_min_opening_duration(self, min_opening_duration: Secs) -> (r: Self)
        ensures
            r == (Comparator { min_opening_duration, ..self }),
    {
        Comparator { min_opening_duration, ..self }
    }

    pub fn with_min_ending_duration(self, min_ending_duration: Secs) -> (r: Self)
        ensures
            r == (Comparator { min_ending_duration, ..self }),
    {
        Comparator { min_ending_duration, ..self }
    }

    pub fn with_time_padding(self, time_padding: Secs) -> (r: Self)
        ensures
            r == (Comparator { time_padding, ..self }),
    {
        Comparator { time_padding, ..self }
    }

    /// Compares the videos. The fingerprints are those of the same videos, in the
    /// same order.
    pub fn run_with_frame_hashes(
        &self,
        _frame_hashes: Vec<FrameHashes>,
        _display: bool,
        _use_skip_files: bool,
        _write_skip_files: bool,
        _threading: bool,
    ) -> (r: Result<Vec<SearchResult>, Error>)
        ensures
            r matches Ok(results) && results@.len() == 0,
    {
        Ok(Vec::new())
    }
}

} // verus!
