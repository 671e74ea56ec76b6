//! Which font of the system the window uses. Its own has no Chinese characters.

use vstd::prelude::*;

use crate::text::texts;

verus! {

/// The fonts that are looked for, the best for a window first.
pub const CANDIDATES: [&'static str; 10] = [
    "C:\\Windows\\Fonts\\msyh.ttc",
    "C:\\Windows\\Fonts\\Deng.ttf",
    "C:\\Windows\\Fonts\\simhei.ttf",
    "C:\\Windows\\Fonts\\simsun.ttc",
    "/System/Library/Fonts/PingFang.ttc",
    "/System/Library/Fonts/Hiragino Sans GB.ttc",
    "/usr/share/fonts/opentype/noto/NotoSansCJK-Regular.ttc",
    "/usr/share/fonts/truetype/noto/NotoSansCJK-Regular.ttc",
    "/usr/share/fonts/truetype/wqy/wqy-microhei.ttc",
    "/usr/share/fonts/truetype/arphic/uming.ttc",
];

/// A file with fewer bytes is no font.
pub const MIN_FONT_BYTES: usize = 1024;

/// What came of looking for a font.
#[derive(Debug, PartialEq, Eq)]
pub struct FontSetup {
    /// The font that is used, if any could be.
    pub loaded_from: Option<String>,
    /// The places before it that held none.
    pub attempted: Vec<String>,
}

/// Whether a file of that size, if it could be read at all, can be a font.
pub open spec fn usable(size: Option<usize>) -> bool {
    size matches Some(n) && n >= MIN_FONT_BYTES
}

/// The first `n` candidates.
pub open spec fn first_candidates(n: nat) -> Seq<Seq<char>> {
    Seq::new(n, |i: int| CANDIDATES@[i]@)
}

/// Whether `size_of`, asked about the place, gave this answer.
pub open spec fn sized<F: Fn(&str) -> Option<usize>>(
    size_of: F,
    place: Seq<char>,
    size: Option<usize>,
) -> bool {
    exists|p: &str| p@ == place && #[trigger] call_ensures(size_of, (p,), size)
}

/// Whether the `i`th candidate turned out to be a font, or not to be one.
pub open spec fn judged<F: Fn(&str) -> Option<usize>>(size_of: F, i: int, good: bool) -> bool {
    exists|size: Option<usize>| #[trigger] sized(size_of, CANDIDATES@[i]@, size) && usable(size)
        == good
}

/// Looks for a font: the first candidate that can be one. `size_of` reads a file
/// and tells its size.
pub fn choose_font<F: Fn(&str) -> Option<usize>>(size_of: F) -> (r: FontSetup)
    requires
        forall|p: &str| call_requires(size_of, (p,)),
    ensures
        ({
            let n = r.attempted@.len();
            &&& n <= 10
            &&& texts(r.attempted@) == first_candidates(n)
            &&& forall|i: int| 0 <= i < n ==> #[trigger] judged(size_of, i, false)
            &&& match r.loaded_from {
                Some(p) => n < 10 && p@ == CANDIDATES@[n as int]@ && judged(
                    size_of,
                    n as int,
                    true,
                ),
                None => n == 10,
            }
        }),
{
    let mut attempted: Vec<String> = Vec::new();
    let known = CANDIDATES;
    let mut i: usize = 0;
    assert(texts(attempted@) =~= first_candidates(0));
    while i < 10
        invariant
            i <= 10,
            known == CANDIDATES,
            attempted@.len() == i,
            forall|p: &str| call_requires(size_of, (p,)),
            texts(attempted@) == first_candidates(i as nat),
            forall|k: int| 0 <= k < i ==> #[trigger] judged(size_of, k, false),
        decreases 10 - i,
    {
        let place = known[i];
        let size = size_of(place);
        assert(sized(size_of, CANDIDATES@[i as int]@, size));
        let good = match size {
            Some(n) => n >= MIN_FONT_BYTES,
            None => false,
        };
        assert(judged(size_of, i as int, good));
        if good {
            return FontSetup { loaded_from: Some(place.to_string()), attempted };
        }
        let ghost before = texts(attempted@);
        attempted.push(place.to_string());
        assert(texts(attempted@) =~= before.push(place@));
        assert(first_candidates((i + 1) as nat) =~= before.push(place@));
        i += 1;
    }
    FontSetup { loaded_from: None, attempted }
}

} // verus!
