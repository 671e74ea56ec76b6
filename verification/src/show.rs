//! What the window writes: short texts made of the state.

use vstd::prelude::*;

use crate::text::{chars_of, is_white, text_of, trim, trimmed, white};
use crate::worker::ToolInfo;

verus! {

/// The words of a text: its longest parts without white space.
pub open spec fn words(s: Seq<char>) -> Seq<Seq<char>>
    decreases s.len(),
{
    if s.len() == 0 {
        Seq::empty()
    } else if white(s.last()) {
        words(s.drop_last())
    } else if s.len() == 1 || white(s[s.len() - 2]) {
        words(s.drop_last()).push(seq![s.last()])
    } else {
        let before = words(s.drop_last());
        before.drop_last().push(before.last().push(s.last()))
    }
}

/// The third word, or all of the text where it has fewer:
/// `ffmpeg version 7.1 Copyright` is `7.1`.
pub open spec fn short_version_of(raw: Seq<char>) -> Seq<char> {
    if words(raw).len() > 2 {
        words(raw)[2]
    } else {
        raw
    }
}

/// The words of a text.
fn split_words(s: &[char]) -> (r: Vec<Vec<char>>)
    ensures
        r@.map_values(|v: Vec<char>| v@) == words(s@),
{
    let mut out: Vec<Vec<char>> = Vec::new();
    let mut word: Vec<char> = Vec::new();
    let ghost view = |v: Vec<char>| v@;
    let mut i: usize = 0;
    assert(out@.map_values(view) =~= words(s@.take(0)));
    while i < s.len()
        invariant
            i <= s@.len(),
            view == (|v: Vec<char>| v@),
            word@.len() > 0 <==> (i > 0 && !white(s@[i - 1])),
            words(s@.take(i as int)) == (if word@.len() > 0 {
                out@.map_values(view).push(word@)
            } else {
                out@.map_values(view)
            }),
        decreases s@.len() - i,
    {
        let c = s[i];
        let ghost now = s@.take(i + 1);
        assert(now.drop_last() =~= s@.take(i as int));
        let ghost done = out@.map_values(view);
        if is_white(c) {
            if word.len() > 0 {
                let ghost w = word@;
                out.push(word);
                assert(out@.map_values(view) =~= done.push(w));
                word = Vec::new();
            }
        } else {
            let ghost w = word@;
            if word.len() == 0 {
                word.push(c);
                assert(word@ =~= seq![c]);
            } else {
                assert(done.push(w).drop_last() =~= done);
                word.push(c);
            }
        }
        i += 1;
    }
    assert(s@.take(i as int) =~= s@);
    if word.len() > 0 {
        let ghost done = out@.map_values(view);
        let ghost w = word@;
        out.push(word);
        assert(out@.map_values(view) =~= done.push(w));
    }
    out
}

/// The version in what ffmpeg says of itself.
pub fn short_version(raw: &str) -> (r: String)
    ensures
        r@ == short_version_of(raw@),
{
    let v = chars_of(raw);
    let list = split_words(v.as_slice());
    assert(list@.map_values(|v: Vec<char>| v@).len() == list@.len());
    if list.len() > 2 {
        text_of(list[2].as_slice())
    } else {
        raw.to_string()
    }
}

/// What a field holds; nothing where it is blank.
pub open spec fn non_empty_spec(s: Seq<char>) -> Option<Seq<char>> {
    if trimmed(s).len() == 0 {
        None
    } else {
        Some(trimmed(s))
    }
}

/// What a field holds; nothing where it is blank.
pub fn non_empty(s: &str) -> (r: Option<String>)
    ensures
        crate::text::maybe_string(r) == non_empty_spec(s@),
{
    let t = trim(s);
    if t.as_str().is_empty() {
        None
    } else {
        Some(t)
    }
}

/// A text of at most `max` characters, with `…` where something was left out.
pub open spec fn truncated(s: Seq<char>, max: nat) -> Seq<char> {
    if s.len() <= max {
        s
    } else {
        s.take(if max == 0 {
            0
        } else {
            max - 1
        }) + "…"@
    }
}

/// A text of at most `max_chars` characters, with `…` where something was left out.
pub fn truncate(s: &str, max_chars: usize) -> (r: String)
    ensures
        r@ == truncated(s@, max_chars as nat),
        max_chars > 0 ==> r@.len() <= max_chars,
{
    let v = chars_of(s);
    proof {
        reveal_strlit("…");
    }
    if v.len() <= max_chars {
        return s.to_string();
    }
    let n: usize = if max_chars == 0 {
        0
    } else {
        max_chars - 1
    };
    let head = vstd::slice::slice_subrange(v.as_slice(), 0, n);
    assert(head@ =~= s@.take(n as int));
    text_of(head).concat("…")
}

/// What is known of the programs, for the user to read.
pub open spec fn tooltip_of(info: Option<ToolInfo>) -> Seq<char> {
    match info {
        Some(t) => "ffmpeg："@ + t.ffmpeg@ + "\n"@ + t.ffmpeg_version@ + "\nneedle："@
            + match t.needle {
            Some(p) => p@,
            None => "未找到"@,
        },
        None => "正在检查…"@,
    }
}

/// What is known of the programs, for the user to read.
pub fn tool_tooltip(info: &Option<ToolInfo>) -> (r: String)
    ensures
        r@ == tooltip_of(*info),
{
    match info {
        Some(t) => {
            let front = "ffmpeg：".to_string().concat(t.ffmpeg.as_str()).concat("\n").concat(
                t.ffmpeg_version.as_str(),
            ).concat("\nneedle：");
            match &t.needle {
                Some(p) => front.concat(p.as_str()),
                None => front.concat("未找到"),
            }
        },
        None => "正在检查…".to_string(),
    }
}

} // verus!
