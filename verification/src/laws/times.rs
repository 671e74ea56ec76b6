//! Laws of times as text.

use vstd::arithmetic::div_mod::lemma_fundamental_div_mod_converse;
use vstd::arithmetic::power::*;
use vstd::prelude::*;

use crate::binary::{
    binary, lemma_grown, lemma_grown_bound, lemma_limits, lemma_shrunk, scaled_by, seconds, Binary,
};
use crate::laws::typed::{is_part, lemma_three};
use crate::model::{clock_time, millis, normalised, stamp, stamp_text, typed_time, Segment};
use crate::numbers::{
    all_digits, digit, digit_value, is_zero, lemma_far, lemma_value_bound, lemma_value_split,
    mantissa_time, number, reaches, scaled, spelled, value, whole_number,
};
use crate::rows::{field_texts, field_value, joined_segment};
use crate::secs::{of_nanos, Secs};
use crate::text::{
    decimal, digit_char, lemma_first_at_is, lower_text, lowered, padded, pieces, replaced, trimmed,
    white, zeros,
};

verus! {

/// The digits of a number are digits, and stand for it.
pub proof fn lemma_decimal(n: nat)
    ensures
        decimal(n).len() > 0,
        all_digits(decimal(n)),
        value(decimal(n)) == n,
        n < 100 ==> decimal(n).len() <= 2,
        n < 1000 ==> decimal(n).len() <= 3,
    decreases n,
{
    if n < 10 {
        assert(decimal(n).drop_last() =~= Seq::<char>::empty());
        assert(digit_value(digit_char(n as int)) == n);
        assert(value(decimal(n).drop_last()) == 0);
    } else {
        lemma_decimal(n / 10);
        let d = decimal(n / 10);
        assert(decimal(n).drop_last() =~= d);
        assert forall|i: int| 0 <= i < decimal(n).len() implies digit(
            #[trigger] decimal(n)[i],
        ) by {
            if i < d.len() {
                assert(decimal(n)[i] == d[i]);
            }
        }
        assert(n < 100 ==> d.len() <= 1) by {
            if n < 100 {
                assert(n / 10 < 10);
            }
        }
        assert(n < 1000 ==> d.len() <= 2) by {
            if n < 1000 {
                assert(n / 10 < 100);
            }
        }
    }
}

/// Zeros in front change nothing.
proof fn lemma_zeros(k: nat, d: Seq<char>)
    requires
        all_digits(d),
    ensures
        all_digits(zeros(k) + d),
        value(zeros(k) + d) == value(d),
    decreases d.len(),
{
    let s = zeros(k) + d;
    assert forall|i: int| 0 <= i < s.len() implies digit(#[trigger] s[i]) by {
        if i >= k {
            assert(s[i] == d[i - k]);
        }
    }
    if d.len() == 0 {
        assert(s =~= zeros(k));
        lemma_only_zeros(k);
    } else {
        assert(s.drop_last() =~= zeros(k) + d.drop_last());
        assert forall|i: int| 0 <= i < d.drop_last().len() implies digit(
            #[trigger] d.drop_last()[i],
        ) by {
            assert(d.drop_last()[i] == d[i]);
        }
        lemma_zeros(k, d.drop_last());
    }
}

proof fn lemma_only_zeros(k: nat)
    ensures
        value(zeros(k)) == 0,
    decreases k,
{
    if k > 0 {
        assert(zeros(k).drop_last() =~= zeros((k - 1) as nat));
        lemma_only_zeros((k - 1) as nat);
    }
}

/// A padded number is made of digits, stands for the number, and has the width
/// where the number is small enough.
pub proof fn lemma_padded(n: nat, width: nat)
    ensures
        all_digits(padded(n, width)),
        value(padded(n, width)) == n,
        padded(n, width).len() > 0,
        width == 2 && n < 100 ==> padded(n, width).len() == 2,
        width == 3 && n < 1000 ==> padded(n, width).len() == 3,
{
    lemma_decimal(n);
    let d = decimal(n);
    if d.len() < width {
        lemma_zeros((width - d.len()) as nat, d);
    }
}

pub proof fn lemma_digit_plain(c: char)
    requires
        digit(c) || c == '.' || c == ':',
    ensures
        !white(c),
        lowered(c) == c,
        c != 'e' && c != '：' && c != '，' && c != ',',
{
}

/// A text without the character stays as it is.
pub proof fn lemma_replaced_same(s: Seq<char>, c: char, with: Seq<char>)
    requires
        forall|i: int| 0 <= i < s.len() ==> #[trigger] s[i] != c,
    ensures
        replaced(s, c, with) == s,
    decreases s.len(),
{
    if s.len() > 0 {
        assert forall|i: int| 0 <= i < s.drop_last().len() implies #[trigger] s.drop_last()[i]
            != c by {
            assert(s.drop_last()[i] == s[i]);
        }
        lemma_replaced_same(s.drop_last(), c, with);
        assert(s.drop_last() + seq![s.last()] =~= s);
        assert(s[s.len() - 1] != c);
    }
}

/// The first piece of a text ends where the character first stands.
pub proof fn lemma_pieces_split(a: Seq<char>, b: Seq<char>, c: char)
    requires
        forall|i: int| 0 <= i < a.len() ==> #[trigger] a[i] != c,
    ensures
        pieces(a + seq![c] + b, c) == seq![a] + pieces(b, c),
{
    let s = a + seq![c] + b;
    assert(s[a.len() as int] == c);
    assert forall|i: int| 0 <= i < a.len() implies s[i] != c by {
        assert(s[i] == a[i]);
    }
    lemma_first_at_is(s, c, a.len() as int);
    assert(s.contains(c));
    assert(s.take(a.len() as int) =~= a);
    assert(s.skip(a.len() as int + 1) =~= b);
}

pub proof fn lemma_pieces_whole(a: Seq<char>, c: char)
    requires
        forall|i: int| 0 <= i < a.len() ==> #[trigger] a[i] != c,
    ensures
        pieces(a, c) == seq![a],
{
    assert(!a.contains(c)) by {
        if a.contains(c) {
            let i = choose|i: int| 0 <= i < a.len() && a[i] == c;
            assert(a[i] != c);
        }
    }
}

/// A text that neither begins nor ends with white space is trimmed already.
pub proof fn lemma_trimmed_same(s: Seq<char>)
    requires
        s.len() > 0 ==> !white(s[0]) && !white(s.last()),
    ensures
        trimmed(s) == s,
{
}

/// Digits with a decimal point are read as what they say.
proof fn lemma_spelled(whole: Seq<char>, fraction: Seq<char>)
    requires
        all_digits(whole),
        all_digits(fraction),
        whole.len() == 2,
        fraction.len() == 3,
    ensures
        spelled(whole + "."@ + fraction, 9) == Some(
            of_nanos(((value(whole) * 1000 + value(fraction)) * 1_000_000) as int),
        ),
{
    reveal_strlit(".");
    reveal_strlit("inf");
    reveal_strlit("infinity");
    reveal_strlit("nan");
    let s = whole + "."@ + fraction;
    assert(s.len() == 6);
    assert(s[0] == whole[0] && digit(whole[0]));
    assert(s[1] == whole[1] && digit(whole[1]));
    assert(s[2] == '.');
    assert(s[3] == fraction[0] && digit(fraction[0]));
    assert(s[4] == fraction[1] && digit(fraction[1]));
    assert(s[5] == fraction[2] && digit(fraction[2]));
    let word = lower_text(s);
    assert forall|i: int| 0 <= i < s.len() implies word[i] == s[i] && s[i] != 'e' by {
        lemma_digit_plain(s[i]);
    }
    assert(word =~= s);
    assert(word[0] != 'i' && word[0] != 'n');
    assert(word != "inf"@) by {
        assert("inf"@[0] == 'i');
    }
    assert(word != "infinity"@) by {
        assert("infinity"@[0] == 'i');
    }
    assert(word != "nan"@) by {
        assert("nan"@[0] == 'n');
    }
    lemma_first_at_is(word, 'e', 6);
    lemma_first_at_is(s, '.', 2);
    assert(s.take(2) =~= whole);
    assert(s.skip(3) =~= fraction);
    let digits = whole + fraction;
    assert(value(digits) == value(whole) * 1000 + value(fraction)) by {
        lemma_value_split(whole, fraction);
        reveal_with_fuel(pow, 4);
        assert(pow(10, 3) == 1000);
    }
    assert(pow(10, 6) == 1_000_000) by {
        reveal_with_fuel(pow, 7);
    }
    let m = value(digits);
    assert(all_digits(digits)) by {
        assert forall|i: int| 0 <= i < digits.len() implies digit(#[trigger] digits[i]) by {
            assert(i < 2 ==> digits[i] == whole[i]);
            assert(i >= 2 ==> digits[i] == fraction[i - 2]);
        }
    }
    lemma_value_bound(digits);
    lemma_pow_increases(10, 5, 203);
    lemma_far(m, -3);
    assert(!reaches(m, -3, 200));
    assert(m == 0 ==> m * pow(2, 1075) == 0) by (nonlinear_arith);
    lemma_pow_positive(10, 3);
    assert(is_zero(m, -3) <==> m == 0);
    assert(scaled(m, 6) == m * 1_000_000);
    assert(mantissa_time(s, 0, 9, false) == Some(number(m, -3, 9, false)));
}

/// The seconds and the milliseconds of a time that is shown.
spec fn last_part(ms: nat) -> Seq<char> {
    padded(ms / 1000 % 60, 2) + seq!['.'] + padded(ms % 1000, 3)
}

/// The parts of a time that is shown.
spec fn shown_parts(ms: nat) -> Seq<Seq<char>> {
    seq![padded(ms / 1000 / 3600, 2), padded((ms / 1000 / 60) % 60, 2), last_part(ms)]
}

pub proof fn lemma_digits_plain(s: Seq<char>)
    requires
        all_digits(s),
        s.len() > 0,
    ensures
        forall|i: int|
            0 <= i < s.len() ==> !white(#[trigger] s[i]) && s[i] != ':' && s[i] != '：' && s[i] != '，'
                && s[i] != ',' && s[i] != '+',
        trimmed(s) == s,
{
    assert forall|i: int| 0 <= i < s.len() implies !white(#[trigger] s[i]) && s[i] != ':' && s[i]
        != '：' && s[i] != '，' && s[i] != ',' && s[i] != '+' by {
        assert(digit(s[i]));
        lemma_digit_plain(s[i]);
    }
    lemma_trimmed_same(s);
}

proof fn lemma_last_part(ms: nat)
    ensures
        last_part(ms).len() == 6,
        forall|i: int|
            0 <= i < 6 ==> !white(#[trigger] last_part(ms)[i]) && last_part(ms)[i] != ':'
                && last_part(ms)[i] != '：' && last_part(ms)[i] != '，' && last_part(ms)[i] != ',',
        trimmed(last_part(ms)) == last_part(ms),
        spelled(last_part(ms), 9) == Some(
            of_nanos((((ms / 1000) % 60 * 1000 + ms % 1000) * 1_000_000) as int),
        ),
{
    let sec = padded(ms / 1000 % 60, 2);
    let f = padded(ms % 1000, 3);
    lemma_padded(ms / 1000 % 60, 2);
    lemma_padded(ms % 1000, 3);
    lemma_digits_plain(sec);
    lemma_digits_plain(f);
    let t = last_part(ms);
    assert forall|i: int| 0 <= i < 6 implies !white(#[trigger] t[i]) && t[i] != ':' && t[i] != '：'
        && t[i] != '，' && t[i] != ',' by {
        if i < 2 {
            assert(t[i] == sec[i]);
        } else if i > 2 {
            assert(t[i] == f[i - 3]);
        } else {
            lemma_digit_plain('.');
        }
    }
    lemma_trimmed_same(t);
    reveal_strlit(".");
    assert("."@ =~= seq!['.']);
    lemma_spelled(sec, f);
}

/// A time that is shown falls into its parts.
proof fn lemma_parts(ms: nat)
    ensures
        normalised(stamp_text(ms)) == stamp_text(ms),
        stamp_text(ms).contains(':'),
        pieces(stamp_text(ms), ':') == shown_parts(ms),
{
    let h = padded(ms / 1000 / 3600, 2);
    let m = padded((ms / 1000 / 60) % 60, 2);
    let tail = last_part(ms);
    let rest = m + seq![':'] + tail;
    let s = stamp_text(ms);
    lemma_padded(ms / 1000 / 3600, 2);
    lemma_padded((ms / 1000 / 60) % 60, 2);
    lemma_digits_plain(h);
    lemma_digits_plain(m);
    lemma_last_part(ms);
    reveal_strlit(":");
    reveal_strlit(".");
    assert(":"@ =~= seq![':']);
    assert("."@ =~= seq!['.']);
    assert(s =~= h + seq![':'] + rest);
    lemma_digit_plain(':');
    assert forall|i: int| 0 <= i < s.len() implies !white(#[trigger] s[i]) && s[i] != '：' && s[i]
        != '，' && s[i] != ',' by {
        if i < h.len() {
            assert(s[i] == h[i]);
        } else if i > h.len() {
            let j = i - h.len() - 1;
            assert(s[i] == rest[j]);
            if j < m.len() {
                assert(rest[j] == m[j]);
            } else if j > m.len() {
                assert(rest[j] == tail[j - m.len() - 1]);
            }
        }
    }
    lemma_trimmed_same(s);
    lemma_replaced_same(s, '：', ":"@);
    lemma_replaced_same(s, '，', "."@);
    lemma_replaced_same(s, ',', "."@);
    assert(s[h.len() as int] == ':');
    lemma_pieces_split(h, rest, ':');
    lemma_pieces_split(m, tail, ':');
    lemma_pieces_whole(tail, ':');
    assert(pieces(s, ':') =~= shown_parts(ms));
}

/// The parts of a time that is shown stand for it.
proof fn lemma_clock(ms: nat)
    requires
        ms <= u64::MAX,
    ensures
        clock_time(shown_parts(ms)) == Some(Secs::Finite((ms * 1_000_000) as i128)),
{
    let secs = ms / 1000;
    let h = padded(secs / 3600, 2);
    let m = padded((secs / 60) % 60, 2);
    lemma_padded(secs / 3600, 2);
    lemma_padded((secs / 60) % 60, 2);
    lemma_digits_plain(h);
    lemma_digits_plain(m);
    lemma_last_part(ms);
    let hour = secs / 3600;
    let minute = (secs / 60) % 60;
    assert(h[0] != '+' && m[0] != '+');
    assert(whole_number(h) == Some(hour));
    assert(whole_number(m) == Some(minute));
    assert((hour * 60 + minute) * 60 + secs % 60 == secs);
    assert(secs * 1000 + ms % 1000 == ms);
    assert((hour * 60 + minute) * 60 * 1_000_000_000 + ((secs % 60) * 1000 + ms % 1000) * 1_000_000
        == ms * 1_000_000);
}

/// A time that is shown can be typed: what is read from it is the time to the
/// nearest millisecond.
pub proof fn shown_times_can_be_read(nanos: i128)
    requires
        nanos >= 0,
    ensures
        typed_time(stamp(Secs::Finite(nanos))) == Some(
            Secs::Finite((millis(nanos as nat) * 1_000_000) as i128),
        ),
{
    let ms = millis(nanos as nat);
    lemma_parts(ms);
    lemma_clock(ms);
}

/// A clock whose first part is no number shows no time.
proof fn lemma_no_clock(parts: Seq<Seq<char>>)
    requires
        parts.len() == 3,
        whole_number(trimmed(parts[0])) is None,
    ensures
        clock_time(parts) is None,
{
}

/// Dashes in place of hours, minutes and seconds are no time.
proof fn lemma_dashes(dashes: Seq<char>)
    requires
        dashes == seq!['-', '-'],
    ensures
        typed_time(dashes + seq![':'] + dashes + seq![':'] + dashes) is None,
{
    assert(is_part(dashes));
    lemma_three(dashes, dashes, dashes);
    assert(!digit(dashes[0]));
    assert(whole_number(dashes) is None);
    lemma_no_clock(seq![dashes, dashes, dashes]);
}

/// What is shown where there is no time is not read as one.
pub proof fn missing_times_are_not_read()
    ensures
        typed_time("--:--:--"@) is None,
{
    reveal_strlit("--:--:--");
    let dashes = seq!['-', '-'];
    lemma_dashes(dashes);
    assert("--:--:--"@ =~= dashes + seq![':'] + dashes + seq![':'] + dashes);
}

/// A time of less than that many milliseconds, some 35,000 years, has all of them in
/// the digits that 64 bits hold.
pub const EXACT_MILLIS: u64 = 1_125_899_906_842_624;

/// A time of whole milliseconds is shown as just that many.
proof fn lemma_whole_millis(ms: nat)
    requires
        ms < EXACT_MILLIS,
    ensures
        millis(ms * 1_000_000) == ms,
{
    let n = ms * 1_000_000;
    lemma_limits();
    lemma_pow0(2);
    let a = seconds(n);
    let b = binary(a.m * 1000, 1, 53);
    if ms == 0 {
        assert(a == (Binary { m: 0, e: 0 }));
        assert(b == (Binary { m: 0, e: 0 }));
    } else {
        lemma_grown(n, 1_000_000_000, 53);
        let k = (-a.e) as nat;
        let p = pow(2, k);
        let x = a.m * 1000;
        let w = ms * p;
        assert(n * p == 1_000_000 * (ms * p)) by (nonlinear_arith)
            requires
                n == ms * 1_000_000,
        ;
        assert(-500 <= x - w <= 500);
        assert(w >= 500 * pow(2, 53));
        assert(p > 4000) by (nonlinear_arith)
            requires
                ms * p >= 500 * 9_007_199_254_740_992,
                ms < 1_125_899_906_842_624,
                ms > 0,
        ;
        lemma_shrunk(x, 1, 53);
        let s = b.e as nat;
        let q = pow(2, s);
        assert(q <= 2000) by {
            lemma_grown_bound(n, 1_000_000_000, 53);
            assert((1 * q) * pow(2, 53) <= 2 * x);
        }
        assert(s < k) by {
            if s >= k {
                lemma_pow_increases(2, k, s);
            }
        }
        let d = pow(2, (k - s) as nat);
        lemma_pow_adds(2, (k - s) as nat, s);
        lemma_pow_positive(2, s);
        lemma_pow_positive(2, (k - s) as nat);
        let m = b.m as int;
        assert(m * (1 * q) == m * q);
        let off = m - ms * d;
        assert(off * q == m * q - w) by (nonlinear_arith)
            requires
                off == m - ms * d,
                w == ms * p,
                p == d * q,
        ;
        assert(-1500 <= off * q <= 1500);
        assert(-d < 2 * off < d) by (nonlinear_arith)
            requires
                -1500 <= off * q <= 1500,
                d * q > 4000,
                q > 0,
        ;
        let r = scaled_by(a, 1000, 1);
        assert(r == (Binary { m: b.m, e: s - k }));
        assert(r.den() == d);
        if off >= 0 {
            assert(m == ms * d + off);
            lemma_fundamental_div_mod_converse(m, d, ms as int, off);
        } else {
            assert(m == (ms - 1) * d + (d + off)) by (nonlinear_arith)
                requires
                    off == m - ms * d,
            ;
            lemma_fundamental_div_mod_converse(m, d, ms - 1, d + off);
        }
    }
}

/// A segment whose ends are whole milliseconds is read back from the two fields
/// that show it as it was.
pub proof fn shown_segments_can_be_read(start_ms: nat, end_ms: nat)
    requires
        start_ms < end_ms < EXACT_MILLIS,
    ensures
        ({
            let seg = Segment {
                start: Secs::Finite((start_ms * 1_000_000) as i128),
                end: Secs::Finite((end_ms * 1_000_000) as i128),
            };
            let (a, b) = field_texts(Some(seg));
            &&& field_value(a) == Ok::<Option<Secs>, Seq<char>>(Some(seg.start))
            &&& field_value(b) == Ok::<Option<Secs>, Seq<char>>(Some(seg.end))
            &&& joined_segment(Some(seg.start), Some(seg.end)) == Some(seg)
        }),
{
    lemma_field(start_ms);
    lemma_field(end_ms);
}

proof fn lemma_field(ms: nat)
    requires
        ms < EXACT_MILLIS,
    ensures
        ({
            let t = Secs::Finite((ms * 1_000_000) as i128);
            field_value(stamp(t)) == Ok::<Option<Secs>, Seq<char>>(Some(t))
        }),
{
    let nanos = (ms * 1_000_000) as i128;
    let t = Secs::Finite(nanos);
    shown_times_can_be_read(nanos);
    lemma_whole_millis(ms);
    let s = stamp(t);
    assert(s == stamp_text(ms));
    lemma_stamp_trimmed(ms);
}

/// There is no white space at either end of a time that is shown.
proof fn lemma_stamp_trimmed(ms: nat)
    ensures
        trimmed(stamp_text(ms)) == stamp_text(ms),
        stamp_text(ms).len() > 0,
{
    let h = padded(ms / 1000 / 3600, 2);
    let f = padded(ms % 1000, 3);
    lemma_padded(ms / 1000 / 3600, 2);
    lemma_padded(ms % 1000, 3);
    let s = stamp_text(ms);
    assert(s[0] == h[0] && digit(h[0]));
    assert(s.last() == f[2] && digit(f[2]));
    lemma_digit_plain(s[0]);
    lemma_digit_plain(s.last());
    lemma_trimmed_same(s);
}

} // verus!
