//! Laws of numbers that are shown: they are those that they stand for, rounded.

use vstd::arithmetic::div_mod::*;
use vstd::arithmetic::power::*;
use vstd::prelude::*;

use crate::binary::{
    binary, lemma_grown, lemma_grown_bound, lemma_limits, lemma_nearest, lemma_shrunk, scaled_by,
    seconds, Binary,
};
use crate::laws::pieces::{lemma_seconds_near, EXACT_NANOS};
use crate::laws::times::{lemma_decimal, lemma_padded};
use crate::laws::typed::{
    hours_minutes_and_seconds_are_read, is_count, lemma_count, numbers_are_read_digit_by_digit,
};
use crate::model::{
    clock, clock_text, millis, rounded_up, size_in, size_text, stamp, typed_time, GB, KB, MB,
};
use crate::numbers::{all_digits, digit, nearest, value};
use crate::rows::one_place;
use crate::secs::{of_nanos, Secs};
use crate::text::{decimal, padded};

verus! {

/// The seconds of a time, as 64 bits hold them.
pub proof fn lemma_seconds(n: nat)
    requires
        0 < n < EXACT_NANOS,
    ensures
        ({
            let a = seconds(n);
            let p = pow(2, (-a.e) as nat);
            &&& a.e < 0
            &&& -1_000_000_000 <= 2 * (a.m * 1_000_000_000 - n * p) <= 1_000_000_000
            &&& p >= 500_000_000
            &&& a.m <= 9_007_199_254_740_992 <= 2 * a.m
        }),
{
    lemma_limits();
    let a = seconds(n);
    lemma_grown(n, 1_000_000_000, 53);
    lemma_grown_bound(n, 1_000_000_000, 53);
    let p = pow(2, (-a.e) as nat);
    let m = a.m as int;
    assert(p >= 500_000_000) by (nonlinear_arith)
        requires
            2 * (n * p) >= 1_000_000_000 * 9_007_199_254_740_992,
            0 < n < 9_007_199_254_740_992,
    ;
    if a.e == 0 {
        lemma_pow0(2);
    }
}

/// How far a number that is rounded up from the middle is from what it was.
proof fn lemma_rounded_up(n: nat, den: nat)
    requires
        den > 0,
        n < den * 1_000_000_000_000_000_000,
    ensures
        -den <= 2 * (rounded_up(n, den) * den - n) <= den,
{
    lemma_fundamental_div_mod(n as int, den as int);
    let q = (n / den) as int;
    let d = den as int;
    assert((q + 1) * d == d * q + d) by (nonlinear_arith);
    assert(q * d == d * q) by (nonlinear_arith);
    assert(q < 1_000_000_000_000_000_000) by (nonlinear_arith)
        requires
            d * q <= n,
            n < d * 1_000_000_000_000_000_000,
            d > 0,
    ;
}

/// The milliseconds that a time is shown with are the nearest to it.
pub proof fn milliseconds_are_the_nearest(n: nat)
    requires
        n < EXACT_NANOS,
    ensures
        -500_003 <= millis(n) * 1_000_000 - n <= 500_003,
{
    lemma_limits();
    lemma_pow0(2);
    if n == 0 {
        assert(seconds(0) == (Binary { m: 0, e: 0 }));
        assert(scaled_by(seconds(0), 1000, 1) == (Binary { m: 0, e: 0 }));
    } else {
        lemma_seconds(n);
        let a = seconds(n);
        let k = (-a.e) as nat;
        let p = pow(2, k);
        let m = a.m as int;
        let top = 9_007_199_254_740_992int;
        let b = binary(a.m * 1000, 1, 53);
        lemma_shrunk(a.m * 1000, 1, 53);
        let s = b.e as nat;
        let q = pow(2, s);
        assert(1 * q == q);
        assert(q <= 2000) by (nonlinear_arith)
            requires
                q * top <= 2 * (m * 1000),
                m <= top,
                top == 9_007_199_254_740_992,
        ;
        lemma_pow_positive(2, s);
        if s > k {
            lemma_pow_increases(2, k, s);
        }
        let r = scaled_by(a, 1000, 1);
        assert(r == (Binary { m: b.m, e: s - k }));
        let d = pow(2, (k - s) as nat);
        lemma_pow_adds(2, (k - s) as nat, s);
        lemma_pow_positive(2, (k - s) as nat);
        if s == k {
            assert(p <= 2000);
        }
        assert(r.num() == b.m && r.den() == d);
        let y = b.m as int;
        assert(y * (1 * q) == y * q);
        lemma_scaled(n as int, m, p, y, q, d);
    }
}

/// The steps of rounding a time to milliseconds.
proof fn lemma_scaled(n: int, m: int, p: int, y: int, q: int, d: int)
    requires
        0 < n < 9_007_199_254_740_992,
        0 <= m <= 9_007_199_254_740_992,
        p >= 500_000_000,
        -1_000_000_000 <= 2 * (m * 1_000_000_000 - n * p) <= 1_000_000_000,
        0 < q <= 2000,
        q * 9_007_199_254_740_992 <= 2 * (m * 1000),
        -q <= 2 * (y * q - m * 1000) <= q,
        y >= 0,
        d > 0,
        p == d * q,
    ensures
        -500_003 <= rounded_up(y as nat, d as nat) * 1_000_000 - n <= 500_003,
{
    assert(y < d * 1_000_000_000_000_000_000) by (nonlinear_arith)
        requires
            2 * (y * q - m * 1000) <= q,
            m <= 9_007_199_254_740_992,
            q >= 1,
            d * q >= 500_000_000,
            d >= 1,
            y >= 0,
    ;
    lemma_rounded_up(y as nat, d as nat);
    let r = rounded_up(y as nat, d as nat) as int;
    // The milliseconds against the seconds.
    assert(-(p + q) <= 2 * (r * p - m * 1000) <= p + q) by (nonlinear_arith)
        requires
            -d <= 2 * (r * d - y) <= d,
            -q <= 2 * (y * q - m * 1000) <= q,
            p == d * q,
            q > 0,
    ;
    // How much the second rounding can have taken away.
    assert(q * 1_000_000_000 <= 2001 * p) by (nonlinear_arith)
        requires
            q * 9_007_199_254_740_992 <= 2 * (m * 1000),
            2 * (m * 1_000_000_000 - n * p) <= 1_000_000_000,
            n < 9_007_199_254_740_992,
            p >= 500_000_000,
            0 < q <= 2000,
    ;
    assert(-500_003 <= r * 1_000_000 - n <= 500_003) by (nonlinear_arith)
        requires
            -(p + q) <= 2 * (r * p - m * 1000) <= p + q,
            -1_000_000_000 <= 2 * (m * 1_000_000_000 - n * p) <= 1_000_000_000,
            q * 1_000_000_000 <= 2001 * p,
            p >= 500_000_000,
    ;
}

/// The seconds that a time is shown with where space is short are the nearest to it.
proof fn lemma_clock_near(n: nat)
    requires
        n < EXACT_NANOS,
    ensures
        -500_000_001 <= rounded_up(seconds(n).num(), seconds(n).den()) * 1_000_000_000 - n
            <= 500_000_001,
{
    lemma_limits();
    lemma_pow0(2);
    if n == 0 {
        assert(seconds(0) == (Binary { m: 0, e: 0 }));
    } else {
        lemma_seconds(n);
        let a = seconds(n);
        let p = pow(2, (-a.e) as nat);
        let m = a.m as int;
        assert(a.num() == a.m && a.den() == p);
        assert(m < p * 1_000_000_000_000_000_000) by (nonlinear_arith)
            requires
                m <= 9_007_199_254_740_992,
                p >= 500_000_000,
        ;
        lemma_rounded_up(a.m, p as nat);
        let r = rounded_up(a.m, p as nat) as int;
        assert(-500_000_001 <= r * 1_000_000_000 - n <= 500_000_001) by (nonlinear_arith)
            requires
                -p <= 2 * (r * p - m) <= p,
                -1_000_000_000 <= 2 * (m * 1_000_000_000 - n * p) <= 1_000_000_000,
                p >= 500_000_000,
        ;
    }
}

/// Hours, minutes and seconds that are shown are read as the seconds that they were.
proof fn lemma_clock_text(secs: nat)
    requires
        secs < 1_000_000_000_000,
    ensures
        typed_time(clock_text(secs)) == Some(of_nanos(secs * 1_000_000_000int)),
{
    let h = padded(secs / 3600, 2);
    let m = padded((secs / 60) % 60, 2);
    let s = padded(secs % 60, 2);
    lemma_padded(secs / 3600, 2);
    lemma_padded((secs / 60) % 60, 2);
    lemma_padded(secs % 60, 2);
    reveal_strlit(":");
    assert(":"@ =~= seq![':']);
    assert(clock_text(secs) =~= h + seq![':'] + m + seq![':'] + s);
    assert(is_count(h) && is_count(m) && is_count(s));
    lemma_count(s);
    numbers_are_read_digit_by_digit(s, Seq::empty());
    let rest = (secs % 60) * 1_000_000_000;
    hours_minutes_and_seconds_are_read(h, m, s, rest as i128);
    assert((secs / 3600) * 3600 + ((secs / 60) % 60) * 60 + secs % 60 == secs);
}

/// A time that is shown without its milliseconds is read as the nearest second.
pub proof fn short_times_are_the_nearest(n: i128)
    requires
        0 <= n < EXACT_NANOS,
    ensures
        exists|secs: int|
            -500_000_001 <= secs * 1_000_000_000 - n <= 500_000_001 && #[trigger] of_nanos(
                secs * 1_000_000_000,
            ) == typed_time(clock(Secs::Finite(n)))->Some_0,
        typed_time(clock(Secs::Finite(n))) is Some,
{
    lemma_clock_near(n as nat);
    let secs = rounded_up(seconds(n as nat).num(), seconds(n as nat).den());
    lemma_clock_text(secs);
    let s = secs as int;
    assert(of_nanos(s * 1_000_000_000) == typed_time(clock(Secs::Finite(n)))->Some_0);
}

/// A time that is shown is read as itself, to the nearest millisecond.
pub proof fn shown_times_are_the_nearest(n: i128)
    requires
        0 <= n < EXACT_NANOS,
    ensures
        typed_time(stamp(Secs::Finite(n))) matches Some(Secs::Finite(t)) && -500_003 <= t - n
            <= 500_003,
{
    crate::laws::times::shown_times_can_be_read(n);
    milliseconds_are_the_nearest(n as nat);
}

/// A time that was never read is shown as none.
pub proof fn unknown_times_are_shown_as_none(t: Secs)
    requires
        !(t matches Secs::Finite(n) && n >= 0),
    ensures
        stamp(t) == "--:--:--"@,
        clock(t) == "--:--:--"@,
{
}

/// Whether a text is a number with so many decimal places, of which all digits
/// together make the number.
pub open spec fn says_number(s: Seq<char>, places: nat, n: nat) -> bool {
    exists|whole: Seq<char>, part: Seq<char>| #[trigger]
        (whole + seq!['.'] + part) == s && whole.len() > 0 && all_digits(whole) && part.len()
            == places && all_digits(part) && value(whole) * pow(10, places) + value(part) == n
}

/// A length that is shown with one decimal place is the nearest to the length.
pub proof fn lengths_are_shown_to_a_tenth(n: i128)
    requires
        0 <= n < EXACT_NANOS,
    ensures
        exists|tenths: nat| #[trigger]
            says_number(one_place(Secs::Finite(n)), 1, tenths) && -50_000_001 <= tenths
                * 100_000_000 - n <= 50_000_001,
        one_place(Secs::Finite(n)).last() != '.',
{
    let b = scaled_by(seconds(n as nat), 1, 1);
    let num = b.num() as int;
    let den = b.den() as int;
    assert(pow(10, 1) == 10) by {
        reveal_with_fuel(pow, 2);
    }
    let t = nearest((num * 10) as nat, den as nat);
    lemma_limits();
    lemma_pow0(2);
    if n == 0 {
        assert(seconds(0) == (Binary { m: 0, e: 0 }));
        assert(b == (Binary { m: 0, e: 0 }));
        assert(t == 0);
    } else {
        lemma_seconds_near(n as nat);
        lemma_nearest((num * 10) as nat, den as nat);
        assert(-50_000_001 <= t * 100_000_000 - n <= 50_000_001) by (nonlinear_arith)
            requires
                -den <= 2 * (t * den - num * 10) <= den,
                -den <= num * 1_000_000_000 - n * den <= den,
                den > 0,
        ;
    }
    let whole = decimal(t / 10);
    let part = padded(t % 10, 1);
    lemma_decimal(t / 10);
    lemma_padded(t % 10, 1);
    lemma_one_digit(t % 10);
    reveal_strlit(".");
    assert("."@ =~= seq!['.']);
    let s = one_place(Secs::Finite(n));
    assert(s == whole + seq!['.'] + part);
    assert(says_number(s, 1, t));
    assert(s.last() == part[0] && digit(part[0]));
}

proof fn lemma_one_digit(d: nat)
    requires
        d < 10,
    ensures
        padded(d, 1).len() == 1,
{
    assert(decimal(d).len() == 1);
}

/// A size is that of so many bytes, as a fraction.
proof fn lemma_size(bytes: u64)
    requires
        0 < bytes < 9_007_199_254_740_992,
    ensures
        binary(bytes as nat, 1, 53).num() == bytes * binary(bytes as nat, 1, 53).den(),
        binary(bytes as nat, 1, 53).den() > 0,
{
    lemma_limits();
    let b = binary(bytes as nat, 1, 53);
    let n = bytes as int;
    if 2 * n < 9_007_199_254_740_992 {
        lemma_grown(bytes as nat, 1, 53);
        let p = pow(2, (-b.e) as nat);
        lemma_pow_positive(2, (-b.e) as nat);
        assert(b.m * 1 == n * p);
        if b.e == 0 {
            lemma_pow0(2);
            assert(n * p == n) by (nonlinear_arith)
                requires
                    p == 1,
            ;
            assert(b.m * pow(2, 0) == b.m * 1);
        }
    } else {
        lemma_shrunk(bytes as nat, 1, 53);
        let p = pow(2, b.e as nat);
        assert(1 * p == p);
        assert(p < 2) by (nonlinear_arith)
            requires
                p * 9_007_199_254_740_992 <= 2 * n,
                n < 9_007_199_254_740_992,
        ;
        lemma_pow_positive(2, b.e as nat);
        assert(p == 1);
        let y = b.m as int;
        assert(y * (1 * p) == y) by (nonlinear_arith)
            requires
                p == 1,
        ;
        assert(y * p == y) by (nonlinear_arith)
            requires
                p == 1,
        ;
    }
}

/// Whether so much of a unit is the nearest to a number of bytes: the number that is
/// shown counts the `parts`th parts of the unit.
pub open spec fn is_nearest_size(n: nat, bytes: int, unit: int, parts: int) -> bool {
    -unit <= 2 * (n * unit - bytes * parts) <= unit
}

proof fn lemma_size_near(bytes: u64, unit: u64, places: nat)
    requires
        0 < bytes < 9_007_199_254_740_992,
        unit > 0,
    ensures
        ({
            let b = binary(bytes as nat, 1, 53);
            let parts = pow(10, places);
            is_nearest_size(
                nearest(b.num() * parts as nat, b.den() * unit as nat),
                bytes as int,
                unit as int,
                parts,
            )
        }),
{
    lemma_size(bytes);
    let b = binary(bytes as nat, 1, 53);
    let den = b.den() as int;
    let num = b.num() as int;
    let u = unit as int;
    let parts = pow(10, places);
    lemma_pow_positive(10, places);
    assert(den * u > 0) by (nonlinear_arith)
        requires
            den > 0,
            u > 0,
    ;
    assert(num * parts >= 0) by (nonlinear_arith)
        requires
            num >= 0,
            parts > 0,
    ;
    let n = nearest((num * parts) as nat, (den * u) as nat) as int;
    lemma_nearest((num * parts) as nat, (den * u) as nat);
    let x = bytes as int;
    assert(-u <= 2 * (n * u - x * parts) <= u) by (nonlinear_arith)
        requires
            -(den * u) <= 2 * (n * (den * u) - num * parts) <= den * u,
            num == x * den,
            den > 0,
            u > 0,
    ;
}

/// A size is shown in the largest unit of which there is one, to the nearest
/// hundredth of a gigabyte, tenth of a megabyte, or kilobyte; and to the byte below.
pub proof fn sizes_are_shown_in_the_largest_unit(bytes: u64)
    requires
        bytes < 9_007_199_254_740_992,
    ensures
        bytes < 1024 ==> exists|digits: Seq<char>| #[trigger]
            (digits + " B"@) == size_text(bytes) && all_digits(digits) && value(digits) == bytes,
        1024 <= bytes < 1_048_576 ==> exists|digits: Seq<char>| #[trigger]
            (digits + " KB"@) == size_text(bytes) && all_digits(digits) && is_nearest_size(
                value(digits),
                bytes as int,
                1024,
                1,
            ),
        1_048_576 <= bytes < 1_073_741_824 ==> exists|number: Seq<char>, n: nat|
            #[trigger] (number + " MB"@) == size_text(bytes) && #[trigger] says_number(number, 1, n)
                && is_nearest_size(n, bytes as int, 1_048_576, 10),
        1_073_741_824 <= bytes ==> exists|number: Seq<char>, n: nat|
            #[trigger] (number + " GB"@) == size_text(bytes) && #[trigger] says_number(number, 2, n)
                && is_nearest_size(n, bytes as int, 1_073_741_824, 100),
{
    let b = binary(bytes as nat, 1, 53);
    reveal_strlit(".");
    assert("."@ =~= seq!['.']);
    reveal_with_fuel(pow, 3);
    assert(pow(10, 0) == 1 && pow(10, 1) == 10 && pow(10, 2) == 100);
    if bytes < KB {
        lemma_decimal(bytes as nat);
        let digits = decimal(bytes as nat);
        assert((digits + " B"@) == size_text(bytes));
    } else if bytes < MB {
        lemma_size_near(bytes, KB, 0);
        let n = nearest(b.num() * 1, b.den() * KB as nat);
        lemma_decimal(n);
        let digits = decimal(n);
        assert(digits == size_in(bytes, KB, 0));
        assert((digits + " KB"@) == size_text(bytes));
    } else if bytes < GB {
        lemma_size_near(bytes, MB, 1);
        let n = nearest(b.num() * 10, b.den() * MB as nat);
        lemma_decimal(n / 10);
        lemma_padded(n % 10, 1);
        lemma_one_digit(n % 10);
        let number = size_in(bytes, MB, 1);
        assert(number == decimal(n / 10) + seq!['.'] + padded(n % 10, 1));
        assert(says_number(number, 1, n));
        assert((number + " MB"@) == size_text(bytes));
    } else {
        lemma_size_near(bytes, GB, 2);
        let n = nearest(b.num() * 100, b.den() * GB as nat);
        lemma_decimal(n / 100);
        lemma_padded(n % 100, 2);
        let number = size_in(bytes, GB, 2);
        assert(number == decimal(n / 100) + seq!['.'] + padded(n % 100, 2));
        assert(says_number(number, 2, n));
        assert((number + " GB"@) == size_text(bytes));
    }
}

} // verus!
