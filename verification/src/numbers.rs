//! Numbers in text: reading them into a [`Secs`], writing them with a fixed
//! number of places.

use vstd::arithmetic::power::*;
use vstd::arithmetic::div_mod::*;
use vstd::prelude::*;

use crate::bignum::{at_most, doubled, number_of, shifted, whole};
use crate::binary::{
    fraction, lemma_limits, nearest_whole, rescaled, scaled_by, seconds, to_seconds, Binary,
};
use crate::secs::{of_nanos, Secs};
use crate::text::{
    chars_of, concat_chars, decimal, decimal_text, find_char, first_at, lemma_first_at, lower_chars,
    lower_text, padded, padded_text, same_chars,
};

verus! {

/// The exponent of ten that turns seconds into nanoseconds.
pub const SECONDS: i128 = 9;

/// The exponent of ten that turns microseconds into nanoseconds.
pub const MICROSECONDS: i128 = 3;

/// An exponent is counted no further than this: far past every exponent that
/// makes a difference.
const EXPONENT_CAP: i128 = 1_000_000_000_000_000_000_000_000_000_000;

/// `num / den` rounded to the nearest whole number, to the even one of two
/// that are equally near.
pub open spec fn nearest(num: nat, den: nat) -> nat
    recommends
        den > 0,
{
    let q = num / den;
    let r = num % den;
    if 2 * r > den || (2 * r == den && q % 2 == 1) {
        q + 1
    } else {
        q
    }
}

/// Whether a character is a decimal digit.
pub open spec fn digit(c: char) -> bool {
    '0' <= c && c <= '9'
}

/// Whether all characters are decimal digits.
pub open spec fn all_digits(s: Seq<char>) -> bool {
    forall|i: int| 0 <= i < s.len() ==> digit(#[trigger] s[i])
}

/// The number that one decimal digit stands for.
pub open spec fn digit_value(c: char) -> nat {
    if digit(c) {
        (c as int - 48) as nat
    } else {
        0
    }
}

/// The number that a row of decimal digits stands for.
pub open spec fn value(s: Seq<char>) -> nat
    decreases s.len(),
{
    if s.len() == 0 {
        0
    } else {
        value(s.drop_last()) * 10 + digit_value(s.last())
    }
}

/// The whole number, below 2^64, that a text spells; a plus sign may stand in front.
pub open spec fn whole_number(s: Seq<char>) -> Option<nat> {
    let t = if s.len() > 0 && s[0] == '+' {
        s.drop_first()
    } else {
        s
    };
    if t.len() > 0 && all_digits(t) && value(t) <= u64::MAX {
        Some(value(t))
    } else {
        None
    }
}

/// Where the exponent's letter stands; the length where there is none.
pub open spec fn exponent_at(s: Seq<char>) -> int {
    first_at(lower_text(s), 'e')
}

/// Digits with a sign in front or not, as the exponent of a number is written.
pub open spec fn exponent_of(s: Seq<char>) -> Option<int> {
    let signed = s.len() > 0 && (s[0] == '+' || s[0] == '-');
    let t = if signed {
        s.drop_first()
    } else {
        s
    };
    if t.len() == 0 || !all_digits(t) {
        None
    } else if s[0] == '-' {
        Some(-(value(t) as int))
    } else {
        Some(value(t) as int)
    }
}

/// `m` times ten to the power of `k`, rounded to a whole number.
pub open spec fn scaled(m: nat, k: int) -> nat {
    if k >= 0 {
        m * (pow(10, k as nat) as nat)
    } else {
        nearest(m, pow(10, (-k) as nat) as nat)
    }
}

/// Whether `m` times ten to the power of `k` is at least ten to the power of `e`.
pub open spec fn reaches(m: nat, k: int, e: int) -> bool {
    if k >= e {
        m > 0
    } else {
        m >= pow(10, (e - k) as nat)
    }
}

/// The first number that is infinite where a number has 64 bits: it lies in the
/// middle between the last one that is not and two to the power of 1024.
pub open spec fn first_infinite() -> nat {
    (LAST_BITS * pow(2, 970)) as nat
}

/// 54 bits, all of them set.
pub const LAST_BITS: u64 = 18_014_398_509_481_983;

/// Whether `m` times ten to the power of `k` is infinite where a number has 64
/// bits.
pub open spec fn is_infinite(m: nat, k: int) -> bool {
    if k >= 0 {
        m * pow(10, k as nat) >= first_infinite()
    } else {
        m >= first_infinite() * pow(10, (-k) as nat)
    }
}

/// Whether `m` times ten to the power of `k` is zero where a number has 64 bits:
/// it is not more than two to the power of -1075.
pub open spec fn is_zero(m: nat, k: int) -> bool {
    if k >= 0 {
        m == 0
    } else {
        m * pow(2, 1075) <= pow(10, (-k) as nat)
    }
}

/// Nanoseconds as a time, with a minus sign or without.
pub open spec fn with_sign(n: nat, negative: bool) -> Secs {
    of_nanos(
        if negative {
            -(n as int)
        } else {
            n as int
        },
    )
}

/// The time of `m` times ten to the power of `k`, in a unit of 10^`unit`
/// nanoseconds, with a minus sign or without. It is rounded to nanoseconds, but no
/// further than to one: what is not zero stays on its side of zero.
pub open spec fn number(m: nat, k: int, unit: int, negative: bool) -> Secs {
    if is_infinite(m, k) {
        if negative {
            Secs::NegInf
        } else {
            Secs::PosInf
        }
    } else if is_zero(m, k) {
        Secs::Finite(0)
    } else if scaled(m, k + unit) == 0 {
        with_sign(1, negative)
    } else {
        with_sign(scaled(m, k + unit), negative)
    }
}

/// The time of digits with or without a decimal point, times ten to the power of
/// `exponent`, in a unit of 10^`unit` nanoseconds.
pub open spec fn mantissa_time(s: Seq<char>, exponent: int, unit: int, negative: bool) -> Option<
    Secs,
> {
    let dot = first_at(s, '.');
    let whole = s.take(dot);
    let fraction = if dot < s.len() {
        s.skip(dot + 1)
    } else {
        Seq::empty()
    };
    if all_digits(whole) && all_digits(fraction) && whole.len() + fraction.len() > 0 {
        Some(number(value(whole + fraction), exponent - fraction.len(), unit, negative))
    } else {
        None
    }
}

/// The time of a number behind its sign, written in digits with a decimal point,
/// an exponent, both or neither, in a unit of 10^`unit` nanoseconds.
pub open spec fn unsigned_time(s: Seq<char>, unit: int, negative: bool) -> Option<Secs> {
    let e = exponent_at(s);
    if e == s.len() {
        mantissa_time(s, 0, unit, negative)
    } else {
        match exponent_of(s.skip(e + 1)) {
            Some(exponent) => mantissa_time(s.take(e), exponent, unit, negative),
            None => None,
        }
    }
}

/// The time that a text spells, in a unit of 10^`unit` nanoseconds. Beside the
/// numbers these words are known, in upper or lower case: `inf`, `infinity`, `nan`.
pub open spec fn spelled(s: Seq<char>, unit: int) -> Option<Secs> {
    let negative = s.len() > 0 && s[0] == '-';
    let body = if negative || (s.len() > 0 && s[0] == '+') {
        s.drop_first()
    } else {
        s
    };
    let word = lower_text(body);
    if word == "inf"@ || word == "infinity"@ {
        Some(if negative {
            Secs::NegInf
        } else {
            Secs::PosInf
        })
    } else if word == "nan"@ {
        Some(Secs::Nan)
    } else {
        unsigned_time(body, unit, negative)
    }
}

/// `num / den` with `places` decimal places, rounded to the nearest, to the
/// even one of two that are equally near.
pub open spec fn fixed(num: nat, den: nat, places: nat) -> Seq<char> {
    let unit = pow(10, places) as nat;
    let n = nearest(num * unit, den);
    if places == 0 {
        decimal(n)
    } else {
        decimal(n / unit) + "."@ + padded(n % unit, places)
    }
}

/// A time in a unit of `per` seconds, with `places` decimal places. The number is
/// the one that 64 bits hold, and all of its digits are looked at.
pub open spec fn fixed_secs(t: Secs, per: nat, places: nat) -> Seq<char> {
    match t {
        Secs::Finite(n) => if n < 0 {
            "-"@ + fixed_binary(scaled_by(seconds((-n) as nat), 1, per), places)
        } else {
            fixed_binary(scaled_by(seconds(n as nat), 1, per), places)
        },
        Secs::PosInf => "inf"@,
        Secs::NegInf => "-inf"@,
        Secs::Nan => "NaN"@,
    }
}

/// A number with `places` decimal places.
pub open spec fn fixed_binary(b: Binary, places: nat) -> Seq<char> {
    fixed(b.num(), b.den(), places)
}

proof fn lemma_pow10_positive(k: nat)
    ensures
        pow(10, k) >= 1,
{
    lemma_pow_positive(10, k);
}

proof fn lemma_pow10_step(k: nat)
    ensures
        pow(10, k + 1) == 10 * pow(10, k),
{
    reveal(pow);
}

/// Digits stand for a number with no more digits.
pub proof fn lemma_value_bound(s: Seq<char>)
    requires
        all_digits(s),
    ensures
        value(s) < pow(10, s.len()),
    decreases s.len(),
{
    if s.len() == 0 {
        lemma_pow0(10);
    } else {
        assert(all_digits(s.drop_last())) by {
            assert forall|i: int| 0 <= i < s.drop_last().len() implies digit(
                #[trigger] s.drop_last()[i],
            ) by {
                assert(s.drop_last()[i] == s[i]);
            }
        }
        lemma_value_bound(s.drop_last());
        lemma_pow10_step((s.len() - 1) as nat);
        assert(digit(s[s.len() - 1]));
    }
}

/// Digits in a row: the first ones count for as many places more as follow.
pub proof fn lemma_value_split(a: Seq<char>, b: Seq<char>)
    ensures
        value(a + b) == value(a) * pow(10, b.len()) + value(b),
    decreases b.len(),
{
    if b.len() == 0 {
        assert(a + b =~= a);
        lemma_pow0(10);
    } else {
        assert((a + b).drop_last() =~= a + b.drop_last());
        lemma_value_split(a, b.drop_last());
        lemma_pow10_step((b.len() - 1) as nat);
        let p = pow(10, (b.len() - 1) as nat);
        let va = value(a) as int;
        let vb = value(b.drop_last()) as int;
        assert((va * p + vb) * 10 == va * (10 * p) + vb * 10) by (nonlinear_arith);
    }
}

proof fn lemma_digits_part(s: Seq<char>, from: int, to: int)
    requires
        all_digits(s),
        0 <= from <= to <= s.len(),
    ensures
        all_digits(s.subrange(from, to)),
{
    assert forall|i: int| 0 <= i < to - from implies digit(#[trigger] s.subrange(from, to)[i]) by {
        assert(s.subrange(from, to)[i] == s[from + i]);
    }
}

/// A quotient and a remainder that fit are the quotient and the remainder.
proof fn lemma_quotient(num: nat, den: nat, q: nat, r: nat)
    requires
        num == q * den + r,
        r < den,
    ensures
        num / den == q,
        num % den == r,
{
    assert(q * den == den * q) by (nonlinear_arith);
    lemma_fundamental_div_mod_converse(num as int, den as int, q as int, r as int);
}

/// Whether a character is a decimal digit.
pub fn is_digit(c: char) -> (r: bool)
    ensures
        r == digit(c),
{
    '0' <= c && c <= '9'
}

fn are_digits(s: &[char]) -> (r: bool)
    ensures
        r == all_digits(s@),
{
    let mut i: usize = 0;
    while i < s.len()
        invariant
            i <= s@.len(),
            forall|j: int| 0 <= j < i ==> digit(#[trigger] s@[j]),
        decreases s@.len() - i,
    {
        if !is_digit(s[i]) {
            assert(!digit(s@[i as int]));
            return false;
        }
        i += 1;
    }
    true
}

/// The number that digits stand for, or nothing where it is 2^128 or more.
fn read_digits(s: &[char]) -> (r: Option<u128>)
    requires
        all_digits(s@),
    ensures
        r matches Some(n) ==> n == value(s@),
        r is None ==> value(s@) > u128::MAX,
{
    let mut n: u128 = 0;
    let mut i: usize = 0;
    while i < s.len()
        invariant
            i <= s@.len(),
            all_digits(s@),
            n == value(s@.take(i as int)),
        decreases s@.len() - i,
    {
        assert(digit(s@[i as int]));
        let d: u128 = s[i] as u128 - 48;
        let ghost next = s@.take(i + 1);
        assert(next.drop_last() =~= s@.take(i as int));
        let grown: Option<u128> = match n.checked_mul(10) {
            Some(m) => m.checked_add(d),
            None => None,
        };
        match grown {
            Some(m) => {
                n = m;
            },
            None => {
                proof {
                    let rest = s@.skip(i + 1);
                    assert(next + rest =~= s@);
                    lemma_value_split(next, rest);
                    lemma_pow10_positive(rest.len());
                    let v = value(next) as int;
                    let p = pow(10, rest.len());
                    assert(v * p >= v) by (nonlinear_arith)
                        requires
                            p >= 1,
                            v >= 0,
                    ;
                }
                return None;
            },
        }
        i += 1;
    }
    assert(s@.take(s@.len() as int) =~= s@);
    Some(n)
}

/// `n` times ten to the power of `k`, or nothing where that is 2^128 or more.
fn times_pow10(n: u128, k: i128) -> (r: Option<u128>)
    requires
        k >= 0,
    ensures
        r matches Some(x) ==> x == n * pow(10, k as nat),
        r is None ==> n * pow(10, k as nat) > u128::MAX,
{
    if n == 0 {
        assert(0 * pow(10, k as nat) == 0);
        return Some(0);
    }
    let mut acc: u128 = n;
    let mut i: i128 = 0;
    proof {
        lemma_pow0(10);
    }
    while i < k
        invariant
            n > 0,
            0 <= i <= k,
            acc == n * pow(10, i as nat),
        decreases k - i,
    {
        proof {
            lemma_pow10_step(i as nat);
            let p = pow(10, i as nat);
            let m = n as int;
            assert(m * (10 * p) == (m * p) * 10) by (nonlinear_arith);
        }
        match acc.checked_mul(10) {
            Some(a) => {
                acc = a;
            },
            None => {
                proof {
                    lemma_pow_increases(10, (i + 1) as nat, k as nat);
                    let m = n as int;
                    let p = pow(10, (i + 1) as nat);
                    let q = pow(10, k as nat);
                    assert(m * p <= m * q) by (nonlinear_arith)
                        requires
                            p <= q,
                            m >= 0,
                    ;
                }
                return None;
            },
        }
        i += 1;
    }
    Some(acc)
}

/// How digits compare with half of what they could stand for: less, just half,
/// or more.
enum Half {
    Less,
    Just,
    More,
}

fn compare_with_half(tail: &[char]) -> (r: Half)
    requires
        all_digits(tail@),
        tail@.len() > 0,
    ensures
        r is Less <==> 2 * value(tail@) < pow(10, tail@.len()),
        r is Just <==> 2 * value(tail@) == pow(10, tail@.len()),
        r is More <==> 2 * value(tail@) > pow(10, tail@.len()),
{
    let first = tail[0];
    let mut i: usize = 1;
    while i < tail.len() && tail[i] == '0'
        invariant
            1 <= i <= tail@.len(),
            forall|j: int| 1 <= j < i ==> tail@[j] == '0',
        decreases tail@.len() - i,
    {
        i += 1;
    }
    proof {
        let rest = tail@.skip(1);
        let head = tail@.take(1);
        assert(head + rest =~= tail@);
        lemma_value_split(head, rest);
        lemma_digits_part(tail@, 1, tail@.len() as int);
        assert(tail@.subrange(1, tail@.len() as int) =~= rest);
        lemma_value_bound(rest);
        lemma_pow10_step(rest.len());
        assert(head.drop_last() =~= Seq::<char>::empty());
        assert(digit(tail@[0]));
        assert(value(head.drop_last()) == 0);
        assert(value(head) == first as int - 48);
        let d = first as int - 48;
        let p = pow(10, rest.len());
        assert(value(tail@) == d * p + value(rest));
        assert(d <= 4 ==> d * p <= 4 * p) by (nonlinear_arith)
            requires
                p >= 0,
        ;
        assert(d == 5 ==> d * p == 5 * p);
        assert(d >= 6 ==> d * p >= 6 * p) by (nonlinear_arith)
            requires
                p >= 0,
        ;
        lemma_pow10_positive(rest.len());
        if i < tail@.len() {
            assert(rest[i - 1] == tail@[i as int]);
            lemma_nonzero_digit(rest, i - 1);
        } else {
            assert forall|j: int| 0 <= j < rest.len() implies rest[j] == '0' by {
                assert(rest[j] == tail@[j + 1]);
            }
            lemma_all_zero(rest);
        }
    }
    if '5' > first {
        Half::Less
    } else if first > '5' || i < tail.len() {
        Half::More
    } else {
        Half::Just
    }
}

proof fn lemma_all_zero(s: Seq<char>)
    requires
        forall|j: int| 0 <= j < s.len() ==> s[j] == '0',
    ensures
        value(s) == 0,
    decreases s.len(),
{
    if s.len() > 0 {
        lemma_all_zero(s.drop_last());
    }
}

proof fn lemma_nonzero_digit(s: Seq<char>, at: int)
    requires
        all_digits(s),
        0 <= at < s.len(),
        s[at] != '0',
    ensures
        value(s) > 0,
    decreases s.len(),
{
    assert(digit(s[at]));
    if at < s.len() - 1 {
        assert(s.drop_last()[at] == s[at]);
        lemma_digits_part(s, 0, s.len() - 1);
        assert(s.subrange(0, s.len() - 1) =~= s.drop_last());
        lemma_nonzero_digit(s.drop_last(), at);
        assert(digit(s[s.len() - 1]));
    }
}

/// Digits times ten to the power of `k`, rounded, or nothing where that is 2^128 or more.
fn scale(digits: &[char], k: i128) -> (r: Option<u128>)
    requires
        all_digits(digits@),
        k > i128::MIN,
    ensures
        r matches Some(n) ==> n == scaled(value(digits@), k as int),
        r is None ==> scaled(value(digits@), k as int) > u128::MAX,
{
    if k >= 0 {
        proof {
            lemma_pow10_positive(k as nat);
        }
        match read_digits(digits) {
            Some(n) => times_pow10(n, k),
            None => {
                proof {
                    lemma_pow10_positive(k as nat);
                    let v = value(digits@) as int;
                    let p = pow(10, k as nat);
                    assert(v * p >= v) by (nonlinear_arith)
                        requires
                            p >= 1,
                            v >= 0,
                    ;
                }
                None
            },
        }
    } else {
        let drop: i128 = -k;
        let ghost den = pow(10, drop as nat) as nat;
        proof {
            lemma_pow10_positive(drop as nat);
            lemma_value_bound(digits@);
        }
        if drop > digits.len() as i128 {
            proof {
                lemma_pow_increases(10, digits@.len(), (drop - 1) as nat);
                lemma_pow10_step((drop - 1) as nat);
                lemma_quotient(value(digits@), den, 0, value(digits@));
            }
            return Some(0);
        }
        let at: usize = digits.len() - drop as usize;
        let head = vstd::slice::slice_subrange(digits, 0, at);
        let tail = vstd::slice::slice_subrange(digits, at, digits.len());
        proof {
            lemma_digits_part(digits@, 0, at as int);
            lemma_digits_part(digits@, at as int, digits@.len() as int);
            assert(head@ + tail@ =~= digits@);
            lemma_value_split(head@, tail@);
            lemma_value_bound(tail@);
            lemma_quotient(value(digits@), den, value(head@), value(tail@));
        }
        let q = match read_digits(head) {
            Some(q) => q,
            None => {
                return None;
            },
        };
        let up: bool = match compare_with_half(tail) {
            Half::Less => false,
            Half::Just => q % 2 == 1,
            Half::More => true,
        };
        if up {
            q.checked_add(1)
        } else {
            Some(q)
        }
    }
}

/// The whole number, below 2^64, that a text spells; a plus sign may stand in front.
pub fn parse_whole(s: &[char]) -> (r: Option<u64>)
    ensures
        r matches Some(n) ==> whole_number(s@) == Some(n as nat),
        r is None ==> whole_number(s@) is None,
{
    let t = if s.len() > 0 && s[0] == '+' {
        vstd::slice::slice_subrange(s, 1, s.len())
    } else {
        s
    };
    assert(s@.len() > 0 ==> s@.subrange(1, s@.len() as int) =~= s@.drop_first());
    if t.len() == 0 || !are_digits(t) {
        return None;
    }
    match read_digits(t) {
        Some(n) => if n <= u64::MAX as u128 {
            Some(n as u64)
        } else {
            None
        },
        None => None,
    }
}

/// An exponent, counted no further than [`EXPONENT_CAP`] either way.
fn read_exponent(s: &[char]) -> (r: Option<i128>)
    ensures
        r is Some <==> exponent_of(s@) is Some,
        r matches Some(e) ==> -EXPONENT_CAP <= e <= EXPONENT_CAP,
        r matches Some(e) ==> -EXPONENT_CAP < e < EXPONENT_CAP ==> exponent_of(s@) == Some(e as int),
        r matches Some(e) ==> e == EXPONENT_CAP ==> exponent_of(s@)->0 >= EXPONENT_CAP,
        r matches Some(e) ==> e == -EXPONENT_CAP ==> exponent_of(s@)->0 <= -EXPONENT_CAP,
{
    let signed = s.len() > 0 && (s[0] == '+' || s[0] == '-');
    let t = if signed {
        vstd::slice::slice_subrange(s, 1, s.len())
    } else {
        s
    };
    assert(s@.len() > 0 ==> s@.subrange(1, s@.len() as int) =~= s@.drop_first());
    if t.len() == 0 || !are_digits(t) {
        return None;
    }
    let size: i128 = match read_digits(t) {
        Some(n) => if n < EXPONENT_CAP as u128 {
            n as i128
        } else {
            EXPONENT_CAP
        },
        None => EXPONENT_CAP,
    };
    if s[0] == '-' {
        Some(-size)
    } else {
        Some(size)
    }
}

/// A number that does not begin with zero is as large as its digits are many.
proof fn lemma_value_lower(s: Seq<char>)
    requires
        all_digits(s),
        s.len() > 0,
        s[0] != '0',
    ensures
        value(s) >= pow(10, (s.len() - 1) as nat),
    decreases s.len(),
{
    assert(digit(s[0]));
    if s.len() == 1 {
        lemma_pow0(10);
        assert(s.drop_last() =~= Seq::<char>::empty());
        assert(value(s.drop_last()) == 0);
    } else {
        lemma_digits_part(s, 0, s.len() - 1);
        assert(s.subrange(0, s.len() - 1) =~= s.drop_last());
        lemma_value_lower(s.drop_last());
        lemma_pow10_step((s.len() - 2) as nat);
    }
}

/// How many digits there are behind the zeros in front.
fn significant(digits: &[char]) -> (r: usize)
    requires
        all_digits(digits@),
    ensures
        r <= digits@.len(),
        r > 0 <==> value(digits@) > 0,
        forall|j: nat| r > j <==> value(digits@) >= #[trigger] pow(10, j),
{
    let mut z: usize = 0;
    while z < digits.len() && digits[z] == '0'
        invariant
            z <= digits@.len(),
            forall|j: int| 0 <= j < z ==> digits@[j] == '0',
        decreases digits@.len() - z,
    {
        z += 1;
    }
    let r: usize = digits.len() - z;
    proof {
        let head = digits@.take(z as int);
        let tail = digits@.skip(z as int);
        assert(head + tail =~= digits@);
        lemma_value_split(head, tail);
        lemma_all_zero(head);
        lemma_digits_part(digits@, z as int, digits@.len() as int);
        assert(digits@.subrange(z as int, digits@.len() as int) =~= tail);
        lemma_value_bound(tail);
        assert(0 * pow(10, tail.len()) == 0);
        assert(value(digits@) == value(tail));
        if r > 0 {
            lemma_value_lower(tail);
            lemma_pow10_positive((r - 1) as nat);
        } else {
            lemma_pow0(10);
        }
        assert forall|j: nat| r > j <==> value(digits@) >= #[trigger] pow(10, j) by {
            if r > j {
                lemma_pow_increases(10, j, (r - 1) as nat);
            } else {
                lemma_pow_increases(10, r as nat, j);
            }
        }
    }
    r
}

/// Whether a number with so many digits, times ten to the power of `k`, is at least
/// ten to the power of `e`.
fn has_reached(count: usize, k: i128, e: i128, Ghost(m): Ghost<nat>) -> (r: bool)
    requires
        -2 * EXPONENT_CAP <= k <= 2 * EXPONENT_CAP,
        -1000 <= e <= 1000,
        count > 0 <==> m > 0,
        forall|j: nat| count > j <==> m >= #[trigger] pow(10, j),
    ensures
        r == reaches(m, k as int, e as int),
{
    if k >= e {
        count > 0
    } else {
        assert(count > (e - k) as nat <==> m >= pow(10, (e - k) as nat));
        count as i128 > e - k
    }
}

/// The nanoseconds as a time, with a minus sign or without. None are those past
/// the range.
fn signed_nanos(n: Option<u128>, negative: bool) -> (r: Secs)
    ensures
        n matches Some(x) ==> r == with_sign(x as nat, negative),
        n is None ==> r == (if negative {
            Secs::Finite(i128::MIN)
        } else {
            Secs::Finite(i128::MAX)
        }),
{
    match n {
        Some(x) => if x <= i128::MAX as u128 {
            if negative {
                Secs::Finite(-(x as i128))
            } else {
                Secs::Finite(x as i128)
            }
        } else if negative {
            Secs::Finite(i128::MIN)
        } else {
            Secs::Finite(i128::MAX)
        },
        None => if negative {
            Secs::Finite(i128::MIN)
        } else {
            Secs::Finite(i128::MAX)
        },
    }
}

/// Whether two exponents, the one as it is written and the one counted no
/// further than the cap, are the same or both past every number of digits.
spec fn close_exponents(exact: int, capped: int) -> bool {
    ||| exact == capped
    ||| exact >= EXPONENT_CAP && capped == EXPONENT_CAP
    ||| exact <= -EXPONENT_CAP && capped == -EXPONENT_CAP
}

/// Past every number of digits it makes no difference how large an exponent is.
proof fn lemma_cap(m: nat, exact: int, capped: int, less: nat, digits: nat)
    requires
        m < pow(10, digits),
        digits <= u64::MAX,
        less <= digits,
        close_exponents(exact, capped),
    ensures
        forall|e: int| -1000 <= e <= 1000 ==> #[trigger] reaches(m, exact - less, e) == reaches(
            m,
            capped - less,
            e,
        ),
        exact != capped && !reaches(m, capped - less, 400) ==> !reaches(m, capped - less, -400),
{
    if exact != capped {
        assert forall|e: int| -1000 <= e <= 1000 implies #[trigger] reaches(m, exact - less, e)
            == reaches(m, capped - less, e) by {
            if exact < 0 {
                lemma_pow_increases(10, digits, (e - (exact - less)) as nat);
                lemma_pow_increases(10, digits, (e - (capped - less)) as nat);
            }
        }
        if capped < 0 {
            lemma_pow_increases(10, digits, (-400 - (capped - less)) as nat);
        }
    }
}

/// Powers of eight are below those of ten, and those of sixteen above.
proof fn lemma_powers(n: nat)
    ensures
        pow(2, 3 * n) <= pow(10, n) <= pow(2, 4 * n),
    decreases n,
{
    reveal(pow);
    if n == 0 {
    } else {
        lemma_powers((n - 1) as nat);
        reveal_with_fuel(pow, 5);
        lemma_pow_adds(2, 3, (3 * n - 3) as nat);
        lemma_pow_adds(2, 4, (4 * n - 4) as nat);
        lemma_pow_positive(2, (3 * n - 3) as nat);
        lemma_pow_positive(2, (4 * n - 4) as nat);
    }
}

/// Where about the bounds of numbers with 64 bits lie.
proof fn lemma_bounds()
    ensures
        pow(10, 200) <= first_infinite() <= pow(10, 400),
        pow(10, 200) < pow(2, 1075) <= pow(10, 400),
{
    lemma_powers(200);
    lemma_powers(400);
    lemma_pow_increases(2, 800, 970);
    lemma_pow_strictly_increases(2, 800, 1075);
    lemma_pow_increases(2, 1075, 1200);
    lemma_pow_positive(2, 970);
    lemma_pow_positive(2, 0);
    let f = LAST_BITS as int;
    let p = pow(2, 970);
    assert(f * p >= p) by (nonlinear_arith)
        requires
            f >= 1,
            p >= 0,
    ;
    lemma_powers(17);
    reveal_with_fuel(pow, 18);
    lemma_powers(18);
    lemma_pow_adds(2, 72, 970);
    assert(f <= pow(2, 72)) by {
        reveal_with_fuel(pow, 19);
        assert(pow(10, 17) == 100_000_000_000_000_000);
    }
    assert(f * p <= pow(2, 72) * p) by (nonlinear_arith)
        requires
            f <= pow(2, 72),
            p >= 0,
    ;
    lemma_pow_increases(2, 1042, 1200);
}

/// What is far from the bounds lies on its side of them.
pub proof fn lemma_far(m: nat, k: int)
    ensures
        reaches(m, k, 400) ==> is_infinite(m, k),
        !reaches(m, k, 200) ==> !is_infinite(m, k),
        !reaches(m, k, -400) ==> is_zero(m, k),
        reaches(m, k, -200) ==> !is_zero(m, k),
{
    lemma_bounds();
    let f = first_infinite() as int;
    let t = pow(2, 1075);
    let v = m as int;
    let far = pow(10, 400);
    let near = pow(10, 200);
    lemma_pow10_positive(200);
    assert(v == 0 ==> v * t == 0) by (nonlinear_arith);
    if k >= 0 {
        let p = pow(10, k as nat);
        lemma_pow10_positive(k as nat);
        if k >= 400 {
            lemma_pow_increases(10, 400, k as nat);
            assert(v >= 1 ==> v * p >= p) by (nonlinear_arith)
                requires
                    p >= 0,
            ;
        } else if v >= pow(10, (400 - k) as nat) {
            lemma_pow_adds(10, (400 - k) as nat, k as nat);
            let q = pow(10, (400 - k) as nat);
            assert(v * p >= q * p) by (nonlinear_arith)
                requires
                    v >= q,
                    p >= 0,
            ;
        }
        assert(v == 0 ==> v * p == 0) by (nonlinear_arith);
        if k < 200 && v < pow(10, (200 - k) as nat) {
            lemma_pow_adds(10, (200 - k) as nat, k as nat);
            let q = pow(10, (200 - k) as nat);
            assert(v * p < q * p) by (nonlinear_arith)
                requires
                    v < q,
                    p >= 1,
            ;
        }
    } else {
        let p = pow(10, (-k) as nat);
        lemma_pow10_positive((-k) as nat);
        lemma_pow_adds(10, 400, (-k) as nat);
        lemma_pow_adds(10, 200, (-k) as nat);
        assert(f * p <= far * p) by (nonlinear_arith)
            requires
                f <= far,
                p >= 0,
        ;
        assert(near * p <= f * p) by (nonlinear_arith)
            requires
                near <= f,
                p >= 0,
        ;
        if k < -400 && v < pow(10, (-400 - k) as nat) {
            let q = pow(10, (-400 - k) as nat);
            lemma_pow_adds(10, (-400 - k) as nat, 400);
            assert(v * t <= q * far) by (nonlinear_arith)
                requires
                    0 <= v <= q,
                    0 <= t <= far,
            ;
        }
        if k >= -200 {
            lemma_pow_increases(10, (-k) as nat, 200);
            assert(v >= 1 ==> v * t >= t) by (nonlinear_arith)
                requires
                    t >= 0,
            ;
        } else if v >= pow(10, (-200 - k) as nat) {
            let q = pow(10, (-200 - k) as nat);
            lemma_pow10_positive((-200 - k) as nat);
            lemma_pow_adds(10, (-200 - k) as nat, 200);
            assert(v * t > q * near) by (nonlinear_arith)
                requires
                    v >= q,
                    q >= 1,
                    t > near,
                    near >= 0,
            ;
        }
    }
}

/// Whether digits, times ten to the power of `k`, are infinite.
fn infinite(digits: &[char], count: usize, k: i128) -> (r: bool)
    requires
        all_digits(digits@),
        -2 * EXPONENT_CAP <= k <= 2 * EXPONENT_CAP,
        count > 0 <==> value(digits@) > 0,
        forall|j: nat| count > j <==> value(digits@) >= #[trigger] pow(10, j),
    ensures
        r == is_infinite(value(digits@), k as int),
{
    let ghost m = value(digits@);
    proof {
        lemma_far(m, k as int);
    }
    if has_reached(count, k, 400, Ghost(m)) {
        return true;
    }
    if !has_reached(count, k, 200, Ghost(m)) {
        return false;
    }
    let number = number_of(digits);
    let bound = doubled(whole(LAST_BITS), 970);
    if k >= 0 {
        at_most(&bound, &shifted(&number, k))
    } else {
        at_most(&shifted(&bound, -k), &number)
    }
}

/// Whether digits, times ten to the power of `k`, are zero.
fn vanishes(digits: &[char], count: usize, k: i128) -> (r: bool)
    requires
        all_digits(digits@),
        -2 * EXPONENT_CAP <= k <= 2 * EXPONENT_CAP,
        count > 0 <==> value(digits@) > 0,
        forall|j: nat| count > j <==> value(digits@) >= #[trigger] pow(10, j),
    ensures
        r == is_zero(value(digits@), k as int),
{
    let ghost m = value(digits@);
    proof {
        lemma_far(m, k as int);
    }
    if !has_reached(count, k, -400, Ghost(m)) {
        return true;
    }
    if k >= 0 || has_reached(count, k, -200, Ghost(m)) {
        return false;
    }
    let number = doubled(number_of(digits), 1075);
    at_most(&number, &shifted(&whole(1), -k))
}

/// Digits with or without a decimal point, read as [`mantissa_time`] says.
fn parse_mantissa(
    s: &[char],
    exponent: i128,
    unit: i128,
    negative: bool,
    Ghost(exact): Ghost<int>,
) -> (r: Option<Secs>)
    requires
        0 <= unit <= 9,
        -EXPONENT_CAP <= exponent <= EXPONENT_CAP,
        close_exponents(exact, exponent as int),
    ensures
        r == mantissa_time(s@, exact, unit as int, negative),
{
    let dot = find_char(s, '.');
    proof {
        lemma_first_at(s@, '.');
    }
    let whole = vstd::slice::slice_subrange(s, 0, dot);
    assert(whole@ =~= s@.take(dot as int));
    let fraction = if dot < s.len() {
        vstd::slice::slice_subrange(s, dot + 1, s.len())
    } else {
        vstd::slice::slice_subrange(s, dot, dot)
    };
    assert(fraction@ =~= if dot < s@.len() {
        s@.skip(dot + 1)
    } else {
        Seq::empty()
    });
    if !are_digits(whole) || !are_digits(fraction) {
        return None;
    }
    if whole.len() == 0 && fraction.len() == 0 {
        return None;
    }
    let digits = concat_chars(whole, fraction);
    assert(all_digits(digits@)) by {
        assert forall|j: int| 0 <= j < digits@.len() implies digit(#[trigger] digits@[j]) by {
            if j < whole@.len() {
                assert(digits@[j] == whole@[j]);
            } else {
                assert(digits@[j] == fraction@[j - whole@.len()]);
            }
        }
    }
    let less: i128 = fraction.len() as i128;
    Some(parse_number(digits.as_slice(), exponent, less, unit, negative, Ghost(exact)))
}

/// The time that digits with an exponent stand for, of which `less` stand behind
/// the decimal point.
fn parse_number(
    digits: &[char],
    exponent: i128,
    less: i128,
    unit: i128,
    negative: bool,
    Ghost(exact): Ghost<int>,
) -> (r: Secs)
    requires
        all_digits(digits@),
        0 <= unit <= 9,
        0 <= less <= digits@.len(),
        -EXPONENT_CAP <= exponent <= EXPONENT_CAP,
        close_exponents(exact, exponent as int),
    ensures
        r == number(value(digits@), exact - less, unit as int, negative),
{
    let ghost m = value(digits@);
    let count = significant(digits);
    let _size: usize = digits.len();
    let k: i128 = exponent - less;
    proof {
        lemma_value_bound(digits@);
        lemma_cap(m, exact, exponent as int, less as nat, digits@.len());
        assert(reaches(m, exact - less, 400) == reaches(m, k as int, 400));
        assert(reaches(m, exact - less, -400) == reaches(m, k as int, -400));
        lemma_far(m, exact - less);
        lemma_far(m, k as int);
    }
    if infinite(digits, count, k) {
        return if negative {
            Secs::NegInf
        } else {
            Secs::PosInf
        };
    }
    if vanishes(digits, count, k) {
        return Secs::Finite(0);
    }
    assert(exact == exponent);
    match scale(digits, k + unit) {
        Some(0) => signed_nanos(Some(1), negative),
        n => signed_nanos(n, negative),
    }
}

/// A number behind its sign, read as [`unsigned_time`] says.
fn parse_unsigned(s: &[char], unit: i128, negative: bool) -> (r: Option<Secs>)
    requires
        0 <= unit <= 9,
    ensures
        r == unsigned_time(s@, unit as int, negative),
{
    let low = lower_chars(s);
    let e = find_char(low.as_slice(), 'e');
    proof {
        lemma_first_at(low@, 'e');
    }
    if e == s.len() {
        return parse_mantissa(s, 0, unit, negative, Ghost(0));
    }
    let mantissa = vstd::slice::slice_subrange(s, 0, e);
    let tail = vstd::slice::slice_subrange(s, e + 1, s.len());
    assert(mantissa@ =~= s@.take(e as int));
    assert(tail@ =~= s@.skip(e + 1));
    match read_exponent(tail) {
        Some(exponent) => {
            let ghost exact = exponent_of(tail@)->0;
            parse_mantissa(mantissa, exponent, unit, negative, Ghost(exact))
        },
        None => None,
    }
}

/// The time that a text spells, in a unit of 10^`unit` nanoseconds.
pub fn parse_time(s: &[char], unit: i128) -> (r: Option<Secs>)
    requires
        0 <= unit <= 9,
    ensures
        r == spelled(s@, unit as int),
{
    let negative = s.len() > 0 && s[0] == '-';
    let body = if negative || (s.len() > 0 && s[0] == '+') {
        vstd::slice::slice_subrange(s, 1, s.len())
    } else {
        s
    };
    assert(s@.len() > 0 ==> s@.subrange(1, s@.len() as int) =~= s@.drop_first());
    let word = lower_chars(body);
    if same_chars(word.as_slice(), chars_of("inf").as_slice()) || same_chars(
        word.as_slice(),
        chars_of("infinity").as_slice(),
    ) {
        return Some(if negative {
            Secs::NegInf
        } else {
            Secs::PosInf
        });
    }
    if same_chars(word.as_slice(), chars_of("nan").as_slice()) {
        return Some(Secs::Nan);
    }
    parse_unsigned(body, unit, negative)
}

/// Ten to the power of a small number.
fn small_pow10(places: usize) -> (r: u128)
    requires
        places <= 3,
    ensures
        r == pow(10, places as nat),
        1 <= r <= 1000,
{
    proof {
        reveal_with_fuel(pow, 4);
    }
    match places {
        0 => 1,
        1 => 10,
        2 => 100,
        _ => 1000,
    }
}

/// `num / den` with `places` decimal places.
pub fn fixed_text(num: u128, den: u128, places: usize) -> (r: String)
    requires
        num <= pow(2, 113),
        0 < den <= i128::MAX,
        places <= 3,
    ensures
        r@ == fixed(num as nat, den as nat, places as nat),
{
    let unit = small_pow10(places);
    proof {
        lemma_limits();
        lemma_pow_adds(2, 113, 13);
        lemma_pow_adds(2, 10, 3);
        reveal_with_fuel(pow, 4);
        let n = num as int;
        let u = unit as int;
        let p = pow(2, 113);
        assert(n * u <= p * 8192) by (nonlinear_arith)
            requires
                0 <= n <= p,
                0 <= u <= 1000,
        ;
    }
    let n: u128 = nearest_whole(num * unit, den);
    if places == 0 {
        decimal_text(n)
    } else {
        let mut s = decimal_text(n / unit);
        s.append(".");
        s.append(padded_text(n % unit, places).as_str());
        s
    }
}

fn fixed_nanos(nanos: u128, per: u128, places: usize) -> (r: String)
    requires
        nanos <= i128::MAX + 1,
        1 <= per <= 60,
        places <= 3,
    ensures
        r@ == fixed_binary(scaled_by(seconds(nanos as nat), 1, per as nat), places as nat),
{
    let (num, den) = fraction(rescaled(to_seconds(nanos), 1, per));
    fixed_text(num, den, places)
}

/// A time in a unit of `per` seconds, with `places` decimal places.
pub fn fixed_secs_text(t: Secs, per: u128, places: usize) -> (r: String)
    requires
        1 <= per <= 60,
        places <= 3,
    ensures
        r@ == fixed_secs(t, per as nat, places as nat),
{
    match t {
        Secs::Finite(n) => if n < 0 {
            let size: u128 = if n == i128::MIN {
                i128::MAX as u128 + 1
            } else {
                (-n) as u128
            };
            "-".to_string().concat(fixed_nanos(size, per, places).as_str())
        } else {
            fixed_nanos(n as u128, per, places)
        },
        Secs::PosInf => "inf".to_string(),
        Secs::NegInf => "-inf".to_string(),
        Secs::Nan => "NaN".to_string(),
    }
}

} // verus!
