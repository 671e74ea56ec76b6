//! Numbers with so many binary digits.
//!
//! A time is a whole number of nanoseconds; where it is written down or handed on,
//! the number of seconds is taken as the nearest that 64 bits can hold, which has 53
//! binary digits. needle takes a length with 24 of them.

use vstd::arithmetic::div_mod::*;
use vstd::arithmetic::power::*;
use vstd::prelude::*;

use crate::numbers::nearest;

verus! {

/// The number `m` times two to the power of `e`.
pub struct Binary {
    pub m: nat,
    pub e: int,
}

impl Binary {
    /// The number as a fraction: above the line.
    pub open spec fn num(self) -> nat {
        if self.e >= 0 {
            (self.m * pow(2, self.e as nat)) as nat
        } else {
            self.m
        }
    }

    /// The number as a fraction: below the line.
    pub open spec fn den(self) -> nat {
        if self.e >= 0 {
            1
        } else {
            pow(2, (-self.e) as nat) as nat
        }
    }

    /// The number times two to the power of `e`.
    pub open spec fn moved(self, e: int) -> Binary {
        Binary { m: self.m, e: self.e + e }
    }
}

/// `num / den` with no more than `bits` binary digits, where it has more before the
/// point.
pub open spec fn shrunk(num: nat, den: nat, bits: nat) -> Binary
    decreases num - den,
{
    if den > 0 && num >= den * pow(2, bits) && num >= 2 * den {
        shrunk(num, 2 * den, bits).moved(1)
    } else {
        Binary { m: nearest(num, den), e: 0 }
    }
}

/// `num / den` with `bits` binary digits, where it has fewer before the point.
pub open spec fn grown(num: nat, den: nat, bits: nat) -> Binary
    decreases den * pow(2, bits) - num,
{
    if num > 0 && 2 * num < den * pow(2, bits) {
        grown(2 * num, den, bits).moved(-1)
    } else {
        Binary { m: nearest(num, den), e: 0 }
    }
}

/// The number with `bits` binary digits that is nearest to `num / den`; of two that
/// are equally near, the one that ends in zero.
pub open spec fn binary(num: nat, den: nat, bits: nat) -> Binary {
    if 2 * num < den * pow(2, bits) {
        grown(num, den, bits)
    } else {
        shrunk(num, den, bits)
    }
}

/// The number of seconds of so many nanoseconds, as 64 bits hold it.
pub open spec fn seconds(nanos: nat) -> Binary {
    binary(nanos, 1_000_000_000, 53)
}

/// A number of 64 bits, multiplied and divided.
pub open spec fn scaled_by(b: Binary, times: nat, per: nat) -> Binary {
    binary(b.m * times, per, 53).moved(b.e)
}

/// `m` times two to the power of `e`, as numbers that can be computed with.
#[derive(Debug, Clone, Copy)]
pub struct Rounded {
    pub m: u128,
    pub e: i32,
}

impl View for Rounded {
    type V = Binary;

    open spec fn view(&self) -> Binary {
        Binary { m: self.m as nat, e: self.e as int }
    }
}

proof fn lemma_double(k: nat)
    ensures
        pow(2, k + 1) == 2 * pow(2, k),
        pow(2, k) >= 1,
{
    reveal(pow);
    lemma_pow_positive(2, k);
}

/// Two to the power of a small number.
pub fn two_to(k: u32) -> (r: u128)
    requires
        k <= 126,
    ensures
        r == pow(2, k as nat),
        1 <= r <= i128::MAX,
{
    let mut r: u128 = 1;
    let mut i: u32 = 0;
    proof {
        lemma_pow0(2);
        lemma_limits();
    }
    while i < k
        invariant
            i <= k <= 126,
            r == pow(2, i as nat),
            pow(2, 126) * 2 == i128::MAX + 1,
        decreases k - i,
    {
        proof {
            lemma_double(i as nat);
            lemma_pow_increases(2, (i + 1) as nat, 126);
        }
        r = r * 2;
        i += 1;
    }
    proof {
        lemma_pow_increases(2, k as nat, 126);
        lemma_pow_positive(2, k as nat);
    }
    r
}

pub proof fn lemma_limits()
    ensures
        pow(2, 10) == 1024,
        pow(2, 24) == 16_777_216,
        pow(2, 53) == 9_007_199_254_740_992,
        pow(2, 64) == u64::MAX + 1,
        pow(2, 126) * 2 == i128::MAX + 1,
{
    reveal_with_fuel(pow, 11);
    lemma_pow_adds(2, 10, 10);
    lemma_pow_adds(2, 20, 4);
    lemma_pow_adds(2, 24, 24);
    lemma_pow_adds(2, 48, 5);
    lemma_pow_adds(2, 53, 11);
    lemma_pow_adds(2, 53, 10);
    lemma_pow_adds(2, 63, 63);
    assert(pow(2, 48) == 281_474_976_710_656) by (nonlinear_arith)
        requires
            pow(2, 48) == pow(2, 24) * pow(2, 24),
            pow(2, 24) == 16_777_216,
    ;
    assert(pow(2, 63) == 9_223_372_036_854_775_808);
    assert(pow(2, 11) == 2048) by {
        lemma_double(10);
    }
    assert(pow(2, 126) == 85_070_591_730_234_615_865_843_651_857_942_052_864) by (nonlinear_arith)
        requires
            pow(2, 126) == pow(2, 63) * pow(2, 63),
            pow(2, 63) == 9_223_372_036_854_775_808,
    ;
}

/// `num / den`, rounded to a whole number, to the even one of two that are equally
/// near.
pub fn nearest_whole(num: u128, den: u128) -> (r: u128)
    requires
        0 < den <= i128::MAX,
        num <= i128::MAX + 1,
    ensures
        r == nearest(num as nat, den as nat),
        r <= num + 1,
{
    let q: u128 = num / den;
    let rest: u128 = num % den;
    proof {
        lemma_div_is_ordered_by_denominator(num as int, 1, den as int);
    }
    if 2 * rest > den || (2 * rest == den && q % 2 == 1) {
        q + 1
    } else {
        q
    }
}

/// How far a rounded number is from what it was.
pub proof fn lemma_nearest(num: nat, den: nat)
    requires
        den > 0,
    ensures
        -den <= 2 * (nearest(num, den) * den - num) <= den,
{
    lemma_fundamental_div_mod(num as int, den as int);
    let q = (num / den) as int;
    let d = den as int;
    assert((q + 1) * d == d * q + d) by (nonlinear_arith);
    assert(q * d == d * q) by (nonlinear_arith);
}

/// How far a number with `bits` binary digits is from what it was, where digits
/// had to be added.
pub proof fn lemma_grown(num: nat, den: nat, bits: nat)
    requires
        den > 0,
        num > 0,
        2 * num < den * pow(2, bits),
    ensures
        ({
            let b = grown(num, den, bits);
            let p = pow(2, (-b.e) as nat);
            &&& b.e <= 0
            &&& -den <= 2 * (b.m * den - num * p) <= den
            &&& 2 * (num * p) >= den * pow(2, bits)
        }),
    decreases den * pow(2, bits) - num,
{
    let b = grown(num, den, bits);
    let next = grown(2 * num, den, bits);
    assert(b == next.moved(-1));
    let n = num as int;
    if 2 * (2 * num) < den * pow(2, bits) {
        lemma_grown(2 * num, den, bits);
    } else {
        lemma_nearest(2 * num, den);
        lemma_pow0(2);
        assert(2 * n * 1 == 2 * n);
    }
    let p = pow(2, (-next.e) as nat);
    lemma_double((-next.e) as nat);
    assert((2 * n) * p == n * (2 * p)) by (nonlinear_arith);
}

/// How far a number with `bits` binary digits is from what it was, where digits
/// had to go.
pub proof fn lemma_shrunk(num: nat, den: nat, bits: nat)
    requires
        den > 0,
        bits > 0,
        2 * num >= den * pow(2, bits),
    ensures
        ({
            let b = shrunk(num, den, bits);
            let p = pow(2, b.e as nat);
            &&& b.e >= 0
            &&& -(den * p) <= 2 * (b.m * (den * p) - num) <= den * p
            &&& (den * p) * pow(2, bits) <= 2 * num
        }),
    decreases num - den,
{
    let b = shrunk(num, den, bits);
    let d = den as int;
    let t = pow(2, bits);
    if num >= den * pow(2, bits) && num >= 2 * den {
        let next = shrunk(num, 2 * den, bits);
        assert(b == next.moved(1));
        assert((2 * d) * t == 2 * (d * t)) by (nonlinear_arith);
        lemma_shrunk(num, 2 * den, bits);
        let p = pow(2, next.e as nat);
        lemma_double(next.e as nat);
        assert((2 * d) * p == d * (2 * p)) by (nonlinear_arith);
    } else {
        lemma_nearest(num, den);
        lemma_pow0(2);
        assert(d * 1 == d);
    }
}

/// A number with `bits` binary digits has no more than that.
proof fn lemma_nearest_bound(num: nat, den: nat, top: nat)
    requires
        den > 0,
        num < den * top,
    ensures
        nearest(num, den) <= top,
{
    assert(num / den < top) by (nonlinear_arith)
        requires
            den > 0,
            num < den * top,
    ;
}

/// A number with `bits` binary digits has that many.
proof fn lemma_nearest_least(num: nat, den: nat, top: nat)
    requires
        den > 0,
        2 * num >= den * top,
        top % 2 == 0,
    ensures
        2 * nearest(num, den) >= top,
{
    let half = top / 2;
    assert(num / den >= half) by (nonlinear_arith)
        requires
            den > 0,
            2 * num >= den * top,
            top == 2 * half,
    ;
}

/// A number whose digits had to be added has no more than `bits`.
pub proof fn lemma_grown_bound(num: nat, den: nat, bits: nat)
    requires
        den > 0,
        num < den * pow(2, bits),
    ensures
        grown(num, den, bits).m <= pow(2, bits),
    decreases den * pow(2, bits) - num,
{
    if num > 0 && 2 * num < den * pow(2, bits) {
        lemma_grown_bound(2 * num, den, bits);
    } else {
        lemma_pow_positive(2, bits);
        lemma_nearest_bound(num, den, pow(2, bits) as nat);
    }
}

/// The number with `bits` binary digits that is nearest to `num / den`.
pub fn round_binary(num: u128, den: u128, bits: u32) -> (r: Rounded)
    requires
        2 <= bits <= 53,
        0 < den <= 1_000_000_000_000,
        num <= i128::MAX + 1,
    ensures
        r@ == binary(num as nat, den as nat, bits as nat),
        r.m <= pow(2, bits as nat),
        num > 0 ==> 2 * r.m >= pow(2, bits as nat),
        num == 0 ==> r.m == 0 && r.e == 0,
        -128 <= r.e <= 128,
        r.e < 0 ==> num * pow(2, (-r.e) as nat) < den * pow(2, bits as nat),
        r.e > 0 ==> den * pow(2, r.e as nat) * pow(2, bits as nat) <= 2 * num,
{
    let top = two_to(bits);
    proof {
        lemma_limits();
        lemma_pow_increases(2, bits as nat, 53);
        lemma_pow_increases(2, 2, bits as nat);
        reveal_with_fuel(pow, 3);
        assert(den * top <= 1_000_000_000_000 * 9_007_199_254_740_992) by (nonlinear_arith)
            requires
                0 < den <= 1_000_000_000_000,
                0 < top <= 9_007_199_254_740_992,
        ;
        lemma_double((bits - 1) as nat);
        lemma_pow0(2);
        assert(den * top > 0) by (nonlinear_arith)
            requires
                den > 0,
                top > 0,
        ;
    }
    let whole: u128 = den * top;
    if num < whole && 2 * num < whole {
        let mut n: u128 = num;
        let mut e: i32 = 0;
        let ghost all = grown(num as nat, den as nat, bits as nat);
        while n > 0 && 2 * n < whole
            invariant
                top == pow(2, bits as nat),
                whole == den * top,
                0 < whole <= 1_000_000_000_000 * 9_007_199_254_740_992,
                den > 0,
                n < whole,
                num == 0 ==> n == 0 && e == 0,
                num > 0 ==> n > 0,
                -126 <= e <= 0,
                n == num * pow(2, (-e) as nat),
                all == grown(n as nat, den as nat, bits as nat).moved(e as int),
                pow(2, 126) * 2 == i128::MAX + 1,
            decreases whole - n,
        {
            proof {
                let p = pow(2, (-e) as nat);
                let k = num as int;
                lemma_double((-e) as nat);
                assert(2 * (k * p) == k * (2 * p)) by (nonlinear_arith);
                if -e >= 126 {
                    lemma_pow_increases(2, 126, (-e) as nat);
                    assert(k * p >= p) by (nonlinear_arith)
                        requires
                            k >= 1,
                            p >= 0,
                    ;
                }
                assert(grown(n as nat, den as nat, bits as nat) == grown(
                    (2 * n) as nat,
                    den as nat,
                    bits as nat,
                ).moved(-1));
            }
            n = 2 * n;
            e = e - 1;
        }
        proof {
            lemma_nearest_bound(n as nat, den as nat, top as nat);
            if num > 0 {
                lemma_nearest_least(n as nat, den as nat, top as nat);
            }
        }
        return Rounded { m: nearest_whole(n, den), e };
    }
    let mut d: u128 = den;
    let mut e: i32 = 0;
    let ghost all = shrunk(num as nat, den as nat, bits as nat);
    assert(2 * num >= d * top);
    assert(d * 1 == d);
    while num / d >= top
        invariant
            4 <= top == pow(2, bits as nat),
            0 < den,
            0 < d <= i128::MAX,
            num <= i128::MAX + 1,
            0 <= e <= 126,
            d == den * pow(2, e as nat),
            2 * num >= d * top,
            all == shrunk(num as nat, d as nat, bits as nat).moved(e as int),
            pow(2, 126) * 2 == i128::MAX + 1,
        decreases num - d,
    {
        proof {
            lemma_fundamental_div_mod(num as int, d as int);
            let q = (num / d) as int;
            assert(d * q >= d * top && d * top >= 4 * d) by (nonlinear_arith)
                requires
                    q >= top,
                    top >= 4,
                    d > 0,
            ;
            let p = pow(2, e as nat);
            let k = den as int;
            lemma_double(e as nat);
            assert(2 * (k * p) == k * (2 * p)) by (nonlinear_arith);
            assert((2 * d) * top == 2 * (d * top)) by (nonlinear_arith);
            if e >= 125 {
                lemma_pow_increases(2, 125, e as nat);
                lemma_double(125);
                assert(k * p >= p) by (nonlinear_arith)
                    requires
                        k >= 1,
                        p >= 0,
                ;
            }
            assert(shrunk(num as nat, d as nat, bits as nat) == shrunk(
                num as nat,
                (2 * d) as nat,
                bits as nat,
            ).moved(1));
        }
        d = 2 * d;
        e = e + 1;
    }
    proof {
        assert(num < d * top) by (nonlinear_arith)
            requires
                num / d < top,
                d > 0,
                num >= 0,
        ;
        lemma_nearest_bound(num as nat, d as nat, top as nat);
        lemma_nearest_least(num as nat, d as nat, top as nat);
    }
    Rounded { m: nearest_whole(num, d), e }
}

/// Whether the number has 53 binary digits, or is zero.
pub open spec fn is_full(b: Binary) -> bool {
    b.m <= pow(2, 53) && (b.m == 0 || 2 * b.m >= pow(2, 53))
}

/// The number of seconds of so many nanoseconds, as 64 bits hold it.
pub fn to_seconds(nanos: u128) -> (r: Rounded)
    requires
        nanos <= i128::MAX + 1,
    ensures
        r@ == seconds(nanos as nat),
        is_full(r@),
        -83 <= r.e <= 46,
{
    let r = round_binary(nanos, 1_000_000_000, 53);
    proof {
        lemma_limits();
        lemma_pow_adds(2, 53, 30);
        lemma_pow_adds(2, 20, 10);
        lemma_pow_adds(2, 10, 10);
        let n = nanos as int;
        if r.e < -83 {
            let p = pow(2, (-r.e) as nat);
            lemma_pow_increases(2, 83, (-r.e) as nat);
            assert(n * p >= p) by (nonlinear_arith)
                requires
                    n >= 1,
                    p >= 0,
            ;
        }
        if r.e > 46 {
            let p = pow(2, r.e as nat);
            lemma_pow_increases(2, 47, r.e as nat);
            lemma_pow_adds(2, 47, 53);
            lemma_pow_adds(2, 100, 26);
            lemma_pow_adds(2, 24, 2);
            let t = pow(2, 53);
            assert(1_000_000_000 * p * t >= 1_000_000_000 * (pow(2, 47) * t)) by (nonlinear_arith)
                requires
                    p >= pow(2, 47),
                    t >= 0,
            ;
            reveal_with_fuel(pow, 3);
            lemma_pow_positive(2, 100);
            let w = pow(2, 100);
            assert(w * pow(2, 26) == w * 67_108_864);
        }
    }
    r
}

/// A number of 64 bits, multiplied and divided.
pub fn rescaled(b: Rounded, times: u128, per: u128) -> (r: Rounded)
    requires
        is_full(b@),
        -83 <= b.e <= 46,
        1 <= times <= 1000,
        1 <= per <= 60,
    ensures
        r@ == scaled_by(b@, times as nat, per as nat),
        is_full(r@),
        -90 <= r.e <= 60,
{
    proof {
        lemma_limits();
        let m = b.m as int;
        let t = times as int;
        assert(m * t <= 9_007_199_254_740_992 * 1000) by (nonlinear_arith)
            requires
                0 <= m <= 9_007_199_254_740_992,
                1 <= t <= 1000,
        ;
        assert(m * t >= m && (m == 0 ==> m * t == 0)) by (nonlinear_arith)
            requires
                m >= 0,
                t >= 1,
        ;
    }
    let num: u128 = b.m * times;
    let r = round_binary(num, per, 53);
    proof {
        let n = num as int;
        let d = per as int;
        let top = pow(2, 53);
        assert(d * top <= 60 * top) by (nonlinear_arith)
            requires
                d <= 60,
                top >= 0,
        ;
        reveal_with_fuel(pow, 8);
        if r.e < -7 {
            let p = pow(2, (-r.e) as nat);
            lemma_pow_increases(2, 7, (-r.e) as nat);
            assert(2 * (n * p) >= top * 128) by (nonlinear_arith)
                requires
                    2 * n >= top,
                    p >= 128,
                    top >= 0,
                    n >= 0,
            ;
        }
        if r.e > 14 {
            let p = pow(2, r.e as nat);
            lemma_pow_increases(2, 14, r.e as nat);
            lemma_pow_adds(2, 7, 7);
            assert(d * p * top >= 16384 * top) by (nonlinear_arith)
                requires
                    d >= 1,
                    p >= 16384,
                    top >= 0,
            ;
        }
    }
    Rounded { m: r.m, e: r.e + b.e }
}

/// The number as a fraction.
pub fn fraction(b: Rounded) -> (r: (u128, u128))
    requires
        is_full(b@),
        -90 <= b.e <= 60,
    ensures
        r.0 == b@.num(),
        r.1 == b@.den(),
        r.0 <= pow(2, 113),
        0 < r.1 <= i128::MAX,
{
    proof {
        lemma_limits();
        lemma_pow_increases(2, 53, 113);
        lemma_pow_increases(2, 113, 126);
    }
    if b.e < 0 {
        return (b.m, two_to((-b.e) as u32));
    }
    let p = two_to(b.e as u32);
    proof {
        lemma_pow_increases(2, b.e as nat, 60);
        lemma_pow_adds(2, 53, 60);
        let m = b.m as int;
        let q = p as int;
        assert(m * q <= pow(2, 53) * pow(2, 60)) by (nonlinear_arith)
            requires
                0 <= m <= pow(2, 53),
                0 <= q <= pow(2, 60),
        ;
    }
    (b.m * p, 1)
}

/// The number of seconds of so many nanoseconds, as 32 bits hold it.
pub open spec fn single(nanos: nat) -> Binary {
    binary(seconds(nanos).m, 1, 24).moved(seconds(nanos).e)
}

/// The nanoseconds that are left of so many where the seconds are held by 32 bits.
pub open spec fn single_nanos(nanos: nat) -> nat {
    nearest(single(nanos).num() * 1_000_000_000, single(nanos).den())
}

/// Whether that many seconds, as 32 bits hold them, can be counted with 64 bits.
pub open spec fn single_fits(nanos: nat) -> bool {
    nanos < pow(2, 64) * 1_000_000_000 && single(nanos).num() < pow(2, 64) * single(nanos).den()
}

/// The number of seconds of so many nanoseconds, as 32 bits hold it, as a fraction.
fn single_fraction(nanos: u128) -> (r: (u128, u128))
    requires
        nanos < pow(2, 64) * 1_000_000_000,
    ensures
        r.0 == single(nanos as nat).num(),
        r.1 == single(nanos as nat).den(),
        0 < r.1 <= pow(2, 83),
        r.0 <= pow(2, 65),
        r.1 > 1 ==> r.0 <= pow(2, 24),
{
    proof {
        lemma_limits();
    }
    let b = round_binary(nanos, 1_000_000_000, 53);
    let f = round_binary(b.m, 1, 24);
    proof {
        let top = pow(2, 53);
        let n = nanos as int;
        let m = b.m as int;
        lemma_pow_adds(2, 53, 1);
        lemma_pow0(2);
        lemma_double(0);
        lemma_pow_adds(2, 53, 30);
        lemma_pow_adds(2, 20, 10);
        lemma_pow_adds(2, 10, 10);
        if b.e < -83 {
            let p = pow(2, (-b.e) as nat);
            lemma_pow_increases(2, 83, (-b.e) as nat);
            assert(n * p >= p) by (nonlinear_arith)
                requires
                    n >= 1,
                    p >= 0,
            ;
        }
        // No digits had to be added.
        if f.e < 0 {
            let p = pow(2, (-f.e) as nat);
            lemma_pow_positive(2, (-f.e) as nat);
            assert(m * p >= m) by (nonlinear_arith)
                requires
                    p >= 1,
                    m >= 0,
            ;
        }
        // How many had to go, in both roundings.
        if f.e > 30 {
            let p = pow(2, f.e as nat);
            lemma_pow_increases(2, 31, f.e as nat);
            lemma_pow_adds(2, 31, 24);
            lemma_double(53);
            lemma_double(54);
            assert(1 * p * pow(2, 24) >= pow(2, 31) * pow(2, 24)) by (nonlinear_arith)
                requires
                    p >= pow(2, 31),
                    pow(2, 24) >= 0,
            ;
        }
        if b.e > 11 {
            let p = pow(2, b.e as nat);
            lemma_pow_increases(2, 12, b.e as nat);
            lemma_pow_adds(2, 12, 53);
            lemma_double(64);
            assert(1_000_000_000 * p * top >= 1_000_000_000 * (pow(2, 12) * top)) by (nonlinear_arith)
                requires
                    p >= pow(2, 12),
                    top >= 0,
            ;
        }
    }
    let e: i32 = f.e + b.e;
    if e < 0 {
        proof {
            lemma_pow_increases(2, (-e) as nat, 83);
            lemma_pow_increases(2, 24, 65);
        }
        return (f.m, two_to((-e) as u32));
    }
    let p = two_to(e as u32);
    proof {
        lemma_pow_increases(2, e as nat, 41);
        lemma_pow_adds(2, 24, 41);
        lemma_pow_increases(2, 65, 126);
        lemma_pow_positive(2, 83);
        let m = f.m as int;
        let q = p as int;
        assert(0 <= m * q <= pow(2, 24) * pow(2, 41)) by (nonlinear_arith)
            requires
                0 <= m <= pow(2, 24),
                0 <= q <= pow(2, 41),
        ;
    }
    (f.m * p, 1)
}

/// The nanoseconds that are left of so many where the seconds are held by 32 bits.
pub fn to_single_nanos(nanos: u128) -> (r: u128)
    requires
        nanos < pow(2, 64) * 1_000_000_000,
    ensures
        r == single_nanos(nanos as nat),
        r <= i128::MAX,
{
    let (num, den) = single_fraction(nanos);
    proof {
        lemma_limits();
        lemma_pow_adds(2, 65, 30);
        lemma_pow_adds(2, 20, 10);
        lemma_pow_adds(2, 10, 10);
        lemma_pow_strictly_increases(2, 95, 126);
        lemma_pow_increases(2, 83, 126);
        let n = num as int;
        assert(n * 1_000_000_000 <= pow(2, 65) * pow(2, 30)) by (nonlinear_arith)
            requires
                0 <= n <= pow(2, 65),
                pow(2, 30) >= 1_000_000_000,
        ;
    }
    nearest_whole(num * 1_000_000_000, den)
}

/// Whether that many seconds, as 32 bits hold them, can be counted with 64 bits.
pub fn fits_single(nanos: u128) -> (r: bool)
    ensures
        r == single_fits(nanos as nat),
{
    proof {
        lemma_limits();
    }
    if nanos >= 18_446_744_073_709_551_616_000_000_000 {
        return false;
    }
    let (num, den) = single_fraction(nanos);
    proof {
        let d = den as int;
        assert(pow(2, 64) * d >= pow(2, 64)) by (nonlinear_arith)
            requires
                d >= 1,
                pow(2, 64) >= 0,
        ;
    }
    den > 1 || num <= u64::MAX as u128
}

} // verus!
