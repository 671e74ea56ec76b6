//! Whole numbers of any size, as decimal digits, the last one first.

use vstd::arithmetic::power::*;
use vstd::prelude::*;

use crate::numbers::{all_digits, digit, lemma_value_split, value};

verus! {

/// The number that digits stand for, of which the last comes first.
pub open spec fn total(v: Seq<u8>) -> nat
    decreases v.len(),
{
    if v.len() == 0 {
        0
    } else {
        v[0] as nat + 10 * total(v.drop_first())
    }
}

/// Whether all are decimal digits.
pub open spec fn proper(v: Seq<u8>) -> bool {
    forall|i: int| 0 <= i < v.len() ==> #[trigger] v[i] < 10
}

proof fn lemma_step(k: nat)
    ensures
        pow(10, k + 1) == 10 * pow(10, k),
        pow(10, k) >= 1,
{
    reveal(pow);
    lemma_pow_positive(10, k);
}

/// Digits behind others count for as many places more as there are before them.
pub proof fn lemma_total_concat(a: Seq<u8>, b: Seq<u8>)
    ensures
        total(a + b) == total(a) + pow(10, a.len()) * total(b),
    decreases a.len(),
{
    if a.len() == 0 {
        lemma_pow0(10);
        assert(a + b =~= b);
    } else {
        assert((a + b).drop_first() =~= a.drop_first() + b);
        lemma_total_concat(a.drop_first(), b);
        lemma_step((a.len() - 1) as nat);
        let p = pow(10, (a.len() - 1) as nat);
        let t = total(b) as int;
        assert(10 * (p * t) == (10 * p) * t) by (nonlinear_arith);
    }
}

proof fn lemma_total_push(v: Seq<u8>, d: u8)
    ensures
        total(v.push(d)) == total(v) + pow(10, v.len()) * d,
{
    assert(v.push(d) =~= v + seq![d]);
    lemma_total_concat(v, seq![d]);
    assert(seq![d].drop_first() =~= Seq::<u8>::empty());
    assert(total(seq![d].drop_first()) == 0);
    assert(total(seq![d]) == d as nat);
}

proof fn lemma_total_bound(v: Seq<u8>)
    requires
        proper(v),
    ensures
        total(v) < pow(10, v.len()),
    decreases v.len(),
{
    if v.len() == 0 {
        lemma_pow0(10);
    } else {
        assert(v[0] < 10);
        assert forall|i: int| 0 <= i < v.len() - 1 implies #[trigger] v.drop_first()[i] < 10 by {
            assert(v[i + 1] < 10);
        }
        lemma_total_bound(v.drop_first());
        lemma_step((v.len() - 1) as nat);
    }
}

/// The number that written digits stand for.
pub fn number_of(digits: &[char]) -> (r: Vec<u8>)
    requires
        all_digits(digits@),
    ensures
        proper(r@),
        total(r@) == value(digits@),
        r@.len() == digits@.len(),
{
    let mut out: Vec<u8> = Vec::new();
    let mut i: usize = digits.len();
    assert(digits@.skip(i as int) =~= Seq::<char>::empty());
    while i > 0
        invariant
            i <= digits@.len(),
            all_digits(digits@),
            out@.len() == digits@.len() - i,
            proper(out@),
            total(out@) == value(digits@.skip(i as int)),
        decreases i,
    {
        i -= 1;
        assert(digit(digits@[i as int]));
        let d: u8 = (digits[i] as u32 - 48) as u8;
        proof {
            let rest = digits@.skip(i + 1);
            let head = seq![digits@[i as int]];
            assert(digits@.skip(i as int) =~= head + rest);
            lemma_value_split(head, rest);
            assert(head.drop_last() =~= Seq::<char>::empty());
            assert(value(head.drop_last()) == 0);
            assert(value(head) == d as nat);
            lemma_total_push(out@, d);
            let p = pow(10, rest.len());
            assert(p * d == d * p) by (nonlinear_arith);
        }
        out.push(d);
    }
    assert(digits@.skip(0) =~= digits@);
    out
}

/// A number of 64 bits.
pub fn whole(n: u64) -> (r: Vec<u8>)
    ensures
        proper(r@),
        total(r@) == n,
{
    let mut out: Vec<u8> = Vec::new();
    let mut rest: u64 = n;
    proof {
        lemma_pow0(10);
    }
    while rest > 0
        invariant
            proper(out@),
            total(out@) + pow(10, out@.len()) * rest == n,
        decreases rest,
    {
        proof {
            let p = pow(10, out@.len());
            let low = (rest % 10) as int;
            let high = (rest / 10) as int;
            lemma_step(out@.len());
            lemma_total_push(out@, (rest % 10) as u8);
            assert(rest == low + 10 * high);
            assert(p * (low + 10 * high) == p * low + (10 * p) * high) by (nonlinear_arith);
        }
        out.push((rest % 10) as u8);
        rest = rest / 10;
    }
    assert(pow(10, out@.len()) * 0 == 0);
    out
}

/// The number `k` times.
pub fn multiplied(v: &Vec<u8>, k: u8) -> (r: Vec<u8>)
    requires
        proper(v@),
        k <= 10,
    ensures
        proper(r@),
        total(r@) == total(v@) * k,
{
    let mut out: Vec<u8> = Vec::new();
    let mut carry: u8 = 0;
    let mut i: usize = 0;
    proof {
        lemma_pow0(10);
        assert(v@.take(0) =~= Seq::<u8>::empty());
        assert(0 * k == 0);
    }
    while i < v.len()
        invariant
            i <= v@.len(),
            proper(v@),
            k <= 10,
            carry <= 10,
            proper(out@),
            out@.len() == i,
            total(out@) + pow(10, i as nat) * carry == total(v@.take(i as int)) * k,
        decreases v@.len() - i,
    {
        assert(v@[i as int] < 10);
        let d = v[i];
        assert(d * k <= 90) by (nonlinear_arith)
            requires
                d < 10,
                k <= 10,
        ;
        let n: u8 = d * k + carry;
        proof {
            lemma_step(i as nat);
            assert(v@.take(i + 1) =~= v@.take(i as int).push(d));
            lemma_total_push(v@.take(i as int), d);
            lemma_total_push(out@, n % 10);
            let p = pow(10, i as nat);
            let low = (n % 10) as int;
            let high = (n / 10) as int;
            let t = total(v@.take(i as int)) as int;
            let kk = k as int;
            let dd = d as int;
            let c = carry as int;
            assert(p * low + (10 * p) * high == p * (low + 10 * high)) by (nonlinear_arith);
            assert(low + 10 * high == dd * kk + c);
            assert(p * (dd * kk + c) == (p * dd) * kk + p * c) by (nonlinear_arith);
            assert((t + p * dd) * kk == t * kk + (p * dd) * kk) by (nonlinear_arith);
        }
        out.push(n % 10);
        carry = n / 10;
        i += 1;
    }
    assert(v@.take(v@.len() as int) =~= v@);
    proof {
        lemma_total_push(out@, carry % 10);
        lemma_step(i as nat);
        lemma_total_push(out@.push(carry % 10), carry / 10);
        let p = pow(10, i as nat);
        let low = (carry % 10) as int;
        let high = (carry / 10) as int;
        assert(p * low + (10 * p) * high == p * (low + 10 * high)) by (nonlinear_arith);
        assert(low + 10 * high == carry);
    }
    out.push(carry % 10);
    out.push(carry / 10);
    out
}

/// The number times ten to the power of `k`.
pub fn shifted(v: &Vec<u8>, k: i128) -> (r: Vec<u8>)
    requires
        proper(v@),
        k >= 0,
    ensures
        proper(r@),
        total(r@) == total(v@) * pow(10, k as nat),
{
    let mut out: Vec<u8> = Vec::new();
    let mut i: i128 = 0;
    while i < k
        invariant
            0 <= i <= k,
            out@.len() == i,
            proper(out@),
            total(out@) == 0,
        decreases k - i,
    {
        proof {
            lemma_total_push(out@, 0);
            assert(pow(10, out@.len()) * 0 == 0);
        }
        out.push(0);
        i += 1;
    }
    let ghost zeros = out@;
    let mut j: usize = 0;
    assert(out@ =~= zeros + v@.take(0));
    while j < v.len()
        invariant
            j <= v@.len(),
            proper(v@),
            proper(out@),
            out@ == zeros + v@.take(j as int),
        decreases v@.len() - j,
    {
        out.push(v[j]);
        assert(v@.take(j + 1) =~= v@.take(j as int).push(v@[j as int]));
        assert(out@ =~= zeros + v@.take(j + 1));
        j += 1;
    }
    assert(v@.take(j as int) =~= v@);
    proof {
        lemma_total_concat(zeros, v@);
        let p = pow(10, k as nat);
        let t = total(v@) as int;
        assert(p * t == t * p) by (nonlinear_arith);
    }
    out
}

/// The number times two to the power of `k`.
pub fn doubled(v: Vec<u8>, k: u32) -> (r: Vec<u8>)
    requires
        proper(v@),
    ensures
        proper(r@),
        total(r@) == total(v@) * pow(2, k as nat),
{
    let ghost start = total(v@);
    let mut out = v;
    let mut i: u32 = 0;
    proof {
        lemma_pow0(2);
    }
    while i < k
        invariant
            i <= k,
            proper(out@),
            total(out@) == start * pow(2, i as nat),
        decreases k - i,
    {
        out = multiplied(&out, 2);
        proof {
            reveal(pow);
            let p = pow(2, i as nat);
            let s = start as int;
            assert((s * p) * 2 == s * (2 * p)) by (nonlinear_arith);
        }
        i += 1;
    }
    out
}

spec fn front(v: Seq<u8>, i: int) -> Seq<u8> {
    if i < v.len() {
        v.take(i)
    } else {
        v
    }
}

spec fn digit_at(v: Seq<u8>, i: int) -> int {
    if i < v.len() {
        v[i] as int
    } else {
        0
    }
}

proof fn lemma_front(v: Seq<u8>, i: nat)
    requires
        proper(v),
    ensures
        total(front(v, i as int + 1)) == total(front(v, i as int)) + pow(10, i) * digit_at(
            v,
            i as int,
        ),
        total(front(v, i as int)) < pow(10, i),
        0 <= digit_at(v, i as int) < 10,
{
    if i < v.len() {
        assert(v[i as int] < 10);
        assert(v.take(i as int + 1) =~= v.take(i as int).push(v[i as int]));
        assert(v.take(v.len() as int) =~= v);
        lemma_total_push(v.take(i as int), v[i as int]);
        lemma_total_bound(v.take(i as int));
    } else {
        lemma_total_bound(v);
        lemma_pow_increases(10, v.len(), i);
        assert(v.take(v.len() as int) =~= v);
        assert(pow(10, i) * 0 == 0);
    }
}

/// Whether one number is not larger than another.
pub fn at_most(a: &Vec<u8>, b: &Vec<u8>) -> (r: bool)
    requires
        proper(a@),
        proper(b@),
    ensures
        r == (total(a@) <= total(b@)),
{
    let mut r = true;
    let mut i: usize = 0;
    assert(front(a@, 0) =~= Seq::<u8>::empty());
    assert(front(b@, 0) =~= Seq::<u8>::empty());
    while i < a.len() || i < b.len()
        invariant
            proper(a@),
            proper(b@),
            i <= a@.len() || i <= b@.len(),
            r == (total(front(a@, i as int)) <= total(front(b@, i as int))),
        decreases a@.len() + b@.len() - i,
    {
        let x: u8 = if i < a.len() {
            a[i]
        } else {
            0
        };
        let y: u8 = if i < b.len() {
            b[i]
        } else {
            0
        };
        proof {
            lemma_front(a@, i as nat);
            lemma_front(b@, i as nat);
            let p = pow(10, i as nat);
            let u = x as int;
            let w = y as int;
            assert(u < w ==> p * u + p <= p * w) by (nonlinear_arith)
                requires
                    p >= 0,
            ;
            assert(u > w ==> p * w + p <= p * u) by (nonlinear_arith)
                requires
                    p >= 0,
            ;
            lemma_pow_positive(10, i as nat);
        }
        if x < y {
            r = true;
        } else if x > y {
            r = false;
        }
        i += 1;
    }
    r
}

} // verus!
