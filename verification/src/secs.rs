//! Moments and lengths of time.
//!
//! A [`Secs`] is a number of seconds held as a whole number of nanoseconds, so that
//! lengths are added and compared as they are written.
//! Beside the finite numbers there are the two infinities and "not a number":
//! they are what remains of a value that could not be read, and they travel
//! through every operation instead of stopping it. No operation on a [`Secs`] can
//! overflow: the range of the finite ones, some thousand million million million
//! years either way, is never left.

use vstd::prelude::*;

verus! {

/// How many nanoseconds a second has.
pub const NANOS_PER_SEC: i128 = 1_000_000_000;

/// A number of seconds.
#[derive(Debug, Clone, Copy, PartialEq, Eq, Structural)]
pub enum Secs {
    /// A finite number, counted in nanoseconds.
    Finite(i128),
    /// Larger than every finite number.
    PosInf,
    /// Smaller than every finite number.
    NegInf,
    /// Not a number. It compares with nothing, not even with itself.
    Nan,
}

/// The time of `n` nanoseconds, or the end of the range where it lies beyond.
pub open spec fn of_nanos(n: int) -> Secs {
    if n > i128::MAX {
        Secs::Finite(i128::MAX)
    } else if n < i128::MIN {
        Secs::Finite(i128::MIN)
    } else {
        Secs::Finite(n as i128)
    }
}

/// The time of no seconds at all.
pub open spec fn zero() -> Secs {
    Secs::Finite(0)
}

impl Secs {
    /// Whether the time is an ordinary number.
    pub open spec fn finite(self) -> bool {
        self is Finite
    }

    /// The nanoseconds of a finite time.
    pub open spec fn nanos(self) -> int
        recommends
            self.finite(),
    {
        self->Finite_0 as int
    }

    /// `self < other`; never true of a time that is not a number.
    pub open spec fn before(self, other: Secs) -> bool {
        match (self, other) {
            (Secs::Nan, _) => false,
            (_, Secs::Nan) => false,
            (Secs::Finite(a), Secs::Finite(b)) => a < b,
            (Secs::NegInf, Secs::NegInf) => false,
            (Secs::NegInf, _) => true,
            (_, Secs::PosInf) => self !is PosInf,
            _ => false,
        }
    }

    /// `self <= other`; never true of a time that is not a number.
    pub open spec fn no_later(self, other: Secs) -> bool {
        self !is Nan && other !is Nan && !other.before(self)
    }

    /// The sum of two times.
    pub open spec fn plus_spec(self, other: Secs) -> Secs {
        match (self, other) {
            (Secs::Nan, _) => Secs::Nan,
            (_, Secs::Nan) => Secs::Nan,
            (Secs::Finite(a), Secs::Finite(b)) => of_nanos(a + b),
            (Secs::PosInf, Secs::NegInf) => Secs::Nan,
            (Secs::NegInf, Secs::PosInf) => Secs::Nan,
            (Secs::Finite(_), inf) => inf,
            (inf, _) => inf,
        }
    }

    /// The difference of two times.
    pub open spec fn minus_spec(self, other: Secs) -> Secs {
        match (self, other) {
            (Secs::Finite(a), Secs::Finite(b)) => of_nanos(a - b),
            (_, Secs::Finite(_)) => self,
            (_, Secs::PosInf) => self.plus_spec(Secs::NegInf),
            (_, Secs::NegInf) => self.plus_spec(Secs::PosInf),
            (_, Secs::Nan) => Secs::Nan,
        }
    }

    /// The time taken `k` times, where `k` is not zero.
    pub open spec fn times_spec(self, k: nat) -> Secs {
        match self {
            Secs::Finite(n) => of_nanos(n * k),
            _ => self,
        }
    }

    /// A tenth of the time, in whole nanoseconds.
    pub open spec fn tenth_spec(self) -> Secs {
        match self {
            Secs::Finite(n) => of_nanos(n as int / 10),
            _ => self,
        }
    }

    /// The time moved into `low ..= high`. Not a number stays what it is.
    pub open spec fn clamped(self, low: Secs, high: Secs) -> Secs {
        if self.before(low) {
            low
        } else if high.before(self) {
            high
        } else {
            self
        }
    }

    /// The time, or zero where it lies below zero or is not a number.
    pub open spec fn at_least_zero_spec(self) -> Secs {
        if zero().before(self) {
            self
        } else {
            zero()
        }
    }

    /// A finite time given in nanoseconds.
    pub fn from_nanos(nanos: i128) -> (r: Secs)
        ensures
            r == Secs::Finite(nanos),
    {
        Secs::Finite(nanos)
    }

    /// A finite time given in whole seconds.
    pub fn from_secs(secs: u64) -> (r: Secs)
        ensures
            r == Secs::Finite((secs * NANOS_PER_SEC) as i128),
            r.nanos() == secs * NANOS_PER_SEC,
    {
        Secs::Finite(secs as i128 * NANOS_PER_SEC)
    }

    /// Whether the time is an ordinary number.
    pub fn is_finite(&self) -> (r: bool)
        ensures
            r == self.finite(),
    {
        match self {
            Secs::Finite(_) => true,
            _ => false,
        }
    }

    /// `self < other`; never true of a time that is not a number.
    pub fn lt(&self, other: Secs) -> (r: bool)
        ensures
            r == self.before(other),
    {
        match (*self, other) {
            (Secs::Nan, _) => false,
            (_, Secs::Nan) => false,
            (Secs::Finite(a), Secs::Finite(b)) => a < b,
            (Secs::NegInf, Secs::NegInf) => false,
            (Secs::NegInf, _) => true,
            (Secs::Finite(_), Secs::PosInf) => true,
            _ => false,
        }
    }

    /// `self <= other`; never true of a time that is not a number.
    pub fn le(&self, other: Secs) -> (r: bool)
        ensures
            r == self.no_later(other),
    {
        match (*self, other) {
            (Secs::Nan, _) => false,
            (_, Secs::Nan) => false,
            _ => !other.lt(*self),
        }
    }

    /// The sum of two times.
    pub fn plus(&self, other: Secs) -> (r: Secs)
        ensures
            r == self.plus_spec(other),
    {
        match (*self, other) {
            (Secs::Nan, _) => Secs::Nan,
            (_, Secs::Nan) => Secs::Nan,
            (Secs::Finite(a), Secs::Finite(b)) => match a.checked_add(b) {
                Some(n) => Secs::Finite(n),
                None => if a > 0 {
                    Secs::Finite(i128::MAX)
                } else {
                    Secs::Finite(i128::MIN)
                },
            },
            (Secs::PosInf, Secs::NegInf) => Secs::Nan,
            (Secs::NegInf, Secs::PosInf) => Secs::Nan,
            (Secs::Finite(_), inf) => inf,
            (inf, _) => inf,
        }
    }

    /// The difference of two times.
    pub fn minus(&self, other: Secs) -> (r: Secs)
        ensures
            r == self.minus_spec(other),
    {
        match (*self, other) {
            (Secs::Finite(a), Secs::Finite(b)) => match a.checked_sub(b) {
                Some(n) => Secs::Finite(n),
                None => if b < 0 {
                    Secs::Finite(i128::MAX)
                } else {
                    Secs::Finite(i128::MIN)
                },
            },
            (_, Secs::PosInf) => self.plus(Secs::NegInf),
            (_, Secs::NegInf) => self.plus(Secs::PosInf),
            (_, Secs::Nan) => Secs::Nan,
            (s, Secs::Finite(_)) => s,
        }
    }

    /// The time taken `k` times.
    pub fn times(&self, k: u32) -> (r: Secs)
        requires
            k > 0,
        ensures
            r == self.times_spec(k as nat),
    {
        match *self {
            Secs::Finite(n) => match n.checked_mul(k as i128) {
                Some(m) => Secs::Finite(m),
                None => {
                    proof {
                        assert(n > 0 ==> n * k > 0) by (nonlinear_arith)
                            requires
                                k > 0,
                        ;
                        assert(n <= 0 ==> n * k <= 0) by (nonlinear_arith)
                            requires
                                k > 0,
                        ;
                    }
                    if n > 0 {
                        Secs::Finite(i128::MAX)
                    } else {
                        Secs::Finite(i128::MIN)
                    }
                },
            },
            s => s,
        }
    }

    /// A tenth of the time, in whole nanoseconds.
    pub fn tenth(&self) -> (r: Secs)
        ensures
            r == self.tenth_spec(),
    {
        match *self {
            Secs::Finite(n) => if n >= 0 {
                Secs::Finite(n / 10)
            } else {
                let q: i128 = (-(n + 1)) / 10;
                Secs::Finite(-q - 1)
            },
            s => s,
        }
    }

    /// The time moved into `low ..= high`. Not a number stays what it is.
    pub fn clamp(&self, low: Secs, high: Secs) -> (r: Secs)
        ensures
            r == self.clamped(low, high),
    {
        if self.lt(low) {
            low
        } else if high.lt(*self) {
            high
        } else {
            *self
        }
    }

    /// The time, or zero where it lies below zero or is not a number.
    pub fn at_least_zero(&self) -> (r: Secs)
        ensures
            r == self.at_least_zero_spec(),
    {
        if Secs::Finite(0).lt(*self) {
            *self
        } else {
            Secs::Finite(0)
        }
    }
}

} // verus!
