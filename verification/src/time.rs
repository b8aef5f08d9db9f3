//! A span of time counted in nanoseconds, with the range and rounding of
//! `std::time::Duration`.

use vstd::prelude::*;

verus! {

pub const NANOS_PER_MILLI: u128 = 1_000_000;

pub const NANOS_PER_SEC: u128 = 1_000_000_000;

/// The longest span a `std::time::Duration` can hold: `u64::MAX` seconds and
/// 999_999_999 nanoseconds.
pub const MAX_NANOS: u128 = 18_446_744_073_709_551_615_999_999_999;

/// `x` raised to `lo` or lowered to `hi`.
pub open spec fn clamp_nanos(x: int, lo: int, hi: int) -> int {
    if x < lo {
        lo
    } else if x > hi {
        hi
    } else {
        x
    }
}

#[derive(Clone, Copy, Debug, PartialEq, Eq, Hash)]
pub struct Duration {
    nanos: u128,
}

impl Duration {
    /// Length of the span in nanoseconds.
    pub closed spec fn spec_nanos(self) -> int {
        self.nanos as int
    }

    /// Spans of the same length are the same span.
    pub proof fn lemma_eq_by_nanos(a: Self, b: Self)
        requires
            a.spec_nanos() == b.spec_nanos(),
        ensures
            a == b,
    {
    }

    pub fn from_nanos(nanos: u128) -> (r: Self)
        ensures
            r.spec_nanos() == nanos,
    {
        Duration { nanos }
    }

    pub fn from_millis(millis: u64) -> (r: Self)
        ensures
            r.spec_nanos() == millis * NANOS_PER_MILLI,
    {
        assert(millis * NANOS_PER_MILLI <= u64::MAX * NANOS_PER_MILLI) by (nonlinear_arith)
            requires
                millis <= u64::MAX,
        ;
        Duration { nanos: (millis as u128) * NANOS_PER_MILLI }
    }

    pub fn from_secs(secs: u64) -> (r: Self)
        ensures
            r.spec_nanos() == secs * NANOS_PER_SEC,
    {
        assert(secs * NANOS_PER_SEC <= u64::MAX * NANOS_PER_SEC) by (nonlinear_arith)
            requires
                secs <= u64::MAX,
        ;
        Duration { nanos: (secs as u128) * NANOS_PER_SEC }
    }

    pub fn as_nanos(self) -> (r: u128)
        ensures
            r == self.spec_nanos(),
    {
        self.nanos
    }

    pub fn is_zero(self) -> (r: bool)
        ensures
            r == (self.spec_nanos() == 0),
    {
        self.nanos == 0
    }

    /// The difference, or zero when `other` is the longer span.
    pub fn saturating_sub(self, other: Self) -> (r: Self)
        ensures
            r.spec_nanos() == (if self.spec_nanos() >= other.spec_nanos() {
                self.spec_nanos() - other.spec_nanos()
            } else {
                0
            }),
    {
        if self.nanos >= other.nanos {
            Duration { nanos: self.nanos - other.nanos }
        } else {
            Duration { nanos: 0 }
        }
    }

    /// The sum, or `None` past the longest span `std::time::Duration` holds.
    pub fn checked_add(self, other: Self) -> (r: Option<Self>)
        ensures
            match r {
                Some(sum) => sum.spec_nanos() == self.spec_nanos() + other.spec_nanos()
                    && self.spec_nanos() + other.spec_nanos() <= MAX_NANOS,
                None => self.spec_nanos() + other.spec_nanos() > MAX_NANOS,
            },
    {
        if self.nanos > MAX_NANOS || other.nanos > MAX_NANOS - self.nanos {
            None
        } else {
            Some(Duration { nanos: self.nanos + other.nanos })
        }
    }

    pub proof fn lemma_nanos_range(d: Self)
        ensures
            0 <= d.spec_nanos() <= u128::MAX,
    {
    }

    /// The span of `n` nanoseconds.
    pub closed spec fn spec_from_nanos(n: int) -> Self {
        Duration { nanos: n as u128 }
    }

    pub proof fn lemma_from_nanos(n: int)
        requires
            0 <= n <= u128::MAX,
        ensures
            Self::spec_from_nanos(n).spec_nanos() == n,
    {
    }

    /// This span, raised to `min` or lowered to `max`.
    pub fn clamp(self, min: Self, max: Self) -> (r: Self)
        requires
            min.spec_nanos() <= max.spec_nanos(),
        ensures
            r.spec_nanos() == clamp_nanos(self.spec_nanos(), min.spec_nanos(), max.spec_nanos()),
    {
        if self.nanos < min.nanos {
            min
        } else if self.nanos > max.nanos {
            max
        } else {
            self
        }
    }

    /// Half of this span, rounded down to the nanosecond.
    pub fn half(self) -> (r: Self)
        ensures
            r.spec_nanos() == self.spec_nanos() / 2,
    {
        Duration { nanos: self.nanos / 2 }
    }
}

} // verus!
