//! Ranges of numbers, used to bound a ray's parameter and to limit a colour channel.
use crate::scalar::{Scalar, INFINITY_BITS, SIGN_BIT};
use vstd::prelude::*;

verus! {

/// A range from `min` to `max`. Whether the ends belong to it is for the caller to say: it
/// picks [`Interval::contains`] or [`Interval::surrounds`].
#[derive(Clone, Copy, Debug, PartialEq, Eq, Structural)]
pub struct Interval {
    pub min: Scalar,
    pub max: Scalar,
}

impl Interval {
    /// From +infinity to -infinity: holds no number.
    pub open spec fn spec_empty() -> Interval {
        Interval {
            min: Scalar { bits: INFINITY_BITS },
            max: Scalar { bits: (INFINITY_BITS + SIGN_BIT) as u64 },
        }
    }

    /// From -infinity to +infinity: contains every number.
    pub open spec fn spec_universe() -> Interval {
        Interval {
            min: Scalar { bits: (INFINITY_BITS + SIGN_BIT) as u64 },
            max: Scalar { bits: INFINITY_BITS },
        }
    }

    /// `min <= n <= max`
    pub open spec fn spec_contains(&self, n: Scalar) -> bool {
        self.min.le(n) && n.le(self.max)
    }

    /// `min < n < max`
    pub open spec fn spec_surrounds(&self, n: Scalar) -> bool {
        self.min.lt(n) && n.lt(self.max)
    }

    /// `n`, moved to the nearer end where it lies outside. A NaN is on neither side of an
    /// end and is returned as it is.
    pub open spec fn spec_clamp(&self, n: Scalar) -> Scalar {
        if n.lt(self.min) {
            self.min
        } else if self.max.lt(n) {
            self.max
        } else {
            n
        }
    }

    /// The range from `min` to `max`.
    pub fn new(min: Scalar, max: Scalar) -> (r: Interval)
        ensures
            r.min == min,
            r.max == max,
    {
        Interval { min, max }
    }

    /// From +infinity to -infinity: holds no number.
    #[verifier::when_used_as_spec(spec_empty)]
    pub fn empty() -> (r: Interval)
        ensures
            r == Interval::spec_empty(),
    {
        Interval { min: Scalar::infinity(), max: Scalar::infinity().neg() }
    }

    /// From -infinity to +infinity: contains every number.
    #[verifier::when_used_as_spec(spec_universe)]
    pub fn universe() -> (r: Interval)
        ensures
            r == Interval::spec_universe(),
    {
        Interval { min: Scalar::infinity().neg(), max: Scalar::infinity() }
    }

    /// `min <= n <= max`
    #[verifier::when_used_as_spec(spec_contains)]
    pub fn contains(&self, n: Scalar) -> (r: bool)
        ensures
            r == self.spec_contains(n),
    {
        self.min.le(n) && n.le(self.max)
    }

    /// `min < n < max`
    #[verifier::when_used_as_spec(spec_surrounds)]
    pub fn surrounds(&self, n: Scalar) -> (r: bool)
        ensures
            r == self.spec_surrounds(n),
    {
        self.min.lt(n) && n.lt(self.max)
    }

    /// `n`, moved to the nearer end where it lies outside. A NaN is on neither side of an
    /// end and is returned as it is.
    #[verifier::when_used_as_spec(spec_clamp)]
    pub fn clamp(&self, n: Scalar) -> (r: Scalar)
        ensures
            r == self.spec_clamp(n),
            self.min.le(self.max) && !n.is_nan() ==> self.contains(r),
    {
        if n.lt(self.min) {
            self.min
        } else if self.max.lt(n) {
            self.max
        } else {
            n
        }
    }

    /// The lower end.
    pub fn min(&self) -> (r: Scalar)
        ensures
            r == self.min,
    {
        self.min
    }

    /// The upper end.
    pub fn max(&self) -> (r: Scalar)
        ensures
            r == self.max,
    {
        self.max
    }
}

impl Default for Interval {
    /// The empty interval.
    fn default() -> (r: Interval)
        ensures
            r == Interval::spec_empty(),
    {
        Interval::empty()
    }
}

/// The empty interval surrounds and contains nothing; the universe contains every number
/// and surrounds every finite one.
pub proof fn lemma_empty_and_universe(n: Scalar)
    ensures
        !Interval::spec_empty().contains(n),
        !Interval::spec_empty().surrounds(n),
        !n.is_nan() ==> Interval::spec_universe().contains(n),
        !n.is_nan() && !n.is_infinite() ==> Interval::spec_universe().surrounds(n),
{
    crate::scalar::lemma_infinity_bounds(n);
}

} // verus!
