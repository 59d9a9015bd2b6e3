//! Binary64 numbers as bit patterns.
//!
//! A [`Scalar`] carries the 64 bits of an IEEE 754 double. Its numeric meaning is given by
//! [`Scalar::units`], an exact integer: the number it stands for, counted in steps of
//! 2^-1074 (the smallest positive binary64). Comparisons, sign changes and the conversion to
//! integers are computed on the bits and proved against that meaning. Rounding arithmetic
//! (sums, products, roots) is not part of this module: callers compute it and hand the
//! results in.
use vstd::arithmetic::div_mod::{
    lemma_basic_div, lemma_div_by_multiple, lemma_div_is_ordered,
    lemma_div_multiples_vanish_quotient,
};
use vstd::arithmetic::power2::{
    lemma2_to64, lemma2_to64_rest, lemma_pow2_adds, lemma_pow2_pos,
    lemma_pow2_strictly_increases, lemma_pow2_unfold, pow2,
};
use vstd::bits::lemma_u64_shr_is_div;
use vstd::prelude::*;

verus! {

/// The sign bit of a pattern.
pub const SIGN_BIT: u64 = 0x8000_0000_0000_0000;

/// 2^52: the weight of the implicit leading bit of a normal number's significand, and the
/// weight of the lowest exponent bit within a pattern.
pub const HIDDEN_BIT: u64 = 0x0010_0000_0000_0000;

/// The pattern of positive infinity. Larger magnitudes are NaNs.
pub const INFINITY_BITS: u64 = 0x7ff0_0000_0000_0000;

/// The pattern of 1.0.
pub const ONE_BITS: u64 = 0x3ff0_0000_0000_0000;

/// The exponent bias plus the width of the fraction: a significand `m` at shift `s` stands
/// for `m * 2^(s - 1074)`.
pub const UNIT_EXPONENT: u64 = 1074;

/// A binary64 number, held by its bit pattern.
///
/// `==` compares patterns: it tells +0.0 from -0.0, and finds a NaN equal to itself. To
/// compare numbers use [`Scalar::lt`] and [`Scalar::le`].
#[derive(Clone, Copy, Debug, PartialEq, Eq, Structural)]
pub struct Scalar {
    pub bits: u64,
}

/// What a pattern without its sign bit stands for, in units of 2^-1074. The pattern's upper
/// bits are the exponent field and its lower 52 the fraction. With an exponent field of
/// zero the fraction counts as it is; else the hidden bit is added to it, and the sum is
/// doubled once for each step of the exponent above one.
pub open spec fn magnitude_size(m: u64) -> nat {
    let exponent = m / HIDDEN_BIT;
    let fraction = m % HIDDEN_BIT;
    if exponent == 0 {
        fraction as nat
    } else {
        ((fraction + HIDDEN_BIT) * pow2((exponent - 1) as nat)) as nat
    }
}

impl Scalar {
    /// Whether the sign bit is set. True of -0.0 too.
    pub open spec fn negative(self) -> bool {
        self.bits >= SIGN_BIT
    }

    /// The pattern without its sign bit.
    pub open spec fn magnitude(self) -> u64 {
        if self.bits >= SIGN_BIT {
            (self.bits - SIGN_BIT) as u64
        } else {
            self.bits
        }
    }

    /// Whether the pattern is a NaN.
    pub open spec fn spec_is_nan(self) -> bool {
        self.magnitude() > INFINITY_BITS
    }

    /// Whether the pattern is +infinity or -infinity.
    pub open spec fn is_infinite(self) -> bool {
        self.magnitude() == INFINITY_BITS
    }

    /// The absolute value in units of 2^-1074. Infinity counts as 2^2098, above every finite
    /// number; for a NaN the result has no meaning.
    pub open spec fn size(self) -> nat {
        magnitude_size(self.magnitude())
    }

    /// The number in units of 2^-1074, as an exact integer. Both zeros give 0.
    pub open spec fn units(self) -> int {
        if self.negative() {
            -(self.size() as int)
        } else {
            self.size() as int
        }
    }

    /// `self < other` as IEEE 754 defines it: false whenever a NaN takes part.
    pub open spec fn spec_lt(self, other: Scalar) -> bool {
        !self.spec_is_nan() && !other.spec_is_nan() && self.units() < other.units()
    }

    /// `self <= other` as IEEE 754 defines it: false whenever a NaN takes part.
    pub open spec fn spec_le(self, other: Scalar) -> bool {
        !self.spec_is_nan() && !other.spec_is_nan() && self.units() <= other.units()
    }

    /// The pattern with its sign bit flipped.
    pub open spec fn spec_neg(self) -> Scalar {
        if self.bits >= SIGN_BIT {
            Scalar { bits: (self.bits - SIGN_BIT) as u64 }
        } else {
            Scalar { bits: (self.bits + SIGN_BIT) as u64 }
        }
    }

    /// The pattern with its sign bit cleared.
    pub open spec fn spec_abs(self) -> Scalar {
        Scalar { bits: self.magnitude() }
    }

    /// The whole part of the number times `2^k`, for a number that is neither negative nor
    /// a NaN.
    pub open spec fn floor_scaled(self, k: nat) -> nat {
        (self.size() * pow2(k)) / pow2(UNIT_EXPONENT as nat)
    }

    /// The whole part of the number times `2^k`, held to `0..=limit`: 0 for a NaN and for
    /// anything with the sign bit set, `limit` for anything too large, infinity included.
    /// This is what a saturating conversion of the product to an unsigned integer gives.
    pub open spec fn spec_quantize(self, k: u8, limit: u32) -> u32 {
        if self.spec_is_nan() || self.negative() {
            0
        } else if self.floor_scaled(k as nat) >= limit {
            limit
        } else {
            self.floor_scaled(k as nat) as u32
        }
    }

    /// The number with the given pattern.
    pub fn from_bits(bits: u64) -> (r: Scalar)
        ensures
            r.bits == bits,
    {
        Scalar { bits }
    }

    /// The pattern of the number.
    pub fn to_bits(self) -> (bits: u64)
        ensures
            bits == self.bits,
    {
        self.bits
    }

    /// +0.0
    pub open spec fn spec_zero() -> Scalar {
        Scalar { bits: 0 }
    }

    /// +0.0
    #[verifier::when_used_as_spec(spec_zero)]
    pub fn zero() -> (r: Scalar)
        ensures
            r == Scalar::spec_zero(),
    {
        Scalar { bits: 0 }
    }

    /// 1.0
    pub open spec fn spec_one() -> Scalar {
        Scalar { bits: ONE_BITS }
    }

    /// 1.0
    #[verifier::when_used_as_spec(spec_one)]
    pub fn one() -> (r: Scalar)
        ensures
            r == Scalar::spec_one(),
    {
        Scalar { bits: ONE_BITS }
    }

    /// +infinity
    pub open spec fn spec_infinity() -> Scalar {
        Scalar { bits: INFINITY_BITS }
    }

    /// +infinity
    #[verifier::when_used_as_spec(spec_infinity)]
    pub fn infinity() -> (r: Scalar)
        ensures
            r == Scalar::spec_infinity(),
    {
        Scalar { bits: INFINITY_BITS }
    }

    fn abs_bits(self) -> (m: u64)
        ensures
            m == self.magnitude(),
    {
        if self.bits >= SIGN_BIT {
            self.bits - SIGN_BIT
        } else {
            self.bits
        }
    }

    /// Whether the pattern is a NaN.
    #[verifier::when_used_as_spec(spec_is_nan)]
    pub fn is_nan(self) -> (r: bool)
        ensures
            r == self.spec_is_nan(),
    {
        self.abs_bits() > INFINITY_BITS
    }

    /// The pattern with its sign bit flipped.
    #[verifier::when_used_as_spec(spec_neg)]
    pub fn neg(self) -> (r: Scalar)
        ensures
            r == self.spec_neg(),
    {
        if self.bits >= SIGN_BIT {
            Scalar { bits: self.bits - SIGN_BIT }
        } else {
            Scalar { bits: self.bits + SIGN_BIT }
        }
    }

    /// The pattern with its sign bit cleared.
    #[verifier::when_used_as_spec(spec_abs)]
    pub fn abs(self) -> (r: Scalar)
        ensures
            r == self.spec_abs(),
    {
        Scalar { bits: self.abs_bits() }
    }

    /// `self < other` as IEEE 754 defines it: false whenever a NaN takes part.
    #[verifier::when_used_as_spec(spec_lt)]
    pub fn lt(self, other: Scalar) -> (r: bool)
        ensures
            r == self.spec_lt(other),
    {
        let a = self.abs_bits();
        let b = other.abs_bits();
        if a > INFINITY_BITS || b > INFINITY_BITS {
            return false;
        }
        proof {
            lemma_size_order(a, b);
            lemma_size_zero(a);
            lemma_size_zero(b);
        }
        if self.bits >= SIGN_BIT {
            if other.bits >= SIGN_BIT {
                b < a
            } else {
                a != 0 || b != 0
            }
        } else {
            if other.bits >= SIGN_BIT {
                false
            } else {
                a < b
            }
        }
    }

    /// `self <= other` as IEEE 754 defines it: false whenever a NaN takes part.
    #[verifier::when_used_as_spec(spec_le)]
    pub fn le(self, other: Scalar) -> (r: bool)
        ensures
            r == self.spec_le(other),
    {
        let a = self.abs_bits();
        let b = other.abs_bits();
        if a > INFINITY_BITS || b > INFINITY_BITS {
            return false;
        }
        proof {
            lemma_size_order(a, b);
            lemma_size_zero(a);
            lemma_size_zero(b);
        }
        if self.bits >= SIGN_BIT {
            if other.bits >= SIGN_BIT {
                b <= a
            } else {
                true
            }
        } else {
            if other.bits >= SIGN_BIT {
                a == 0 && b == 0
            } else {
                a <= b
            }
        }
    }

    /// The whole part of the number times `2^k`, held to `0..=limit`: 0 for a NaN and for
    /// anything with the sign bit set, `limit` for anything too large, infinity included.
    /// This is what a saturating conversion of the product to an unsigned integer gives.
    #[verifier::when_used_as_spec(spec_quantize)]
    pub fn quantize(self, k: u8, limit: u32) -> (r: u32)
        ensures
            r == self.spec_quantize(k, limit),
    {
        if self.bits >= SIGN_BIT || self.bits > INFINITY_BITS {
            return 0;
        }
        let exponent = self.bits / HIDDEN_BIT;
        let fraction = self.bits % HIDDEN_BIT;
        let significand = if exponent == 0 {
            fraction
        } else {
            fraction + HIDDEN_BIT
        };
        let shift = if exponent == 0 {
            0
        } else {
            exponent - 1
        };
        let total = shift + k as u64;
        proof {
            lemma2_to64();
            assert(self.size() == significand * pow2(shift as nat));
            lemma_floor_scaled(significand as nat, shift as nat, k as nat);
        }
        if total >= UNIT_EXPONENT {
            proof {
                let p = pow2((total - UNIT_EXPONENT) as nat);
                lemma_pow2_pos((total - UNIT_EXPONENT) as nat);
                assert(significand * p >= HIDDEN_BIT) by (nonlinear_arith)
                    requires
                        significand >= HIDDEN_BIT,
                        p >= 1,
                ;
            }
            limit
        } else {
            let down = UNIT_EXPONENT - total;
            if down >= 64 {
                proof {
                    lemma2_to64_rest();
                    if down > 64 {
                        lemma_pow2_strictly_increases(64, down as nat);
                    }
                    lemma_basic_div(significand as int, pow2(down as nat) as int);
                }
                0
            } else {
                proof {
                    lemma_u64_shr_is_div(significand, down);
                }
                let whole = significand >> down;
                if whole >= limit as u64 {
                    limit
                } else {
                    whole as u32
                }
            }
        }
    }
}

/// Scaling a significand at a shift by `2^k` and dropping what lies below one whole: a
/// multiplication when the combined shift reaches the unit exponent, else a division.
proof fn lemma_floor_scaled(significand: nat, shift: nat, k: nat)
    ensures
        shift + k >= UNIT_EXPONENT ==> (significand * pow2(shift) * pow2(k)) / pow2(
            UNIT_EXPONENT as nat,
        ) == significand * pow2((shift + k - UNIT_EXPONENT) as nat),
        shift + k < UNIT_EXPONENT ==> (significand * pow2(shift) * pow2(k)) / pow2(
            UNIT_EXPONENT as nat,
        ) == significand / pow2((UNIT_EXPONENT - shift - k) as nat),
{
    let unit = pow2(UNIT_EXPONENT as nat);
    let total = pow2(shift + k);
    lemma_pow2_adds(shift, k);
    lemma_pow2_pos(UNIT_EXPONENT as nat);
    lemma_pow2_pos(shift + k);
    assert(significand * pow2(shift) * pow2(k) == significand * total) by (nonlinear_arith)
        requires
            total == pow2(shift) * pow2(k),
    ;
    if shift + k >= UNIT_EXPONENT {
        let up = pow2((shift + k - UNIT_EXPONENT) as nat);
        lemma_pow2_adds((shift + k - UNIT_EXPONENT) as nat, UNIT_EXPONENT as nat);
        assert(significand * total == (significand * up) * unit) by (nonlinear_arith)
            requires
                total == up * unit,
        ;
        lemma_div_by_multiple((significand * up) as int, unit as int);
    } else {
        let down = pow2((UNIT_EXPONENT - shift - k) as nat);
        lemma_pow2_adds(shift + k, (UNIT_EXPONENT - shift - k) as nat);
        lemma_pow2_pos((UNIT_EXPONENT - shift - k) as nat);
        lemma_div_multiples_vanish_quotient(total as int, significand as int, down as int);
        assert(significand * total == total * significand) by (nonlinear_arith);
    }
}

/// No number lies above +infinity or below -infinity, and every other number lies strictly
/// between them.
pub proof fn lemma_infinity_bounds(n: Scalar)
    ensures
        !n.is_nan() ==> n.units() <= Scalar::infinity().units(),
        !n.is_nan() ==> Scalar::infinity().neg().units() <= n.units(),
        !n.is_nan() && !n.is_infinite() ==> n.units() < Scalar::infinity().units(),
        !n.is_nan() && !n.is_infinite() ==> Scalar::infinity().neg().units() < n.units(),
        Scalar::infinity().neg().units() == -Scalar::infinity().units(),
        Scalar::infinity().units() > 0,
        !Scalar::infinity().is_nan(),
        !Scalar::infinity().neg().is_nan(),
{
    lemma_size_zero(INFINITY_BITS);
    if !n.is_nan() {
        lemma_size_order(n.magnitude(), INFINITY_BITS);
    }
}

/// The scale of the units: zero counts none, the smallest pattern above zero counts one,
/// and 1.0 counts 2^1074.
pub proof fn lemma_units_of_one()
    ensures
        Scalar::zero().units() == 0,
        (Scalar { bits: 1 }).units() == 1,
        Scalar::one().units() == pow2(UNIT_EXPONENT as nat),
{
    lemma2_to64_rest();
    lemma_pow2_adds(52, 1022);
    assert(ONE_BITS / HIDDEN_BIT == 1023 && ONE_BITS % HIDDEN_BIT == 0);
    assert(HIDDEN_BIT == pow2(52));
}

/// One is a number above zero.
pub proof fn lemma_one_is_positive()
    ensures
        Scalar::zero().lt(Scalar::one()),
        Scalar::zero().le(Scalar::one()),
        Scalar::zero().le(Scalar::zero()),
        Scalar::one().le(Scalar::one()),
{
    lemma_size_order(0, ONE_BITS);
}

/// Flipping the sign negates the number; clearing it gives the absolute value. Neither
/// makes or unmakes a NaN.
pub proof fn lemma_neg_abs(n: Scalar)
    ensures
        n.neg().units() == -n.units(),
        n.neg().is_nan() == n.is_nan(),
        n.neg().neg() == n,
        n.abs().units() == (if n.units() < 0 {
            -n.units()
        } else {
            n.units()
        }),
        n.abs().is_nan() == n.is_nan(),
{
}

/// Numbers are told apart by their units: two patterns that are no NaNs and stand for the
/// same number are the same pattern, or the two zeros.
pub proof fn lemma_units_tell_numbers_apart(a: Scalar, b: Scalar)
    requires
        !a.is_nan(),
        !b.is_nan(),
        a.units() == b.units(),
    ensures
        a == b || (a.magnitude() == 0 && b.magnitude() == 0),
{
    lemma_size_order(a.magnitude(), b.magnitude());
    lemma_size_zero(a.magnitude());
    lemma_size_zero(b.magnitude());
}

/// A larger number never gives a smaller whole part.
pub proof fn lemma_quantize_is_monotone(a: Scalar, b: Scalar, k: u8, limit: u32)
    requires
        a.le(b),
    ensures
        a.quantize(k, limit) <= b.quantize(k, limit),
{
    lemma_size_zero(a.magnitude());
    lemma_size_zero(b.magnitude());
    if !a.negative() && !b.negative() {
        let scale = pow2(k as nat);
        let unit = pow2(UNIT_EXPONENT as nat);
        lemma_pow2_pos(k as nat);
        lemma_pow2_pos(UNIT_EXPONENT as nat);
        assert(a.size() * scale <= b.size() * scale) by (nonlinear_arith)
            requires
                a.size() <= b.size(),
                scale > 0,
        ;
        lemma_div_is_ordered((a.size() * scale) as int, (b.size() * scale) as int, unit as int);
    } else if !a.negative() {
        assert(a.size() == 0);
        assert(0 * pow2(k as nat) == 0) by (nonlinear_arith);
        lemma_pow2_pos(UNIT_EXPONENT as nat);
        lemma_basic_div(0, pow2(UNIT_EXPONENT as nat) as int);
    }
}

/// Only the zero pattern has size zero.
pub proof fn lemma_size_zero(m: u64)
    requires
        m <= INFINITY_BITS,
    ensures
        magnitude_size(m) == 0 <==> m == 0,
{
    let exponent = m / HIDDEN_BIT;
    let fraction = m % HIDDEN_BIT;
    if exponent != 0 {
        let p = pow2((exponent - 1) as nat);
        lemma_pow2_pos((exponent - 1) as nat);
        assert((fraction + HIDDEN_BIT) * p > 0) by (nonlinear_arith)
            requires
                fraction + HIDDEN_BIT > 0,
                p > 0,
        ;
    }
}

/// Between patterns up to infinity, a larger pattern stands for a larger size.
proof fn lemma_size_increases(a: u64, b: u64)
    requires
        a < b,
        b <= INFINITY_BITS,
    ensures
        magnitude_size(a) < magnitude_size(b),
{
    let ea = a / HIDDEN_BIT;
    let fa = a % HIDDEN_BIT;
    let eb = b / HIDDEN_BIT;
    let fb = b % HIDDEN_BIT;
    assert(ea <= eb);
    assert(eb >= 1 ==> eb - 1 >= 0);
    if ea == eb {
        assert(fa < fb);
        if ea != 0 {
            let p = pow2((ea - 1) as nat);
            lemma_pow2_pos((ea - 1) as nat);
            assert((fa + HIDDEN_BIT) * p < (fb + HIDDEN_BIT) * p) by (nonlinear_arith)
                requires
                    fa < fb,
                    p > 0,
            ;
        }
    } else {
        let pb = pow2((eb - 1) as nat);
        lemma_pow2_pos((eb - 1) as nat);
        assert(HIDDEN_BIT * pb <= (fb + HIDDEN_BIT) * pb) by (nonlinear_arith)
            requires
                fb >= 0,
                pb > 0,
        ;
        if ea == 0 {
            assert(HIDDEN_BIT * 1 <= HIDDEN_BIT * pb) by (nonlinear_arith)
                requires
                    pb >= 1,
            ;
        } else {
            let pa = pow2((ea - 1) as nat);
            lemma_pow2_pos((ea - 1) as nat);
            lemma_pow2_unfold(ea as nat);
            if ea < eb - 1 {
                lemma_pow2_strictly_increases(ea as nat, (eb - 1) as nat);
            }
            assert(pow2(ea as nat) <= pb);
            assert((fa + HIDDEN_BIT) * pa < HIDDEN_BIT * pb) by (nonlinear_arith)
                requires
                    fa < HIDDEN_BIT,
                    pa > 0,
                    2 * pa <= pb,
            ;
        }
    }
}

/// Between patterns up to infinity, the order of the patterns is the order of the sizes.
pub proof fn lemma_size_order(a: u64, b: u64)
    requires
        a <= INFINITY_BITS,
        b <= INFINITY_BITS,
    ensures
        a < b <==> magnitude_size(a) < magnitude_size(b),
        a == b <==> magnitude_size(a) == magnitude_size(b),
{
    if a < b {
        lemma_size_increases(a, b);
    } else if b < a {
        lemma_size_increases(b, a);
    }
}

} // verus!
