//! Three numbers: a direction, a point or a colour.
use crate::scalar::Scalar;
use vstd::prelude::*;

verus! {

/// The pattern of 1e-8: below this size a component counts as zero.
pub const NEAR_ZERO_BITS: u64 = 0x3e45_798e_e230_8c3a;

/// The pattern of 1e-160: a squared length at or below it is too small to divide by.
pub const SHELL_FLOOR_BITS: u64 = 0x1eb6_7e9c_127b_6e74;

/// Three numbers. `==` compares their patterns.
#[derive(Clone, Copy, Debug, PartialEq, Eq, Structural)]
pub struct Vec3 {
    pub x: Scalar,
    pub y: Scalar,
    pub z: Scalar,
}

/// A place in space.
pub type Point3 = Vec3;

impl Vec3 {
    /// The vector with each component's sign flipped.
    pub open spec fn spec_neg(self) -> Vec3 {
        Vec3 { x: self.x.neg(), y: self.y.neg(), z: self.z.neg() }
    }

    /// Whether every component is smaller than 1e-8 in absolute value.
    pub open spec fn spec_near_zero(&self) -> bool {
        let s = Scalar { bits: NEAR_ZERO_BITS };
        self.x.abs().lt(s) && self.y.abs().lt(s) && self.z.abs().lt(s)
    }

    /// Whether a squared length lies in (1e-160, 1]: the vector lies in the unit ball and is
    /// long enough to be scaled to length one.
    pub open spec fn spec_in_unit_shell(length_squared: Scalar) -> bool {
        Scalar { bits: SHELL_FLOOR_BITS }.lt(length_squared) && length_squared.le(Scalar::one())
    }

    /// `self` where `facing` is positive, else its negation.
    pub open spec fn spec_toward(self, facing: Scalar) -> Vec3 {
        if Scalar::zero().lt(facing) {
            self
        } else {
            self.spec_neg()
        }
    }

    /// The vector with the given components.
    pub fn new(x: Scalar, y: Scalar, z: Scalar) -> (r: Vec3)
        ensures
            r.x == x,
            r.y == y,
            r.z == z,
    {
        Vec3 { x, y, z }
    }

    /// The vector whose components are all `n`.
    pub fn fill(n: Scalar) -> (r: Vec3)
        ensures
            r == (Vec3 { x: n, y: n, z: n }),
    {
        Vec3 { x: n, y: n, z: n }
    }

    /// The first component.
    pub fn x(&self) -> (r: Scalar)
        ensures
            r == self.x,
    {
        self.x
    }

    /// The second component.
    pub fn y(&self) -> (r: Scalar)
        ensures
            r == self.y,
    {
        self.y
    }

    /// The third component.
    pub fn z(&self) -> (r: Scalar)
        ensures
            r == self.z,
    {
        self.z
    }

    /// The vector with each component's sign flipped.
    #[verifier::when_used_as_spec(spec_neg)]
    pub fn neg(self) -> (r: Vec3)
        ensures
            r == self.spec_neg(),
    {
        Vec3 { x: self.x.neg(), y: self.y.neg(), z: self.z.neg() }
    }

    /// Whether every component is smaller than 1e-8 in absolute value.
    #[verifier::when_used_as_spec(spec_near_zero)]
    pub fn near_zero(&self) -> (r: bool)
        ensures
            r == self.spec_near_zero(),
    {
        let s = Scalar::from_bits(NEAR_ZERO_BITS);
        self.x.abs().lt(s) && self.y.abs().lt(s) && self.z.abs().lt(s)
    }

    /// The test of rejection sampling in the unit ball: a candidate drawn from the cube is
    /// kept when its squared length passes.
    #[verifier::when_used_as_spec(spec_in_unit_shell)]
    pub fn in_unit_shell(length_squared: Scalar) -> (r: bool)
        ensures
            r == Vec3::spec_in_unit_shell(length_squared),
    {
        Scalar::from_bits(SHELL_FLOOR_BITS).lt(length_squared) && length_squared.le(Scalar::one())
    }

    /// Turns a vector into the hemisphere of a normal, given `facing`, its dot product with
    /// that normal: kept where `facing` is positive, else negated.
    #[verifier::when_used_as_spec(spec_toward)]
    pub fn toward(self, facing: Scalar) -> (r: Vec3)
        ensures
            r == self.spec_toward(facing),
    {
        if Scalar::zero().lt(facing) {
            self
        } else {
            self.neg()
        }
    }
}

impl Default for Vec3 {
    /// The zero vector.
    fn default() -> (r: Vec3)
        ensures
            r == (Vec3 { x: Scalar::zero(), y: Scalar::zero(), z: Scalar::zero() }),
    {
        Vec3 { x: Scalar::zero(), y: Scalar::zero(), z: Scalar::zero() }
    }
}

} // verus!
