//! Spheres, and the choice among the two points where a ray's line meets one.
use crate::interval::Interval;
use crate::material::Material;
use crate::scalar::Scalar;
use crate::vec3::Point3;
use vstd::prelude::*;

verus! {

/// A sphere and what it is made of.
#[derive(Clone, Copy, Debug, PartialEq, Eq, Structural)]
pub struct Sphere {
    pub center: Point3,
    pub radius: Scalar,
    pub material: Material,
}

/// What the quadratic of a ray and a sphere yields. With `a` the direction's squared
/// length, `h` the direction's dot product with the way from the origin to the centre and
/// `d` the discriminant, `near` is `(h - sqrt(d)) / a` and `far` is `(h + sqrt(d)) / a`.
#[derive(Clone, Copy, Debug, PartialEq, Eq, Structural)]
pub struct Roots {
    pub discriminant: Scalar,
    pub near: Scalar,
    pub far: Scalar,
}

impl Sphere {
    /// `radius` where it is positive, else zero: for a negative one and for a NaN too.
    pub open spec fn spec_limit(radius: Scalar) -> Scalar {
        if Scalar::zero().lt(radius) {
            radius
        } else {
            Scalar::zero()
        }
    }

    /// The radius is a number, and not below zero.
    pub open spec fn wf(&self) -> bool {
        Scalar::zero().le(self.radius)
    }

    /// A sphere around `center`. A radius below zero, or one that is no number, becomes
    /// zero.
    pub fn new(center: Point3, radius: Scalar, material: Material) -> (r: Sphere)
        ensures
            r.center == center,
            r.radius == Sphere::spec_limit(radius),
            r.material == material,
            r.wf(),
    {
        let radius = if Scalar::zero().lt(radius) {
            radius
        } else {
            Scalar::zero()
        };
        Sphere { center, radius, material }
    }
}

impl Roots {
    /// The ray's parameter at the hit. There is none where the discriminant is negative.
    /// Else it is the near root where `range` surrounds that, else the far root where
    /// `range` surrounds that, else there is none.
    pub open spec fn spec_hit(&self, range: Interval) -> Option<Scalar> {
        if self.discriminant.lt(Scalar::zero()) {
            None
        } else if range.surrounds(self.near) {
            Some(self.near)
        } else if range.surrounds(self.far) {
            Some(self.far)
        } else {
            None
        }
    }

    /// The far root is not below the near one.
    pub open spec fn ordered(&self) -> bool {
        !self.far.lt(self.near)
    }

    /// The roots as computed.
    pub fn new(discriminant: Scalar, near: Scalar, far: Scalar) -> (r: Roots)
        ensures
            r.discriminant == discriminant,
            r.near == near,
            r.far == far,
    {
        Roots { discriminant, near, far }
    }

    /// The hit of a sphere within `range`, both ends excluded, so that a ray that starts on
    /// a surface does not hit that surface at once.
    #[verifier::when_used_as_spec(spec_hit)]
    pub fn hit(&self, range: Interval) -> (r: Option<Scalar>)
        ensures
            r == self.spec_hit(range),
            r matches Some(t) ==> range.surrounds(t),
    {
        if self.discriminant.lt(Scalar::zero()) {
            None
        } else if range.surrounds(self.near) {
            Some(self.near)
        } else if range.surrounds(self.far) {
            Some(self.far)
        } else {
            None
        }
    }
}

} // verus!
