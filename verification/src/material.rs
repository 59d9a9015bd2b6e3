//! What a surface does to a ray that hits it.
//!
//! A material either scatters the ray, giving the colour by which the light that comes back
//! along the new ray is multiplied, or absorbs it. The directions that a material chooses
//! between are computed by the caller from the incoming ray, the hit and its random draws;
//! the choice is made here.
use crate::color::{within_unit, Color};
use crate::hit::HitRecord;
use crate::ray::Ray;
use crate::scalar::Scalar;
use crate::vec3::Vec3;
use vstd::prelude::*;

verus! {

/// A diffuse surface.
#[derive(Clone, Copy, Debug, PartialEq, Eq, Structural)]
pub struct Lambertian {
    pub albedo: Color,
}

/// A mirror, blurred by `fuzz`.
#[derive(Clone, Copy, Debug, PartialEq, Eq, Structural)]
pub struct Metal {
    pub albedo: Color,
    pub fuzz: Scalar,
}

/// Clear glass.
#[derive(Clone, Copy, Debug, PartialEq, Eq, Structural)]
pub struct Dielectric {
    pub refraction_index: Scalar,
}

/// What a surface is made of. A material is made once and never changed; every hit on
/// its surface carries a copy.
#[derive(Clone, Copy, Debug, PartialEq, Eq, Structural)]
pub enum Material {
    Lambertian(Lambertian),
    Metal(Metal),
    Dielectric(Dielectric),
}

/// What the arithmetic of refraction yields for one hit on glass.
#[derive(Clone, Copy, Debug, PartialEq, Eq, Structural)]
pub struct Bend {
    /// The ratio of the refraction indices times the sine of the angle of incidence.
    /// Above one, Snell's law has no solution.
    pub sine_ratio: Scalar,
    /// The share of light that is reflected at this angle.
    pub reflectance: Scalar,
    /// A uniform draw from [0, 1).
    pub draw: Scalar,
    /// The direction of the mirrored ray.
    pub reflected: Vec3,
    /// The direction of the refracted ray.
    pub refracted: Vec3,
}

impl Lambertian {
    /// The direction `candidate`, or the normal where the candidate is too near zero to
    /// be one.
    pub open spec fn direction(rec: &HitRecord, candidate: Vec3) -> Vec3 {
        if candidate.near_zero() {
            rec.normal
        } else {
            candidate
        }
    }

    /// Scatters along `candidate`, the sum of the hit's normal and a random unit vector.
    /// Where the two cancel to almost nothing the ray leaves along the normal. Never absorbs.
    pub open spec fn spec_scatter(&self, rec: &HitRecord, candidate: Vec3) -> Option<
        (Color, Ray),
    > {
        Some(
            (
                self.albedo,
                Ray { origin: rec.point, direction: Lambertian::direction(rec, candidate) },
            ),
        )
    }

    /// A diffuse surface of the given colour.
    pub fn new(albedo: Color) -> (r: Lambertian)
        ensures
            r.albedo == albedo,
    {
        Lambertian { albedo }
    }

    /// Scatters along the mirrored or the refracted direction, and takes nothing from the
    /// light. Never absorbs.
    #[verifier::when_used_as_spec(spec_scatter)]
    pub fn scatter(&self, rec: &HitRecord, candidate: Vec3) -> (r: Option<(Color, Ray)>)
        ensures
            r == self.spec_scatter(rec, candidate),
    {
        let direction = if candidate.near_zero() {
            rec.normal
        } else {
            candidate
        };
        Some((self.albedo, Ray::new(rec.point, direction)))
    }
}

impl Metal {
    /// `fuzz` held to [0, 1]: 0 below it, 1 above it and for a NaN.
    pub open spec fn spec_limit(fuzz: Scalar) -> Scalar {
        if fuzz.lt(Scalar::zero()) {
            Scalar::zero()
        } else if fuzz.lt(Scalar::one()) {
            fuzz
        } else {
            Scalar::one()
        }
    }

    /// Scatters along `candidate`, the mirrored direction plus the fuzz, unless that points
    /// into the surface: `facing` is the candidate's dot product with the hit's normal, and
    /// the ray is absorbed unless it is positive.
    pub open spec fn spec_scatter(&self, rec: &HitRecord, candidate: Vec3, facing: Scalar)
        -> Option<(Color, Ray)> {
        if Scalar::zero().lt(facing) {
            Some((self.albedo, Ray { origin: rec.point, direction: candidate }))
        } else {
            None
        }
    }

    /// The fuzz lies in [0, 1].
    pub open spec fn wf(&self) -> bool {
        Scalar::zero().le(self.fuzz) && self.fuzz.le(Scalar::one())
    }

    /// A mirror of the given colour. The fuzz is held to [0, 1]: 0 is a clear mirror.
    pub fn new(albedo: Color, fuzz: Scalar) -> (r: Metal)
        ensures
            r.albedo == albedo,
            r.fuzz == Metal::spec_limit(fuzz),
            r.wf(),
    {
        let fuzz = if fuzz.lt(Scalar::zero()) {
            Scalar::zero()
        } else if fuzz.lt(Scalar::one()) {
            fuzz
        } else {
            Scalar::one()
        };
        proof {
            crate::scalar::lemma_one_is_positive();
        }
        Metal { albedo, fuzz }
    }

    /// Scatters along the mirrored or the refracted direction, and takes nothing from the
    /// light. Never absorbs.
    #[verifier::when_used_as_spec(spec_scatter)]
    pub fn scatter(&self, rec: &HitRecord, candidate: Vec3, facing: Scalar) -> (r: Option<
        (Color, Ray),
    >)
        ensures
            r == self.spec_scatter(rec, candidate, facing),
    {
        if Scalar::zero().lt(facing) {
            Some((self.albedo, Ray::new(rec.point, candidate)))
        } else {
            None
        }
    }
}

impl Dielectric {
    /// The ratio of the index on the ray's side to the index beyond the surface: `inverse`
    /// for a ray that enters the glass from outside, the index itself for one that leaves.
    pub open spec fn spec_ratio(&self, front_facing: bool, inverse: Scalar) -> Scalar {
        if front_facing {
            inverse
        } else {
            self.refraction_index
        }
    }

    /// Whether the ray is mirrored: always when Snell's law has no solution, else when the
    /// draw falls below the reflectance.
    pub open spec fn spec_reflects(bend: &Bend) -> bool {
        Scalar::one().lt(bend.sine_ratio) || bend.draw.lt(bend.reflectance)
    }

    /// Scatters along the mirrored or the refracted direction, and takes nothing from the
    /// light. Never absorbs.
    pub open spec fn spec_scatter(&self, rec: &HitRecord, bend: &Bend) -> Option<(Color, Ray)> {
        Some(
            (
                Vec3 { x: Scalar::one(), y: Scalar::one(), z: Scalar::one() },
                Ray {
                    origin: rec.point,
                    direction: if Dielectric::reflects(bend) {
                        bend.reflected
                    } else {
                        bend.refracted
                    },
                },
            ),
        )
    }

    /// Glass with the given refraction index, more exactly the ratio of its index to that
    /// of what surrounds it.
    pub fn new(refraction_index: Scalar) -> (r: Dielectric)
        ensures
            r.refraction_index == refraction_index,
    {
        Dielectric { refraction_index }
    }

    /// `inverse` is one over the refraction index.
    #[verifier::when_used_as_spec(spec_ratio)]
    pub fn ratio(&self, front_facing: bool, inverse: Scalar) -> (r: Scalar)
        ensures
            r == self.spec_ratio(front_facing, inverse),
    {
        if front_facing {
            inverse
        } else {
            self.refraction_index
        }
    }

    /// Whether the ray is mirrored: always when Snell's law has no solution, else when the
    /// draw falls below the reflectance.
    #[verifier::when_used_as_spec(spec_reflects)]
    pub fn reflects(bend: &Bend) -> (r: bool)
        ensures
            r == Dielectric::spec_reflects(bend),
    {
        Scalar::one().lt(bend.sine_ratio) || bend.draw.lt(bend.reflectance)
    }

    /// Scatters along the mirrored or the refracted direction, and takes nothing from the
    /// light. Never absorbs.
    #[verifier::when_used_as_spec(spec_scatter)]
    pub fn scatter(&self, rec: &HitRecord, bend: &Bend) -> (r: Option<(Color, Ray)>)
        ensures
            r == self.spec_scatter(rec, bend),
    {
        let direction = if Dielectric::reflects(bend) {
            bend.reflected
        } else {
            bend.refracted
        };
        Some((Color::fill(Scalar::one()), Ray::new(rec.point, direction)))
    }
}

impl Material {
    /// The colour by which a scattered ray's light is multiplied: the albedo, or white for
    /// glass.
    pub open spec fn spec_attenuation(&self) -> Color {
        match *self {
            Material::Lambertian(m) => m.albedo,
            Material::Metal(m) => m.albedo,
            Material::Dielectric(_) => Vec3 {
                x: Scalar::one(),
                y: Scalar::one(),
                z: Scalar::one(),
            },
        }
    }

    /// The albedo's channels lie in [0, 1]. Glass has no albedo.
    pub open spec fn bounded(&self) -> bool {
        match *self {
            Material::Lambertian(m) => within_unit(m.albedo),
            Material::Metal(m) => within_unit(m.albedo),
            Material::Dielectric(_) => true,
        }
    }

    /// The colour by which a scattered ray's light is multiplied: the albedo, or white for
    /// glass.
    #[verifier::when_used_as_spec(spec_attenuation)]
    pub fn attenuation(&self) -> (r: Color)
        ensures
            r == self.spec_attenuation(),
    {
        match self {
            Material::Lambertian(m) => m.albedo,
            Material::Metal(m) => m.albedo,
            Material::Dielectric(_) => Color::fill(Scalar::one()),
        }
    }
}

/// No material adds light: where the albedo's channels lie in [0, 1], so do the channels
/// of the attenuation of every scattered ray, whatever was hit and whatever was drawn.
pub proof fn lemma_attenuation_within_unit(
    material: Material,
    rec: &HitRecord,
    candidate: Vec3,
    facing: Scalar,
    bend: &Bend,
)
    requires
        material.bounded(),
    ensures
        within_unit(material.attenuation()),
        material matches Material::Lambertian(m) ==> (m.scatter(rec, candidate) matches Some(
            (attenuation, _),
        ) && attenuation == material.attenuation()),
        material matches Material::Metal(m) ==> (m.scatter(rec, candidate, facing) matches Some(
            (attenuation, _),
        ) ==> attenuation == material.attenuation()),
        material matches Material::Dielectric(m) ==> (m.scatter(rec, bend) matches Some(
            (attenuation, _),
        ) && attenuation == material.attenuation()),
{
    crate::scalar::lemma_one_is_positive();
}

} // verus!
