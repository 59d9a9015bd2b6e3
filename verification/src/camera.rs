//! The pixel grid of a camera, and where its rays start.
use crate::scalar::Scalar;
use crate::vec3::Point3;
use vstd::prelude::*;

verus! {

/// The most pixels a row can have.
pub const WIDTH_MAX: u32 = 0x7fff_ffff;

/// The height of an image in pixels: the height asked for, but at least 1.
pub open spec fn spec_image_height(requested: i32) -> i32 {
    if requested < 1 {
        1
    } else {
        requested
    }
}

/// The height of an image in pixels: the height asked for, but at least 1.
#[verifier::when_used_as_spec(spec_image_height)]
pub fn image_height(requested: i32) -> (r: i32)
    ensures
        r == spec_image_height(requested),
        r >= 1,
{
    if requested < 1 {
        1
    } else {
        requested
    }
}

/// The width of an image in pixels, given `scaled_height`, its height times the aspect
/// ratio: the whole part of that, but at least 1 and at most `i32::MAX`. A NaN gives 1.
pub open spec fn spec_image_width(scaled_height: Scalar) -> i32 {
    if scaled_height.quantize(0, WIDTH_MAX) < 1 {
        1
    } else {
        scaled_height.quantize(0, WIDTH_MAX) as i32
    }
}

/// The width of an image in pixels, given `scaled_height`, its height times the aspect
/// ratio: the whole part of that, but at least 1 and at most `i32::MAX`. A NaN gives 1.
#[verifier::when_used_as_spec(spec_image_width)]
pub fn image_width(scaled_height: Scalar) -> (r: i32)
    ensures
        r == spec_image_width(scaled_height),
        r >= 1,
{
    let whole = scaled_height.quantize(0, WIDTH_MAX);
    if whole < 1 {
        1
    } else {
        whole as i32
    }
}

/// Whether a point drawn from the square around the lens lies on the lens: its squared
/// distance from the lens's centre, in lens radii, is below one.
pub open spec fn spec_in_unit_disk(length_squared: Scalar) -> bool {
    length_squared.lt(Scalar::one())
}

/// Whether a point drawn from the square around the lens lies on the lens: its squared
/// distance from the lens's centre, in lens radii, is below one.
#[verifier::when_used_as_spec(spec_in_unit_disk)]
pub fn in_unit_disk(length_squared: Scalar) -> (r: bool)
    ensures
        r == spec_in_unit_disk(length_squared),
{
    length_squared.lt(Scalar::one())
}

/// Where a camera ray starts: at the camera's centre, or with a lens, which is to say with
/// a defocus angle above zero, at `lens_point`, a point drawn from the lens's disk.
pub open spec fn spec_ray_origin(defocus_angle: Scalar, center: Point3, lens_point: Point3)
    -> Point3 {
    if Scalar::zero().lt(defocus_angle) {
        lens_point
    } else {
        center
    }
}

/// Where a camera ray starts: at the camera's centre, or with a lens, which is to say with
/// a defocus angle above zero, at `lens_point`, a point drawn from the lens's disk.
#[verifier::when_used_as_spec(spec_ray_origin)]
pub fn ray_origin(defocus_angle: Scalar, center: Point3, lens_point: Point3) -> (r: Point3)
    ensures
        r == spec_ray_origin(defocus_angle, center, lens_point),
{
    if Scalar::zero().lt(defocus_angle) {
        lens_point
    } else {
        center
    }
}

} // verus!
