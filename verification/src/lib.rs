//! The decisions of a path tracer, verified.
//!
//! Numbers are binary64 values held as bit patterns ([`scalar::Scalar`]). What a ray tracer
//! decides is here: which root of a sphere's quadratic counts as the hit, which surface of
//! a scene is nearest, which way a normal is turned, whether a material scatters or absorbs,
//! when a path ends, and how a pixel is written. The rounding arithmetic between those
//! decisions is the caller's: it computes sums, products and roots and hands the results in.
pub mod camera;
pub mod color;
pub mod hit;
pub mod interval;
pub mod material;
pub mod path;
pub mod ray;
pub mod scalar;
pub mod shape;
pub mod vec3;
