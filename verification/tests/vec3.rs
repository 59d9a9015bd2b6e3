use raytracer::ray::Ray;
use raytracer::scalar::Scalar;
use raytracer::vec3::{Point3, Vec3};

fn s(x: f64) -> Scalar {
    Scalar::from_bits(x.to_bits())
}

fn f(x: Scalar) -> f64 {
    f64::from_bits(x.to_bits())
}

fn v(x: f64, y: f64, z: f64) -> Vec3 {
    Vec3::new(s(x), s(y), s(z))
}

#[test]
fn new_keeps_the_components_in_order() {
    let a = v(1.0, -2.0, 3.5);
    assert_eq!(f(a.x()), 1.0);
    assert_eq!(f(a.y()), -2.0);
    assert_eq!(f(a.z()), 3.5);
}

#[test]
fn fill_repeats_one_number() {
    assert_eq!(Vec3::fill(s(0.25)), v(0.25, 0.25, 0.25));
}

#[test]
fn the_default_vector_is_zero() {
    assert_eq!(Vec3::default(), v(0.0, 0.0, 0.0));
    let origin: Point3 = Point3::default();
    assert_eq!(f(origin.y()), 0.0);
}

#[test]
fn neg_flips_every_sign() {
    assert_eq!(v(1.0, -2.0, 0.0).neg(), v(-1.0, 2.0, -0.0));
    assert_eq!(v(1.0, -2.0, 0.0).neg().neg(), v(1.0, -2.0, 0.0));
}

#[test]
fn near_zero_needs_every_component_small() {
    assert!(v(0.0, 0.0, 0.0).near_zero());
    assert!(v(9.9e-9, -9.9e-9, 1e-300).near_zero());
    assert!(v(-0.0, 5e-324, -5e-324).near_zero());
    assert!(!v(1e-8, 0.0, 0.0).near_zero());
    assert!(!v(0.0, -1e-8, 0.0).near_zero());
    assert!(!v(0.0, 0.0, 1.0).near_zero());
    assert!(!v(f64::NAN, 0.0, 0.0).near_zero());
}

#[test]
fn near_zero_agrees_with_the_hardware() {
    let values: [f64; 8] =
        [0.0, 1e-9, -1e-9, 9.999999999999999e-9, 1e-8, -1e-8, 1.0000000000000002e-8, 0.5];
    for x in values {
        for y in values {
            for z in values {
                let expected = x.abs() < 1e-8 && y.abs() < 1e-8 && z.abs() < 1e-8;
                assert_eq!(v(x, y, z).near_zero(), expected);
            }
        }
    }
}

#[test]
fn the_unit_shell_is_open_below_and_closed_above() {
    assert!(Vec3::in_unit_shell(s(1.0)));
    assert!(Vec3::in_unit_shell(s(0.5)));
    assert!(Vec3::in_unit_shell(s(1.0000000000000001e-160)));
    assert!(!Vec3::in_unit_shell(s(1e-160)));
    assert!(!Vec3::in_unit_shell(s(0.0)));
    assert!(!Vec3::in_unit_shell(s(1.0000000000000002)));
    assert!(!Vec3::in_unit_shell(s(3.0)));
    assert!(!Vec3::in_unit_shell(s(f64::NAN)));
}

#[test]
fn the_unit_shell_agrees_with_the_hardware() {
    for q in [0.0, 1e-200, 9e-161, 1e-160, 1.1e-160, 1e-10, 0.3, 1.0, 1.5, 3.0, f64::INFINITY] {
        assert_eq!(Vec3::in_unit_shell(s(q)), 1e-160 < q && q <= 1.0, "{q}");
    }
}

#[test]
fn toward_keeps_a_vector_on_the_normals_side() {
    let a = v(0.6, 0.0, -0.8);
    assert_eq!(a.toward(s(0.3)), a);
    assert_eq!(a.toward(s(-0.3)), a.neg());
    assert_eq!(a.toward(s(0.0)), a.neg());
    assert_eq!(a.toward(s(f64::NAN)), a.neg());
}

#[test]
fn a_ray_keeps_origin_and_direction() {
    let r = Ray::new(v(1.0, 2.0, 3.0), v(0.0, 0.0, -2.0));
    assert_eq!(r.origin(), v(1.0, 2.0, 3.0));
    assert_eq!(r.direction(), v(0.0, 0.0, -2.0));
}
