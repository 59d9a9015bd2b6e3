use raytracer::camera::{image_height, image_width, in_unit_disk, ray_origin};
use raytracer::scalar::Scalar;
use raytracer::vec3::Vec3;

fn s(x: f64) -> Scalar {
    Scalar::from_bits(x.to_bits())
}

fn expected_width(image_height: i32, aspect_ratio: f64) -> i32 {
    (image_height as f64 * aspect_ratio).max(1.0) as i32
}

#[test]
fn width_of_a_wide_image() {
    assert_eq!(image_width(s(2160.0 * (16.0 / 9.0))), 3840);
    assert_eq!(image_width(s(225.0 * (16.0 / 9.0))), 400);
}

#[test]
fn width_drops_the_fraction() {
    assert_eq!(image_width(s(100.0 * 1.333)), 133);
    assert_eq!(image_width(s(1.9999)), 1);
    assert_eq!(image_width(s(2.0)), 2);
}

#[test]
fn width_is_at_least_one() {
    assert_eq!(image_width(s(0.4)), 1);
    assert_eq!(image_width(s(0.0)), 1);
    assert_eq!(image_width(s(-0.0)), 1);
    assert_eq!(image_width(s(-300.0)), 1);
    assert_eq!(image_width(s(f64::NEG_INFINITY)), 1);
    assert_eq!(image_width(s(f64::NAN)), 1);
}

#[test]
fn width_is_at_most_the_largest_integer() {
    assert_eq!(image_width(s(2147483646.5)), 2147483646);
    assert_eq!(image_width(s(2147483647.0)), 2147483647);
    assert_eq!(image_width(s(2147483648.0)), 2147483647);
    assert_eq!(image_width(s(1e300)), 2147483647);
    assert_eq!(image_width(s(f64::INFINITY)), 2147483647);
}

#[test]
fn width_agrees_with_the_hardware() {
    for h in [-3, 0, 1, 2, 9, 100, 225, 1080, 2160, 1 << 20, i32::MAX] {
        for a in [0.0, 0.001, 0.5, 1.0, 4.0 / 3.0, 16.0 / 9.0, 2.35, 1e6, -1.0, f64::NAN] {
            assert_eq!(image_width(s(h as f64 * a)), expected_width(h, a), "{h} {a}");
        }
    }
}

#[test]
fn rays_start_at_the_centre_without_a_lens() {
    let center = Vec3::new(s(13.0), s(2.0), s(3.0));
    let lens = Vec3::new(s(13.01), s(2.02), s(3.0));
    assert_eq!(ray_origin(s(0.0), center, lens), center);
    assert_eq!(ray_origin(s(-1.0), center, lens), center);
    assert_eq!(ray_origin(s(f64::NAN), center, lens), center);
}

#[test]
fn rays_start_on_the_lens_with_one() {
    let center = Vec3::new(s(13.0), s(2.0), s(3.0));
    let lens = Vec3::new(s(13.01), s(2.02), s(3.0));
    assert_eq!(ray_origin(s(0.75), center, lens), lens);
    assert_eq!(ray_origin(s(5e-324), center, lens), lens);
}

#[test]
fn height_is_at_least_one() {
    assert_eq!(image_height(2160), 2160);
    assert_eq!(image_height(1), 1);
    assert_eq!(image_height(0), 1);
    assert_eq!(image_height(-7), 1);
    assert_eq!(image_height(i32::MIN), 1);
    assert_eq!(image_height(i32::MAX), i32::MAX);
}

#[test]
fn the_lens_is_the_open_unit_disk() {
    assert!(in_unit_disk(s(0.0)));
    assert!(in_unit_disk(s(0.9999999999999999)));
    assert!(!in_unit_disk(s(1.0)));
    assert!(!in_unit_disk(s(2.0)));
    assert!(!in_unit_disk(s(f64::NAN)));
}
