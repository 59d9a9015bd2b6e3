use raytracer::color::{write_color, write_image};
use raytracer::hit::{HitList, HitRecord, Hittable};
use raytracer::interval::Interval;
use raytracer::material::{Lambertian, Material};
use raytracer::path::{Event, Path};
use raytracer::scalar::Scalar;
use raytracer::shape::{Roots, Sphere};
use raytracer::vec3::Vec3;

fn s(x: f64) -> Scalar {
    Scalar::from_bits(x.to_bits())
}

fn f(x: Scalar) -> f64 {
    f64::from_bits(x.to_bits())
}

fn v(p: [f64; 3]) -> Vec3 {
    Vec3::new(s(p[0]), s(p[1]), s(p[2]))
}

fn a(p: Vec3) -> [f64; 3] {
    [f(p.x()), f(p.y()), f(p.z())]
}

fn dot(a: [f64; 3], b: [f64; 3]) -> f64 {
    a[0] * b[0] + a[1] * b[1] + a[2] * b[2]
}

fn add(a: [f64; 3], b: [f64; 3]) -> [f64; 3] {
    [a[0] + b[0], a[1] + b[1], a[2] + b[2]]
}

fn scale(a: [f64; 3], k: f64) -> [f64; 3] {
    [a[0] * k, a[1] * k, a[2] * k]
}

fn roots_of(sphere: &Sphere, origin: [f64; 3], direction: [f64; 3]) -> Roots {
    let oc = add(a(sphere.center), scale(origin, -1.0));
    let radius = f(sphere.radius);
    let q = dot(direction, direction);
    let h = dot(direction, oc);
    let discriminant = h * h - q * (dot(oc, oc) - radius * radius);
    let sqrtd = discriminant.sqrt();
    Roots::new(s(discriminant), s((h - sqrtd) / q), s((h + sqrtd) / q))
}

fn trace(world: &HitList, origin: [f64; 3], direction: [f64; 3]) -> Option<HitRecord> {
    let spheres = world.flatten();
    let roots: Vec<Roots> = spheres.iter().map(|x| roots_of(x, origin, direction)).collect();
    let hit = world.hit(&roots, Path::trace_range())?;
    let sphere = spheres[hit.index];
    let point = add(origin, scale(direction, f(hit.t)));
    let outward = scale(add(point, scale(a(sphere.center), -1.0)), 1.0 / f(sphere.radius));
    let mut rec = HitRecord::new(v(point), hit.t, sphere.material);
    rec.set_face_normal(s(dot(direction, outward)), v(outward));
    Some(rec)
}

fn background(direction: [f64; 3]) -> [f64; 3] {
    let unit_y = direction[1] / dot(direction, direction).sqrt();
    let t = 0.5 * (unit_y + 1.0);
    add(scale([1.0, 1.0, 1.0], 1.0 - t), scale([0.5, 0.7, 1.0], t))
}

fn radiance(world: &HitList, max_depth: i32, origin: [f64; 3], direction: [f64; 3]) -> [f64; 3] {
    let mut path = Path::start(max_depth);
    let mut light = [1.0, 1.0, 1.0];
    let mut origin = origin;
    let mut direction = direction;
    while path.is_tracing() {
        let event = match trace(world, origin, direction) {
            None => Event::Missed,
            Some(rec) => match rec.material {
                Material::Lambertian(m) => {
                    let candidate = add(a(rec.normal), [0.0, 0.6, 0.8]);
                    match m.scatter(&rec, v(candidate)) {
                        Some((attenuation, ray)) => {
                            let k = a(attenuation);
                            light = [light[0] * k[0], light[1] * k[1], light[2] * k[2]];
                            origin = a(ray.origin());
                            direction = a(ray.direction());
                            Event::Scattered
                        }
                        None => Event::Absorbed,
                    }
                }
                _ => Event::Absorbed,
            },
        };
        path = path.step(event);
    }
    let sky = background(direction);
    let escaped = [light[0] * sky[0], light[1] * sky[1], light[2] * sky[2]];
    a(path.finish(v(escaped)).unwrap())
}

fn shade(world: &HitList, origin: [f64; 3], direction: [f64; 3]) -> [f64; 3] {
    match trace(world, origin, direction) {
        Some(rec) => scale(add([1.0, 1.0, 1.0], a(rec.normal)), 0.5),
        None => background(direction),
    }
}

fn scene() -> HitList {
    let grey = Material::Lambertian(Lambertian::new(v([0.5, 0.5, 0.5])));
    let mut world = HitList::new();
    world.add(Hittable::Sphere(Sphere::new(v([0.0, 0.0, -1.0]), s(0.5), grey)));
    world.add(Hittable::Sphere(Sphere::new(v([0.0, -100.5, -1.0]), s(100.0), grey)));
    world
}

fn pixel_directions() -> Vec<[f64; 3]> {
    // A camera at the origin that looks along -z at a viewport two wide and two high, one
    // away: the centres of the pixels of a grid of two by two, row by row from the top.
    vec![[-0.5, 0.5, -1.0], [0.5, 0.5, -1.0], [-0.5, -0.5, -1.0], [0.5, -0.5, -1.0]]
}

fn byte(x: f64) -> u8 {
    (x.clamp(0.0, 0.999) * 256.0) as u8
}

fn line(c: [f64; 3]) -> Vec<u8> {
    format!("{} {} {}\n", byte(c[0]), byte(c[1]), byte(c[2])).into_bytes()
}

#[test]
fn two_by_two_at_depth_one_is_background_or_black() {
    let world = scene();
    let mut hits = 0;
    for d in pixel_directions() {
        let color = radiance(&world, 1, [0.0; 3], d);
        let mut out = Vec::new();
        write_color(&mut out, v(color));
        match trace(&world, [0.0; 3], d) {
            None => assert_eq!(out, line(background(d))),
            Some(_) => {
                hits += 1;
                assert_eq!(out, b"0 0 0\n".to_vec())
            }
        }
    }
    assert_eq!(hits, 2);
}

#[test]
fn two_by_two_shaded_by_the_normal_is_background_or_half_the_normal_plus_one() {
    let world = scene();
    let intensity = Interval::new(s(0.0), s(0.999));
    for d in pixel_directions() {
        let color = shade(&world, [0.0; 3], d);
        for c in color {
            assert!(f(intensity.clamp(s(c))) <= 0.999);
            assert!(f(intensity.clamp(s(c))) >= 0.0);
        }
        let mut out = Vec::new();
        write_color(&mut out, v(color));
        match trace(&world, [0.0; 3], d) {
            None => assert_eq!(out, line(background(d))),
            Some(rec) => {
                assert_eq!(rec.material, Material::Lambertian(Lambertian::new(v([0.5; 3]))));
                assert!(dot(d, a(rec.normal)) <= 0.0);
                assert_eq!(out, line(scale(add([1.0; 3], a(rec.normal)), 0.5)));
            }
        }
    }
}

#[test]
fn the_top_row_sees_the_sky_and_the_bottom_row_the_ground() {
    let world = scene();
    let colors: Vec<Vec3> =
        pixel_directions().into_iter().map(|d| v(shade(&world, [0.0; 3], d))).collect();
    let mut out = Vec::new();
    write_image(&mut out, 2, 2, &colors);
    let text = String::from_utf8(out).unwrap();
    let lines: Vec<&str> = text.lines().collect();
    assert_eq!(lines.len(), 7);
    assert_eq!(&lines[..3], &["P3", "2 2", "255"]);
    assert_eq!(lines[3], "165 201 255");
    assert_eq!(lines[4], "165 201 255");
    assert_eq!(lines[5], "127 255 127");
    assert_eq!(lines[6], "128 255 127");
    assert!(text.ends_with('\n'));
}

#[test]
fn a_deeper_path_gathers_the_sky_through_the_bounces() {
    let world = scene();
    let d = [0.5, -0.5, -1.0];
    let deep = radiance(&world, 50, [0.0; 3], d);
    assert!(deep.iter().all(|c| 0.0 < *c && *c <= 0.5));
    assert_eq!(radiance(&world, 0, [0.0; 3], d), [0.0; 3]);
    assert_eq!(radiance(&world, 0, [0.0; 3], [0.0, 1.0, 0.0]), [0.0; 3]);
    assert_eq!(radiance(&world, -1, [0.0; 3], [0.0, 1.0, 0.0]), [0.0; 3]);
    assert_eq!(radiance(&world, 1, [0.0; 3], [0.0, 1.0, 0.0]), background([0.0, 1.0, 0.0]));
}

#[test]
fn an_image_is_its_header_and_its_pixels_in_order() {
    let pixels = vec![v([1.0, 0.0, 0.0]), v([0.0, 1.0, 0.0]), v([0.0, 0.0, 1.0])];
    let mut out = Vec::new();
    write_image(&mut out, 3, 1, &pixels);
    assert_eq!(out, b"P3\n3 1\n255\n255 0 0\n0 255 0\n0 0 255\n".to_vec());
    let mut out = Vec::new();
    write_image(&mut out, 0, 0, &Vec::new());
    assert_eq!(out, b"P3\n0 0\n255\n".to_vec());
}
