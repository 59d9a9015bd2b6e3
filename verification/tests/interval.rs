use raytracer::interval::Interval;
use raytracer::scalar::Scalar;

fn s(x: f64) -> Scalar {
    Scalar::from_bits(x.to_bits())
}

fn f(x: Scalar) -> f64 {
    f64::from_bits(x.to_bits())
}

fn numbers() -> Vec<f64> {
    vec![
        f64::NEG_INFINITY,
        -7.0,
        -0.001,
        -0.0,
        0.0,
        0.001,
        0.5,
        0.999,
        1.0,
        42.0,
        f64::INFINITY,
        f64::NAN,
    ]
}

#[test]
fn new_keeps_both_ends() {
    let i = Interval::new(s(0.001), s(f64::INFINITY));
    assert_eq!(f(i.min()), 0.001);
    assert_eq!(f(i.max()), f64::INFINITY);
}

#[test]
fn contains_includes_both_ends() {
    let i = Interval::new(s(1.0), s(3.0));
    assert!(i.contains(s(1.0)));
    assert!(i.contains(s(2.0)));
    assert!(i.contains(s(3.0)));
    assert!(!i.contains(s(0.999)));
    assert!(!i.contains(s(3.0000000000000004)));
    assert!(!i.contains(s(f64::NAN)));
}

#[test]
fn surrounds_excludes_both_ends() {
    let i = Interval::new(s(1.0), s(3.0));
    assert!(!i.surrounds(s(1.0)));
    assert!(i.surrounds(s(1.0000000000000002)));
    assert!(i.surrounds(s(2.0)));
    assert!(!i.surrounds(s(3.0)));
    assert!(!i.surrounds(s(f64::NAN)));
}

#[test]
fn contains_and_surrounds_agree_with_the_hardware() {
    for lo in numbers() {
        for hi in numbers() {
            let i = Interval::new(s(lo), s(hi));
            for n in numbers() {
                assert_eq!(i.contains(s(n)), lo <= n && n <= hi);
                assert_eq!(i.surrounds(s(n)), lo < n && n < hi);
            }
        }
    }
}

#[test]
fn clamp_moves_to_the_nearer_end() {
    let i = Interval::new(s(0.0), s(0.999));
    assert_eq!(f(i.clamp(s(-2.0))), 0.0);
    assert_eq!(f(i.clamp(s(0.25))), 0.25);
    assert_eq!(f(i.clamp(s(0.999))), 0.999);
    assert_eq!(f(i.clamp(s(1.0))), 0.999);
    assert_eq!(f(i.clamp(s(f64::INFINITY))), 0.999);
    assert!(f(i.clamp(s(f64::NAN))).is_nan());
}

#[test]
fn clamp_agrees_with_the_hardware() {
    for lo in numbers() {
        for hi in numbers() {
            let i = Interval::new(s(lo), s(hi));
            for n in numbers() {
                let expected = if n < lo {
                    lo
                } else if n > hi {
                    hi
                } else {
                    n
                };
                assert_eq!(i.clamp(s(n)).to_bits(), expected.to_bits());
            }
        }
    }
}

#[test]
fn clamped_numbers_lie_within_a_proper_range() {
    let i = Interval::new(s(-1.5), s(2.5));
    for n in numbers() {
        if !n.is_nan() {
            assert!(i.contains(i.clamp(s(n))));
        }
    }
}

#[test]
fn the_default_interval_is_empty() {
    let i = Interval::default();
    assert_eq!(f(i.min()), f64::INFINITY);
    assert_eq!(f(i.max()), f64::NEG_INFINITY);
    assert_eq!(i, Interval::empty());
    for n in numbers() {
        assert!(!i.contains(s(n)));
        assert!(!i.surrounds(s(n)));
    }
}

#[test]
fn the_universe_contains_every_number() {
    let i = Interval::universe();
    assert_eq!(f(i.min()), f64::NEG_INFINITY);
    assert_eq!(f(i.max()), f64::INFINITY);
    for n in numbers() {
        assert_eq!(i.contains(s(n)), !n.is_nan());
        assert_eq!(i.surrounds(s(n)), n.is_finite());
    }
}
