use ironvein::shared::{Coord, Position, TargetDestination};

fn coord(value: f32) -> Coord {
    Coord { bits: value.to_bits() }
}

fn values() -> Vec<f32> {
    vec![
        0.0, -0.0, 1.0, -1.0, 0.01, -0.01, 0.0100001, 0.0099999, 1e-40, 400.5, f32::MAX, f32::MIN,
        f32::INFINITY, f32::NEG_INFINITY, f32::NAN, -f32::NAN,
    ]
}

#[test]
fn coordinates_are_equal_as_numbers_are() {
    for a in values() {
        for b in values() {
            assert_eq!(coord(a) == coord(b), a == b, "{a} {b}");
        }
    }
}

#[test]
fn positions_are_equal_if_both_coordinates_are() {
    let at = |x: f32, y: f32| Position { x: coord(x), y: coord(y) };
    assert!(at(0.0, 1.0) == at(-0.0, 1.0));
    assert!(at(0.0, 1.0) != at(0.0, 2.0));
    assert!(at(3.0, 1.0) != at(0.0, 1.0));
    assert!(at(f32::NAN, 1.0) != at(f32::NAN, 1.0));
    assert!(TargetDestination(at(1.0, 2.0)) == TargetDestination(at(1.0, 2.0)));
    assert!(TargetDestination(at(1.0, 2.0)) != TargetDestination(at(2.0, 1.0)));
}

#[test]
fn far_means_more_than_a_hundredth() {
    for a in values() {
        assert_eq!(coord(a).is_far(), a.abs() > 0.01, "{a}");
    }
    let hundredth = 0.01f32.to_bits();
    assert!(!Coord { bits: hundredth }.is_far());
    assert!(Coord { bits: hundredth + 1 }.is_far());
}

#[test]
fn finite_means_finite() {
    for a in values() {
        assert_eq!(coord(a).is_finite(), a.is_finite(), "{a}");
        if a.is_finite() {
            assert_eq!((a - a).to_bits(), 0, "{a}");
        }
    }
}

#[test]
fn negation_changes_the_sign() {
    for a in values() {
        assert_eq!(coord(a).negate().bits, (-a).to_bits(), "{a}");
        assert_eq!(coord(a).negate().negate().bits, a.to_bits(), "{a}");
    }
}
