use toycurve::modular;
use toycurve::point::Point;
use toycurve::toy;

fn toy_curve(a: i128, b: i128) -> toy::EllipticCurve {
    toy::EllipticCurve { a, b }
}

fn mod_curve(coeff_a: i128, coeff_b: i128, mod_p: i128) -> modular::EllipticCurve {
    modular::EllipticCurve {
        coeff_a,
        coeff_b,
        mod_p,
    }
}

#[test]
fn infinity_is_on_every_toy_curve() {
    assert!(toy_curve(2, 4).is_point_on_curve(&Point::Infinity));
    assert!(toy_curve(0, 0).is_point_on_curve(&Point::Infinity));
    assert!(toy_curve(-7, 11).is_point_on_curve(&Point::Infinity));
}

#[test]
fn infinity_is_on_every_modular_curve() {
    assert!(mod_curve(1, 2, 17).is_point_on_curve(&Point::Infinity));
    assert!(mod_curve(0, 5, 7).is_point_on_curve(&Point::Infinity));
}

#[test]
fn toy_membership_exact() {
    // 4^2 == 2^3 + 2*2 + 4, i.e. 16 == 8 + 4 + 4.
    let curve = toy_curve(2, 4);
    assert!(curve.is_point_on_curve(&Point::Affine { x: 2, y: 4 }));
    assert!(!curve.is_point_on_curve(&Point::Affine { x: 2, y: 5 }));
    assert!(!curve.is_point_on_curve(&Point::Affine { x: 3, y: 4 }));
}

#[test]
fn toy_membership_negative_coordinates() {
    // (-4)^2 == 16 as well: the mirrored point is also on the curve.
    let curve = toy_curve(2, 4);
    assert!(curve.is_point_on_curve(&Point::Affine { x: 2, y: -4 }));
    // x = -1, a = 0, b = 2: rhs == -1 + 0 + 2 == 1 == (±1)^2.
    let curve2 = toy_curve(0, 2);
    assert!(curve2.is_point_on_curve(&Point::Affine { x: -1, y: 1 }));
    assert!(curve2.is_point_on_curve(&Point::Affine { x: -1, y: -1 }));
    assert!(!curve2.is_point_on_curve(&Point::Affine { x: -1, y: 2 }));
}

#[test]
fn toy_membership_no_wraparound() {
    // Exact arithmetic: y^2 == rhs must hold over the integers, not
    // modulo anything. 5^2 == 25 != 8 + 4 + 4 even though 25 ≡ 16 mod 9.
    let curve = toy_curve(2, 4);
    assert!(!curve.is_point_on_curve(&Point::Affine { x: 2, y: 5 }));
}

#[test]
fn modular_generator_point() {
    // y^2 ≡ x^3 + x + 2 (mod 17) at x = 5: target is 132 mod 17 == 13.
    // Both 8 and 9 square to 13 mod 17; the scan from 0 must find 8.
    let curve = mod_curve(1, 2, 17);
    assert_eq!(modular::calculate_y(&curve, 5), 8);
    assert_eq!(modular::try_calculate_y(&curve, 5), Some(8));
    assert!(curve.is_point_on_curve(&Point::Affine { x: 5, y: 8 }));
    assert!(curve.is_point_on_curve(&Point::Affine { x: 5, y: 9 }));
    assert!(!curve.is_point_on_curve(&Point::Affine { x: 5, y: 10 }));
}

#[test]
fn modular_membership_negative_inputs() {
    // -12 ≡ 5 and -9 ≡ 8 (mod 17): reduction happens before comparing.
    let curve = mod_curve(1, 2, 17);
    assert!(curve.is_point_on_curve(&Point::Affine { x: -12, y: 8 }));
    assert!(curve.is_point_on_curve(&Point::Affine { x: 5, y: -9 }));
    assert_eq!(modular::calculate_y(&curve, -12), 8);
}

#[test]
fn modular_smallest_root_wins() {
    // At x = 1 the target is (1 + 1 + 2) mod 17 == 4; roots are 2 and
    // 15, and the scan must return the smaller one.
    let curve = mod_curve(1, 2, 17);
    assert_eq!(modular::calculate_y(&curve, 1), 2);
    assert_eq!(modular::try_calculate_y(&curve, 1), Some(2));
}

#[test]
fn non_residue_returns_sentinel() {
    // Mod 7 the squares are {0, 1, 2, 4}; with a = 0, b = 5, x = 0 the
    // target is 5, a non-residue, so the sentinel 0 comes back — and 0
    // is demonstrably not a root: (0, 0) is off the curve.
    let curve = mod_curve(0, 5, 7);
    assert_eq!(modular::calculate_y(&curve, 0), 0);
    assert_eq!(modular::try_calculate_y(&curve, 0), None);
    assert!(!curve.is_point_on_curve(&Point::Affine { x: 0, y: 0 }));
}

#[test]
fn genuine_zero_root_is_distinguishable() {
    // With a = 0, b = 0, x = 0 the target is 0 and y = 0 is a real
    // root: the optional variant says so, where the sentinel cannot.
    let curve = mod_curve(0, 0, 17);
    assert_eq!(modular::calculate_y(&curve, 0), 0);
    assert_eq!(modular::try_calculate_y(&curve, 0), Some(0));
    assert!(curve.is_point_on_curve(&Point::Affine { x: 0, y: 0 }));
}

#[test]
fn repeated_calls_agree() {
    // Pure functions of their inputs: identical inputs, identical outputs.
    let curve = mod_curve(1, 2, 17);
    assert_eq!(
        modular::calculate_y(&curve, 5),
        modular::calculate_y(&curve, 5)
    );
    assert_eq!(
        modular::try_calculate_y(&curve, 5),
        modular::try_calculate_y(&curve, 5)
    );
    let point = Point::Affine { x: 5, y: 8 };
    assert_eq!(
        curve.is_point_on_curve(&point),
        curve.is_point_on_curve(&point)
    );
    let toy = toy_curve(2, 4);
    let toy_point = Point::Affine { x: 2, y: 4 };
    assert_eq!(
        toy.is_point_on_curve(&toy_point),
        toy.is_point_on_curve(&toy_point)
    );
}

#[test]
fn derived_y_is_always_on_curve() {
    // Left inverse of membership: whenever the search succeeds, the
    // found coordinate passes the membership check.
    let curve = mod_curve(1, 2, 17);
    for x in -20..20 {
        if let Some(y) = modular::try_calculate_y(&curve, x) {
            assert!(curve.is_point_on_curve(&Point::Affine { x, y }));
        }
    }
}
