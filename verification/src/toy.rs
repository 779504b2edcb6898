use crate::point::Point;
use vstd::prelude::*;

verus! {

/// Largest coordinate / coefficient magnitude the exact-integer variant
/// accepts. With all four operands within this bound, `x^3 + a*x + b`
/// and `y^2` stay well inside `i128`.
pub const COORD_LIMIT: i128 = 0x100_0000_0000;

/// The exact Weierstrass equation `y^2 == x^3 + a*x + b`, over the
/// unbounded integers: no modular wraparound of any kind.
pub open spec fn on_curve_exact(a: int, b: int, x: int, y: int) -> bool {
    y * y == x * x * x + a * x + b
}

/// A Weierstrass curve `y^2 = x^3 + a*x + b` over the integers, with no
/// modulus: the equation must hold exactly.
pub struct EllipticCurve {
    pub a: i128,
    pub b: i128,
}

impl EllipticCurve {
    /// Coefficients small enough for overflow-free evaluation.
    pub open spec fn wf(self) -> bool {
        &&& -COORD_LIMIT <= self.a <= COORD_LIMIT
        &&& -COORD_LIMIT <= self.b <= COORD_LIMIT
    }

    /// What membership means for this curve: an affine point satisfies
    /// the equation exactly; the point at infinity is on every curve by
    /// convention.
    pub open spec fn on_curve(self, point: Point) -> bool {
        match point {
            Point::Affine { x, y } => on_curve_exact(
                self.a as int,
                self.b as int,
                x as int,
                y as int,
            ),
            Point::Infinity => true,
        }
    }

    /// Decides whether `point` lies on the curve, by evaluating both
    /// sides of the equation over exact integer arithmetic.
    pub fn is_point_on_curve(&self, point: &Point) -> (r: bool)
        requires
            self.wf(),
            point.bounded(COORD_LIMIT as int),
        ensures
            r == self.on_curve(*point),
            *point is Infinity ==> r,
    {
        match *point {
            Point::Affine { x, y } => {
                proof {
                    lemma_product_bound(x as int, x as int, COORD_LIMIT as int);
                    lemma_cube_bound(x as int, COORD_LIMIT as int);
                    lemma_product_bound(y as int, y as int, COORD_LIMIT as int);
                    lemma_product_bound(self.a as int, x as int, COORD_LIMIT as int);
                }
                let x_squared: i128 = x * x;
                let x_cubed: i128 = x_squared * x;
                let y_squared: i128 = y * y;
                let a_times_x: i128 = self.a * x;
                y_squared == x_cubed + a_times_x + self.b
            },
            Point::Infinity => true,
        }
    }
}

/// For factors of magnitude at most `l`, the product has magnitude at
/// most `l * l`.
proof fn lemma_product_bound(u: int, v: int, l: int) by (nonlinear_arith)
    requires
        0 <= l,
        -l <= u <= l,
        -l <= v <= l,
    ensures
        -(l * l) <= u * v <= l * l,
{
}

/// For `x` of magnitude at most `l`, the cube has magnitude at most
/// `l * l * l`.
proof fn lemma_cube_bound(x: int, l: int) by (nonlinear_arith)
    requires
        0 <= l,
        -l <= x <= l,
    ensures
        -(l * l * l) <= x * x * x <= l * l * l,
{
}

} // verus!
