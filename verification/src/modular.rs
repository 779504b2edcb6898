use crate::arith::emod;
use crate::point::Point;
use vstd::arithmetic::div_mod::{
    lemma_add_mod_noop, lemma_add_mod_noop_right, lemma_mod_bound, lemma_mul_mod_noop_general,
};
use vstd::prelude::*;

verus! {

/// Largest modulus the modular variant accepts. With every residue in
/// `[0, p)` and `p` within this bound, a product of two residues stays
/// well inside `i128`.
pub const MODULUS_LIMIT: i128 = 0x8000_0000_0000_0000;

/// The right-hand side of the Weierstrass equation, `x^3 + a*x + b`,
/// over the unbounded integers.
pub open spec fn curve_rhs(a: int, b: int, x: int) -> int {
    x * x * x + a * x + b
}

/// The modular curve equation: both sides agree modulo `p`.
pub open spec fn on_curve_mod(a: int, b: int, p: int, x: int, y: int) -> bool {
    (y * y) % p == curve_rhs(a, b, x) % p
}

/// `t` squares to `target` modulo `p`.
pub open spec fn is_root(t: int, target: int, p: int) -> bool {
    (t * t) % p == target
}

/// Some `t` in `[0, p)` squares to `target` modulo `p`, i.e. `target`
/// is a quadratic residue.
pub open spec fn has_root(target: int, p: int) -> bool {
    exists|t: int| 0 <= t < p && is_root(t, target, p)
}

/// `t` is the smallest non-negative root of `target` modulo `p`: the
/// value a linear scan from `0` upward finds first.
pub open spec fn is_least_root(t: int, target: int, p: int) -> bool {
    &&& 0 <= t < p
    &&& is_root(t, target, p)
    &&& forall|s: int| 0 <= s < t ==> !is_root(s, target, p)
}

/// A Weierstrass curve `y^2 = x^3 + ax + b` over the field of integers
/// modulo `mod_p`. The caller is responsible for choosing `mod_p`
/// prime; the arithmetic here only needs `mod_p > 1`.
pub struct EllipticCurve {
    pub coeff_a: i128,
    pub coeff_b: i128,
    pub mod_p: i128,
}

impl EllipticCurve {
    /// A usable modulus: large enough to be a field order candidate,
    /// small enough that residue products cannot overflow.
    pub open spec fn wf(self) -> bool {
        1 < self.mod_p <= MODULUS_LIMIT
    }

    /// `(x^3 + a*x + b) mod p`: the value `y^2` must take modulo `p`
    /// for `(x, y)` to lie on the curve.
    pub open spec fn target(self, x: int) -> int {
        curve_rhs(self.coeff_a as int, self.coeff_b as int, x) % (self.mod_p as int)
    }

    /// What membership means for this curve: an affine point satisfies
    /// the equation modulo `p`; the point at infinity is on every curve
    /// by convention.
    pub open spec fn on_curve(self, point: Point) -> bool {
        match point {
            Point::Affine { x, y } => on_curve_mod(
                self.coeff_a as int,
                self.coeff_b as int,
                self.mod_p as int,
                x as int,
                y as int,
            ),
            Point::Infinity => true,
        }
    }

    /// Evaluates `(x^3 + a*x + b) mod p`, reducing after every step so
    /// that no intermediate product can overflow.
    fn rhs_mod(&self, x: i128) -> (r: i128)
        requires
            self.wf(),
        ensures
            r == self.target(x as int),
            0 <= r < self.mod_p,
    {
        let p = self.mod_p;
        let xr = emod(x, p);
        let ar = emod(self.coeff_a, p);
        let br = emod(self.coeff_b, p);
        proof {
            lemma_mul_fits(xr as int, xr as int, p as int);
            lemma_mod_bound(xr as int * xr as int, p as int);
            lemma_mul_mod_noop_general(x as int, x as int, p as int);
        }
        let x_squared: i128 = (xr * xr) % p;
        proof {
            lemma_mul_fits(x_squared as int, xr as int, p as int);
            lemma_mod_bound(x_squared as int * xr as int, p as int);
            lemma_mul_mod_noop_general(x as int * x as int, x as int, p as int);
        }
        let x_cubed: i128 = (x_squared * xr) % p;
        proof {
            lemma_mul_fits(ar as int, xr as int, p as int);
            lemma_mod_bound(ar as int * xr as int, p as int);
            lemma_mul_mod_noop_general(self.coeff_a as int, x as int, p as int);
        }
        let a_times_x: i128 = (ar * xr) % p;
        proof {
            let cube = x as int * x as int * x as int;
            let ax = self.coeff_a as int * x as int;
            let partial = x_cubed as int + a_times_x as int;
            lemma_mod_bound(partial + self.coeff_b as int % (p as int), p as int);
            lemma_add_mod_noop(cube, ax, p as int);
            lemma_add_mod_noop_right(partial, self.coeff_b as int, p as int);
            lemma_add_mod_noop(partial, self.coeff_b as int, p as int);
            lemma_add_mod_noop(cube + ax, self.coeff_b as int, p as int);
        }
        (x_cubed + a_times_x + br) % p
    }

    /// Decides whether `point` lies on the curve, comparing `y^2` and
    /// `x^3 + a*x + b` after reduction modulo `p`. Any `i128`
    /// coordinates are accepted, negative ones included: each is first
    /// mapped to its representative in `[0, p)`.
    pub fn is_point_on_curve(&self, point: &Point) -> (r: bool)
        requires
            self.wf(),
        ensures
            r == self.on_curve(*point),
            *point is Infinity ==> r,
    {
        match *point {
            Point::Affine { x, y } => {
                let p = self.mod_p;
                let yr = emod(y, p);
                proof {
                    lemma_mul_fits(yr as int, yr as int, p as int);
                    lemma_mod_bound(yr as int * yr as int, p as int);
                    lemma_mul_mod_noop_general(y as int, y as int, p as int);
                }
                let y_squared: i128 = (yr * yr) % p;
                let rhs = self.rhs_mod(x);
                y_squared == rhs
            },
            Point::Infinity => true,
        }
    }
}

/// Finds the y-coordinate the curve equation assigns to `x`, if any:
/// the smallest `t` in `[0, p)` with `t^2 ≡ x^3 + a*x + b (mod p)`,
/// found by a deliberately naive linear scan from `0` upward (O(p)
/// modular multiplications, intended for toy-sized moduli only).
/// Returns `None` when the target value is not a quadratic residue, so
/// a genuine root `0` and "no root" stay distinguishable.
pub fn try_calculate_y(curve: &EllipticCurve, x: i128) -> (r: Option<i128>)
    requires
        curve.wf(),
    ensures
        (match r {
            Some(t) => is_least_root(t as int, curve.target(x as int), curve.mod_p as int),
            None => !has_root(curve.target(x as int), curve.mod_p as int),
        }),
{
    let p = curve.mod_p;
    let target = curve.rhs_mod(x);
    let mut t: i128 = 0;
    while t < p
        invariant
            curve.wf(),
            p == curve.mod_p,
            0 <= t <= p,
            target == curve.target(x as int),
            forall|s: int| 0 <= s < t ==> !is_root(s, target as int, p as int),
        decreases p - t,
    {
        proof {
            lemma_mul_fits(t as int, t as int, p as int);
            lemma_mod_bound(t as int * t as int, p as int);
        }
        if (t * t) % p == target {
            return Some(t);
        }
        t = t + 1;
    }
    None
}

/// Finds the y-coordinate the curve equation assigns to `x`: the
/// smallest `t` in `[0, p)` with `t^2 ≡ x^3 + a*x + b (mod p)`, found
/// by the same linear scan as `try_calculate_y`. When no `t` in the
/// range qualifies, returns the sentinel `0` — which is also a
/// legitimate root whenever the target residue is `0`, so callers that
/// must tell the two apart should use `try_calculate_y` or re-check
/// with `is_point_on_curve`.
pub fn calculate_y(curve: &EllipticCurve, x: i128) -> (y: i128)
    requires
        curve.wf(),
    ensures
        has_root(curve.target(x as int), curve.mod_p as int) ==> is_least_root(
            y as int,
            curve.target(x as int),
            curve.mod_p as int,
        ),
        !has_root(curve.target(x as int), curve.mod_p as int) ==> y == 0,
{
    match try_calculate_y(curve, x) {
        Some(t) => {
            proof {
                let tt = t as int;
                let pp = curve.mod_p as int;
                let tg = curve.target(x as int);
                assert(0 <= tt < pp && is_root(tt, tg, pp));
                assert(has_root(tg, pp));
            }
            t
        },
        None => 0,
    }
}

/// A successful y-coordinate derivation really is a left inverse of the
/// membership check: any root of `t^2 ≡ x^3 + a*x + b (mod p)` — in
/// particular the one `calculate_y` or `try_calculate_y` finds for `x`
/// — makes `(x, t)` a point on the curve.
pub proof fn lemma_root_is_on_curve(curve: EllipticCurve, x: int, t: int)
    requires
        curve.wf(),
        is_root(t, curve.target(x), curve.mod_p as int),
    ensures
        on_curve_mod(curve.coeff_a as int, curve.coeff_b as int, curve.mod_p as int, x, t),
{
}

/// The y-coordinate derivation is deterministic: the least-root
/// characterisation in `try_calculate_y`'s contract admits exactly one
/// value, so identical inputs always yield identical outputs.
pub proof fn lemma_least_root_unique(t1: int, t2: int, target: int, p: int)
    requires
        is_least_root(t1, target, p),
        is_least_root(t2, target, p),
    ensures
        t1 == t2,
{
    if t1 < t2 {
        assert(is_root(t1, target, p));
        assert(false);
    }
    if t2 < t1 {
        assert(is_root(t2, target, p));
        assert(false);
    }
}

/// For residues `u, v` in `[0, p)` with `p` within `MODULUS_LIMIT`,
/// the product `u * v` fits comfortably in `i128`.
proof fn lemma_mul_fits(u: int, v: int, p: int) by (nonlinear_arith)
    requires
        0 <= u < p,
        0 <= v < p,
        p <= 0x8000_0000_0000_0000,
    ensures
        0 <= u * v < 0x4000_0000_0000_0000_0000_0000_0000_0000,
{
}

} // verus!
