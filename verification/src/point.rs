use vstd::prelude::*;

verus! {

/// An affine point of a Weierstrass curve, or the point at infinity.
///
/// The point at infinity is the curve's identity element; it carries no
/// coordinates, so it is a variant of its own rather than a pair of
/// optional fields, which rules out a half-present coordinate pair.
#[derive(Clone, Copy, Debug, PartialEq, Eq, Structural)]
pub enum Point {
    Affine { x: i128, y: i128 },
    Infinity,
}

impl Point {
    /// Both coordinates of an affine point, within the given magnitude.
    pub open spec fn bounded(self, limit: int) -> bool {
        match self {
            Point::Affine { x, y } => -limit <= x <= limit && -limit <= y <= limit,
            Point::Infinity => true,
        }
    }
}

} // verus!
