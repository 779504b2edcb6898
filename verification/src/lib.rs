//! Toy elliptic-curve arithmetic over short Weierstrass equations
//! `y^2 = x^3 + a*x + b`, in two flavours: exact integer arithmetic and
//! arithmetic modulo a caller-supplied prime. Membership of a point on a
//! curve is decided, and a y-coordinate for a given x is found by an
//! exhaustive (deliberately naive) search for a modular square root.

mod arith;
pub mod modular;
pub mod point;
pub mod toy;
