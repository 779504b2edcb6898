use vstd::arithmetic::div_mod::{
    lemma_fundamental_div_mod, lemma_fundamental_div_mod_converse_mod, lemma_mod_bound,
};
use vstd::prelude::*;

verus! {

/// Euclidean remainder: the unique representative of `a` modulo `p`
/// in the half-open range `[0, p)`.
///
/// Rust's `%` truncates towards zero, so for a negative left operand it
/// yields a value in `(-p, 0]`; one conditional shift by `p` lands in
/// `[0, p)`, which is the convention every contract of this crate uses.
pub(crate) fn emod(a: i128, p: i128) -> (r: i128)
    requires
        1 < p,
    ensures
        r == a as int % p as int,
        0 <= r < p,
{
    proof {
        lemma_mod_bound(a as int, p as int);
        lemma_mod_bound(-(a as int), p as int);
    }
    let r0: i128 = a % p;
    if r0 < 0 {
        proof {
            let q = (-(a as int)) / (p as int);
            let m = (-(a as int)) % (p as int);
            lemma_fundamental_div_mod(-(a as int), p as int);
            assert((-q - 1) * (p as int) == -((p as int) * q) - p) by (nonlinear_arith);
            lemma_fundamental_div_mod_converse_mod(a as int, p as int, -q - 1, p - m);
        }
        r0 + p
    } else {
        proof {
            if a < 0 {
                let q = (-(a as int)) / (p as int);
                lemma_fundamental_div_mod(-(a as int), p as int);
                assert((-q) * (p as int) == -((p as int) * q)) by (nonlinear_arith);
                lemma_fundamental_div_mod_converse_mod(a as int, p as int, -q, 0);
            }
        }
        r0
    }
}

} // verus!
