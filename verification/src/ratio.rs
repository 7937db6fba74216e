//! Exact rational values, kept as integer numerator/denominator pairs.
//!
//! The kernel returns a rational wherever the classical floating-point
//! formulation would divide or take a square root: a nearest point is an
//! integer vector over a common positive denominator, and a squared
//! separation distance is a ratio of two integers.  Comparisons are done by
//! cross-multiplication, which is exact as long as every denominator is
//! positive.

use vstd::prelude::*;

use crate::vec3::Vec3;

verus! {

/// A rational scalar `num / den`; every function producing one ensures
/// `den > 0`.
#[derive(Clone, Copy, Debug, PartialEq, Eq, Structural)]
pub struct Ratio {
    pub num: i128,
    pub den: i128,
}

/// A rational point: the integer vector `num` scaled by `1 / den`; every
/// function producing one ensures `den > 0`.
#[derive(Clone, Copy, Debug, PartialEq, Eq, Structural)]
pub struct RatPoint {
    pub num: Vec3,
    pub den: i128,
}

/// `a <= b` for rationals given as (numerator, denominator) pairs with
/// positive denominators.
pub open spec fn rat_le(a: (int, int), b: (int, int)) -> bool {
    a.0 * b.1 <= b.0 * a.1
}

/// `a == b` as rational values, by cross-multiplication.
pub open spec fn rat_eq(a: (int, int), b: (int, int)) -> bool {
    a.0 * b.1 == b.0 * a.1
}

/// The scaled point `num / den` is exactly the integer point `p`.
pub open spec fn sp_rat_is_point(num: (int, int, int), den: int, p: (int, int, int)) -> bool {
    &&& num.0 == den * p.0
    &&& num.1 == den * p.1
    &&& num.2 == den * p.2
}

/// Transitivity of the cross-multiplied order, for positive denominators.
pub proof fn lemma_rat_le_trans(a: (int, int), b: (int, int), c: (int, int))
    requires
        a.1 > 0,
        b.1 > 0,
        c.1 > 0,
        rat_le(a, b),
        rat_le(b, c),
    ensures
        rat_le(a, c),
{
    assert(a.0 * c.1 <= c.0 * a.1) by (nonlinear_arith)
        requires
            a.1 > 0,
            b.1 > 0,
            c.1 > 0,
            a.0 * b.1 <= b.0 * a.1,
            b.0 * c.1 <= c.0 * b.1,
    ;
}

/// A rational equal to `a` inherits every upper bound of `a`.
pub proof fn lemma_rat_eq_le(a: (int, int), b: (int, int), c: (int, int))
    requires
        a.1 > 0,
        b.1 > 0,
        c.1 > 0,
        rat_eq(a, b),
        rat_le(a, c),
    ensures
        rat_le(b, c),
{
    assert(b.0 * c.1 <= c.0 * b.1) by (nonlinear_arith)
        requires
            a.1 > 0,
            b.1 > 0,
            c.1 > 0,
            a.0 * b.1 == b.0 * a.1,
            a.0 * c.1 <= c.0 * a.1,
    ;
}

/// Antisymmetry of the cross-multiplied order: two rationals below each
/// other are equal as rationals.
pub proof fn lemma_rat_le_antisym(a: (int, int), b: (int, int))
    requires
        rat_le(a, b),
        rat_le(b, a),
    ensures
        rat_eq(a, b),
{
}

} // verus!
