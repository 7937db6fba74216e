use vstd::prelude::*;

verus! {

/// Largest absolute value allowed for a coordinate of a stored point or edge
/// vector.  Keeping stored coordinates within this limit guarantees that
/// every intermediate product the kernel forms — up to the cross-multiplied
/// comparison of two squared separations in the pairwise distance query —
/// fits in `i128`.
pub const COORD_LIMIT: i128 = 1024;

/// Largest absolute value allowed for a coordinate of a projection axis.
/// The cross product of two vectors within `COORD_LIMIT` stays within this
/// bound, so every axis the kernel projects onto satisfies it.
pub const AXIS_LIMIT: i128 = 2097152;

/// A 3D vector (or point) with exact integer coordinates.
#[derive(Clone, Copy, Debug, PartialEq, Eq, Structural)]
pub struct Vec3 {
    pub x: i128,
    pub y: i128,
    pub z: i128,
}

impl View for Vec3 {
    type V = (int, int, int);

    open spec fn view(&self) -> (int, int, int) {
        (self.x as int, self.y as int, self.z as int)
    }
}

/// All three coordinates lie within `[-b, b]`.
pub open spec fn in_range(v: (int, int, int), b: int) -> bool {
    &&& -b <= v.0 <= b
    &&& -b <= v.1 <= b
    &&& -b <= v.2 <= b
}

pub open spec fn sp_abs(x: int) -> int {
    if x < 0 {
        -x
    } else {
        x
    }
}

pub open spec fn sp_dot(a: (int, int, int), b: (int, int, int)) -> int {
    a.0 * b.0 + a.1 * b.1 + a.2 * b.2
}

pub open spec fn sp_cross(a: (int, int, int), b: (int, int, int)) -> (int, int, int) {
    (a.1 * b.2 - a.2 * b.1, a.2 * b.0 - a.0 * b.2, a.0 * b.1 - a.1 * b.0)
}

pub open spec fn sp_sub(a: (int, int, int), b: (int, int, int)) -> (int, int, int) {
    (a.0 - b.0, a.1 - b.1, a.2 - b.2)
}

pub open spec fn sp_add(a: (int, int, int), b: (int, int, int)) -> (int, int, int) {
    (a.0 + b.0, a.1 + b.1, a.2 + b.2)
}

pub open spec fn sp_neg(a: (int, int, int)) -> (int, int, int) {
    (-a.0, -a.1, -a.2)
}

/// `v` kept as it is for a nonnegative sign, negated for a negative one.
pub open spec fn sp_flip(s: int, v: (int, int, int)) -> (int, int, int) {
    if s >= 0 {
        v
    } else {
        sp_neg(v)
    }
}

/// A product of values within `[-xb, xb]` and `[-yb, yb]` lies within
/// `[-xb * yb, xb * yb]`.
pub proof fn lemma_mul_bound(x: int, y: int, xb: int, yb: int)
    by (nonlinear_arith)
    requires
        0 <= xb,
        0 <= yb,
        -xb <= x <= xb,
        -yb <= y <= yb,
    ensures
        -(xb * yb) <= x * y <= xb * yb,
{
}

/// A dot product of vectors within `[-ab, ab]` and `[-bb, bb]` lies within
/// `[-3 * ab * bb, 3 * ab * bb]`.
pub proof fn lemma_dot_bound(a: (int, int, int), b: (int, int, int), ab: int, bb: int)
    requires
        0 <= ab,
        0 <= bb,
        in_range(a, ab),
        in_range(b, bb),
    ensures
        -3 * (ab * bb) <= sp_dot(a, b) <= 3 * (ab * bb),
{
    lemma_mul_bound(a.0, b.0, ab, bb);
    lemma_mul_bound(a.1, b.1, ab, bb);
    lemma_mul_bound(a.2, b.2, ab, bb);
}

/// A vector's dot product with itself is never negative.
pub proof fn lemma_dot_self_nonneg(a: (int, int, int))
    ensures
        sp_dot(a, a) >= 0,
{
    assert(a.0 * a.0 >= 0) by (nonlinear_arith);
    assert(a.1 * a.1 >= 0) by (nonlinear_arith);
    assert(a.2 * a.2 >= 0) by (nonlinear_arith);
}

/// A nonzero vector's dot product with itself is strictly positive.
pub proof fn lemma_dot_self_pos(a: (int, int, int))
    requires
        a != ((0int, 0int, 0int)),
    ensures
        sp_dot(a, a) > 0,
{
    assert(a.0 != 0 ==> a.0 * a.0 > 0) by (nonlinear_arith);
    assert(a.1 != 0 ==> a.1 * a.1 > 0) by (nonlinear_arith);
    assert(a.2 != 0 ==> a.2 * a.2 > 0) by (nonlinear_arith);
    lemma_dot_self_nonneg(a);
}

/// The dot product is symmetric in its arguments.
pub proof fn lemma_dot_comm(a: (int, int, int), b: (int, int, int))
    by (nonlinear_arith)
    ensures
        sp_dot(a, b) == sp_dot(b, a),
{
}

/// Negating one argument negates the dot product.
pub proof fn lemma_dot_neg_left(a: (int, int, int), b: (int, int, int))
    by (nonlinear_arith)
    ensures
        sp_dot(sp_neg(a), b) == -sp_dot(a, b),
{
}

/// `x` kept as it is for a nonnegative sign, negated for a negative one.
pub open spec fn sp_sflip(s: int, x: int) -> int {
    if s >= 0 {
        x
    } else {
        -x
    }
}

/// The dot product distributes over vector addition on the right.
pub proof fn lemma_dot_add_right(x: (int, int, int), a: (int, int, int), b: (int, int, int))
    ensures
        sp_dot(x, sp_add(a, b)) == sp_dot(x, a) + sp_dot(x, b),
{
    assert(x.0 * (a.0 + b.0) == x.0 * a.0 + x.0 * b.0 && x.1 * (a.1 + b.1) == x.1 * a.1 + x.1
        * b.1 && x.2 * (a.2 + b.2) == x.2 * a.2 + x.2 * b.2) by (nonlinear_arith);
}

/// Negating the right argument negates the dot product.
pub proof fn lemma_dot_neg_right(x: (int, int, int), a: (int, int, int))
    ensures
        sp_dot(x, sp_neg(a)) == -sp_dot(x, a),
{
    assert(x.0 * (-a.0) == -(x.0 * a.0) && x.1 * (-a.1) == -(x.1 * a.1) && x.2 * (-a.2) == -(x.2
        * a.2)) by (nonlinear_arith);
}

/// Dot product of a vector with a signed sum of three others: the signs
/// move out onto the three dot products.
pub proof fn lemma_dot_signed_sum(
    e: (int, int, int),
    su: int,
    a: (int, int, int),
    sv: int,
    b: (int, int, int),
    sw: int,
    c: (int, int, int),
)
    ensures
        sp_dot(e, sp_add(sp_flip(su, a), sp_add(sp_flip(sv, b), sp_flip(sw, c)))) == sp_sflip(
            su,
            sp_dot(e, a),
        ) + sp_sflip(sv, sp_dot(e, b)) + sp_sflip(sw, sp_dot(e, c)),
{
    lemma_dot_add_right(e, sp_flip(su, a), sp_add(sp_flip(sv, b), sp_flip(sw, c)));
    lemma_dot_add_right(e, sp_flip(sv, b), sp_flip(sw, c));
    if su < 0 {
        lemma_dot_neg_right(e, a);
    }
    if sv < 0 {
        lemma_dot_neg_right(e, b);
    }
    if sw < 0 {
        lemma_dot_neg_right(e, c);
    }
}

/// Auxiliary: a factor moves across a product.
proof fn lemma_mul_rearrange(x: int, a: int, b: int)
    ensures
        x * (a * b) == a * (x * b),
{
    vstd::arithmetic::mul::lemma_mul_is_associative(x, a, b);
    vstd::arithmetic::mul::lemma_mul_is_commutative(x, a);
    vstd::arithmetic::mul::lemma_mul_is_associative(a, x, b);
}

/// Auxiliary: multiplication distributes over a three-term sum.
proof fn lemma_mul_distrib3(x: int, p: int, q: int, r: int)
    ensures
        x * (p + q + r) == x * p + x * q + x * r,
{
    vstd::arithmetic::mul::lemma_mul_is_distributive_add(x, p + q, r);
    vstd::arithmetic::mul::lemma_mul_is_distributive_add(x, p, q);
}

/// A vector identity `aa * u + bb * v + cc * w == dd * d` survives taking
/// the dot product with any vector `e`.
pub proof fn lemma_dot_linear_combo(
    e: (int, int, int),
    u: (int, int, int),
    v: (int, int, int),
    w: (int, int, int),
    d: (int, int, int),
    aa: int,
    bb: int,
    cc: int,
    dd: int,
)
    requires
        aa * u.0 + bb * v.0 + cc * w.0 == dd * d.0,
        aa * u.1 + bb * v.1 + cc * w.1 == dd * d.1,
        aa * u.2 + bb * v.2 + cc * w.2 == dd * d.2,
    ensures
        aa * sp_dot(e, u) + bb * sp_dot(e, v) + cc * sp_dot(e, w) == dd * sp_dot(e, d),
{
    assert(e.0 * (aa * u.0 + bb * v.0 + cc * w.0) == e.0 * (dd * d.0));
    assert(e.1 * (aa * u.1 + bb * v.1 + cc * w.1) == e.1 * (dd * d.1));
    assert(e.2 * (aa * u.2 + bb * v.2 + cc * w.2) == e.2 * (dd * d.2));
    lemma_mul_distrib3(e.0, aa * u.0, bb * v.0, cc * w.0);
    lemma_mul_distrib3(e.1, aa * u.1, bb * v.1, cc * w.1);
    lemma_mul_distrib3(e.2, aa * u.2, bb * v.2, cc * w.2);
    lemma_mul_rearrange(e.0, aa, u.0);
    lemma_mul_rearrange(e.0, bb, v.0);
    lemma_mul_rearrange(e.0, cc, w.0);
    lemma_mul_rearrange(e.1, aa, u.1);
    lemma_mul_rearrange(e.1, bb, v.1);
    lemma_mul_rearrange(e.1, cc, w.1);
    lemma_mul_rearrange(e.2, aa, u.2);
    lemma_mul_rearrange(e.2, bb, v.2);
    lemma_mul_rearrange(e.2, cc, w.2);
    lemma_mul_rearrange(e.0, dd, d.0);
    lemma_mul_rearrange(e.1, dd, d.1);
    lemma_mul_rearrange(e.2, dd, d.2);
    lemma_mul_distrib3(aa, e.0 * u.0, e.1 * u.1, e.2 * u.2);
    lemma_mul_distrib3(bb, e.0 * v.0, e.1 * v.1, e.2 * v.2);
    lemma_mul_distrib3(cc, e.0 * w.0, e.1 * w.1, e.2 * w.2);
    lemma_mul_distrib3(dd, e.0 * d.0, e.1 * d.1, e.2 * d.2);
}

/// Dot products with the zero vector vanish.
pub proof fn lemma_dot_zero(a: (int, int, int), z: (int, int, int))
    requires
        z == ((0int, 0int, 0int)),
    ensures
        sp_dot(a, z) == 0,
        sp_dot(z, a) == 0,
{
    assert(a.0 * z.0 == 0 && a.1 * z.1 == 0 && a.2 * z.2 == 0 && z.0 * a.0 == 0 && z.1 * a.1
        == 0 && z.2 * a.2 == 0) by (nonlinear_arith)
        requires
            z.0 == 0,
            z.1 == 0,
            z.2 == 0,
    ;
}

/// The cross product is antisymmetric.
pub proof fn lemma_cross_antisym(a: (int, int, int), b: (int, int, int))
    ensures
        sp_cross(b, a) == sp_neg(sp_cross(a, b)),
{
}

/// Exact difference of two vectors.
pub fn sub3(a: &Vec3, b: &Vec3) -> (r: Vec3)
    requires
        in_range(a@, AXIS_LIMIT as int),
        in_range(b@, AXIS_LIMIT as int),
    ensures
        r@ == sp_sub(a@, b@),
{
    Vec3 { x: a.x - b.x, y: a.y - b.y, z: a.z - b.z }
}

/// Exact dot product of two vectors whose coordinates are within
/// `AXIS_LIMIT`.
pub fn dot3(a: &Vec3, b: &Vec3) -> (r: i128)
    requires
        in_range(a@, AXIS_LIMIT as int),
        in_range(b@, AXIS_LIMIT as int),
    ensures
        r == sp_dot(a@, b@),
{
    proof {
        lemma_mul_bound(a.x as int, b.x as int, AXIS_LIMIT as int, AXIS_LIMIT as int);
        lemma_mul_bound(a.y as int, b.y as int, AXIS_LIMIT as int, AXIS_LIMIT as int);
        lemma_mul_bound(a.z as int, b.z as int, AXIS_LIMIT as int, AXIS_LIMIT as int);
    }
    a.x * b.x + a.y * b.y + a.z * b.z
}

/// Exact cross product of two vectors whose coordinates are within
/// `COORD_LIMIT`; the result stays within `AXIS_LIMIT`.
pub fn cross3(a: &Vec3, b: &Vec3) -> (r: Vec3)
    requires
        in_range(a@, COORD_LIMIT as int),
        in_range(b@, COORD_LIMIT as int),
    ensures
        r@ == sp_cross(a@, b@),
        in_range(r@, AXIS_LIMIT as int),
{
    proof {
        lemma_mul_bound(a.y as int, b.z as int, COORD_LIMIT as int, COORD_LIMIT as int);
        lemma_mul_bound(a.z as int, b.y as int, COORD_LIMIT as int, COORD_LIMIT as int);
        lemma_mul_bound(a.z as int, b.x as int, COORD_LIMIT as int, COORD_LIMIT as int);
        lemma_mul_bound(a.x as int, b.z as int, COORD_LIMIT as int, COORD_LIMIT as int);
        lemma_mul_bound(a.x as int, b.y as int, COORD_LIMIT as int, COORD_LIMIT as int);
        lemma_mul_bound(a.y as int, b.x as int, COORD_LIMIT as int, COORD_LIMIT as int);
    }
    Vec3 {
        x: a.y * b.z - a.z * b.y,
        y: a.z * b.x - a.x * b.z,
        z: a.x * b.y - a.y * b.x,
    }
}

} // verus!
