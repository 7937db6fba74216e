//! 3D oriented bounding boxes over exact integer coordinates.
//!
//! A box is stored as a center point and three edge vectors reaching from
//! the center to the midpoints of three mutually adjacent faces.  The kernel
//! never normalizes: wherever the classical formulation projects onto a unit
//! axis, the functions here project onto the raw edge vector instead and
//! carry the scale factor along exactly, so that every answer is the exact
//! mathematical value of its specification.

use vstd::prelude::*;

use crate::ratio::RatPoint;
use crate::ratio::Ratio;
use crate::ratio::lemma_rat_eq_le;
use crate::ratio::lemma_rat_le_antisym;
use crate::ratio::lemma_rat_le_trans;
use crate::ratio::sp_rat_is_point;
use crate::ratio::rat_eq;
use crate::ratio::rat_le;
use crate::vec3::AXIS_LIMIT;
use crate::vec3::cross3;
use crate::vec3::lemma_dot_self_pos;
use crate::vec3::lemma_dot_zero;
use crate::vec3::lemma_cross_antisym;
use crate::vec3::lemma_dot_neg_left;
use crate::vec3::lemma_dot_neg_right;
use crate::vec3::lemma_dot_self_nonneg;
use crate::vec3::sp_neg;
use crate::vec3::sp_cross;
use crate::vec3::COORD_LIMIT;
use crate::vec3::Vec3;
use crate::vec3::dot3;
use crate::vec3::in_range;
use crate::vec3::lemma_dot_bound;
use crate::vec3::lemma_dot_comm;
use crate::vec3::lemma_dot_linear_combo;
use crate::vec3::lemma_dot_signed_sum;
use crate::vec3::lemma_mul_bound;
use crate::vec3::sp_abs;
use crate::vec3::sp_add;
use crate::vec3::sp_flip;
use crate::vec3::sp_dot;
use crate::vec3::sp_sub;
use crate::vec3::sub3;

verus! {

/// Largest absolute value allowed for the numerator or denominator of the
/// relative containment slack.
pub const EPS_LIMIT: i128 = 1048576;

/// Bound on either end of a projection interval produced by `range_axis`
/// on an in-range box and axis.
pub const RANGE_LIMIT: i128 = 26000000000;

/// Bound on a gap between two projection intervals whose ends are within
/// `RANGE_LIMIT`.
pub const GAP_LIMIT: i128 = 52000000000;

/// An oriented bounding box: a center point and three edge vectors from the
/// center to the midpoints of three mutually adjacent faces.
///
/// The kernel itself does not demand that the edge vectors be orthogonal;
/// each operation states exactly what it computes on the raw representation.
/// Geometric meaningfulness of separating-axis and nearest-point answers is
/// the caller's responsibility, as is non-degeneracy where a contract asks
/// for it.
#[derive(Clone, Copy, Debug, PartialEq, Eq, Structural)]
pub struct Obb3 {
    pub center: Vec3,
    pub u: Vec3,
    pub v: Vec3,
    pub w: Vec3,
}

/// All stored coordinates of the box lie within `COORD_LIMIT`.
pub open spec fn obb_in_range(o: Obb3) -> bool {
    &&& in_range(o.center@, COORD_LIMIT as int)
    &&& in_range(o.u@, COORD_LIMIT as int)
    &&& in_range(o.v@, COORD_LIMIT as int)
    &&& in_range(o.w@, COORD_LIMIT as int)
}

/// Each edge vector is nonzero (has positive squared length).
pub open spec fn obb_nondegenerate(o: Obb3) -> bool {
    &&& sp_dot(o.u@, o.u@) > 0
    &&& sp_dot(o.v@, o.v@) > 0
    &&& sp_dot(o.w@, o.w@) > 0
}

/// The three edge vectors are mutually orthogonal.
pub open spec fn obb_orthogonal(o: Obb3) -> bool {
    &&& sp_dot(o.u@, o.v@) == 0
    &&& sp_dot(o.u@, o.w@) == 0
    &&& sp_dot(o.v@, o.w@) == 0
}

/// Edge vector of a box by index: 0 is `u`, 1 is `v`, 2 is `w`.
pub open spec fn sp_edge(o: Obb3, k: int) -> (int, int, int) {
    if k == 0 {
        o.u@
    } else if k == 1 {
        o.v@
    } else {
        o.w@
    }
}

/// The point `p` is, along edge `e` of a box centered at `c`, within the
/// slab spanned by that edge, with relative slack `en / ed`: the projection
/// `e · (p - c)` satisfies `|e · (p - c)| <= (e · e) * (1 + en / ed)`,
/// written multiplied through by the positive denominator `ed`.
pub open spec fn sp_inside_axis(
    e: (int, int, int),
    c: (int, int, int),
    p: (int, int, int),
    en: int,
    ed: int,
) -> bool {
    sp_abs(sp_dot(e, sp_sub(p, c))) * ed <= sp_dot(e, e) * (ed + en)
}

/// The point `p` lies inside the box, with relative slack `en / ed` on each
/// of the three axis tests.
pub open spec fn sp_include(o: Obb3, p: (int, int, int), en: int, ed: int) -> bool {
    &&& sp_inside_axis(o.u@, o.center@, p, en, ed)
    &&& sp_inside_axis(o.v@, o.center@, p, en, ed)
    &&& sp_inside_axis(o.w@, o.center@, p, en, ed)
}

/// Exact projection interval of the box on an arbitrary (not necessarily
/// unit) axis: center projection plus and minus the sum of the absolute
/// edge projections.
pub open spec fn sp_range(o: Obb3, axis: (int, int, int)) -> (int, int) {
    let c = sp_dot(o.center@, axis);
    let hw = sp_abs(sp_dot(o.u@, axis)) + sp_abs(sp_dot(o.v@, axis)) + sp_abs(
        sp_dot(o.w@, axis),
    );
    (c - hw, c + hw)
}

/// Signed gap between two intervals: `Some` of the positive gap when they
/// are disjoint, `None` when they overlap or touch.
pub open spec fn sp_sep(a: (int, int), b: (int, int)) -> Option<int> {
    if a.0 > b.1 {
        Some(a.0 - b.1)
    } else if b.0 > a.1 {
        Some(b.0 - a.1)
    } else {
        None
    }
}

/// The projections of the two boxes onto `axis` are disjoint, which proves
/// the boxes themselves disjoint.
pub open spec fn sp_separated_on(a: Obb3, b: Obb3, axis: (int, int, int)) -> bool {
    sp_sep(sp_range(a, axis), sp_range(b, axis)) is Some
}

/// Verdict of the separating-axis test restricted to the six face-normal
/// axes (the three edge directions of each box): no gap on any of the six.
pub open spec fn sp_intersect6(a: Obb3, b: Obb3) -> bool {
    &&& !sp_separated_on(a, b, a.u@)
    &&& !sp_separated_on(a, b, a.v@)
    &&& !sp_separated_on(a, b, a.w@)
    &&& !sp_separated_on(a, b, b.u@)
    &&& !sp_separated_on(a, b, b.v@)
    &&& !sp_separated_on(a, b, b.w@)
}

/// Largest squared gap between two projection intervals whose gap is
/// within `GAP_LIMIT`.
pub const GAP_SQ_LIMIT: i128 = 2704000000000000000000;

/// Largest squared length of a projection axis whose coordinates are
/// within `AXIS_LIMIT`.
pub const AXIS_SQ_LIMIT: i128 = 13194139533312;

/// Projection interval of a box on its own `k`-th raw edge `e`, computed
/// from the box's own center and extent: for an orthogonal box the
/// half-width of the projection onto `e` is exactly `e · e`.
pub open spec fn sp_own_interval(o: Obb3, k: int) -> (int, int) {
    let e = sp_edge(o, k);
    let c = sp_dot(e, o.center@);
    let l = sp_dot(e, e);
    (c - l, c + l)
}

/// Squared separation of the two boxes along candidate axis `i` of the
/// full fifteen-axis set, as an exact rational `Some((g * g, |axis|^2))`,
/// or `None` when the projections onto that axis overlap.
///
/// Axes 0 to 2 are the raw edges of `a` (interval of `a` in the own-extent
/// form), axes 3 to 5 the raw edges of `b`, and axes 6 to 14 the pairwise
/// cross products of an edge of `a` with an edge of `b`.  A gap `g` along
/// a raw axis corresponds to a Euclidean separation of `g / |axis|`, so
/// the squared separation is the exact rational `g^2 / |axis|^2`.
pub open spec fn sp_gap_sq(a: Obb3, b: Obb3, i: int) -> Option<(int, int)> {
    if i < 3 {
        let e = sp_edge(a, i);
        let l = sp_dot(e, e);
        match sp_sep(sp_own_interval(a, i), sp_range(b, e)) {
            Some(g) => Some((g * g, l)),
            None => None,
        }
    } else if i < 6 {
        let e = sp_edge(b, i - 3);
        let l = sp_dot(e, e);
        match sp_sep(sp_range(a, e), sp_own_interval(b, i - 3)) {
            Some(g) => Some((g * g, l)),
            None => None,
        }
    } else {
        let ax = sp_cross(sp_edge(a, (i - 6) / 3), sp_edge(b, (i - 6) % 3));
        match sp_sep(sp_range(a, ax), sp_range(b, ax)) {
            Some(g) => Some((g * g, sp_dot(ax, ax))),
            None => None,
        }
    }
}

/// The squared separation along one axis, if any, is at most the rational
/// `r`.
pub open spec fn sp_gap_le(g: Option<(int, int)>, r: (int, int)) -> bool {
    match g {
        Some(p) => rat_le(p, r),
        None => true,
    }
}

/// The exec-level gap `g` carries exactly the spec-level gap `s`, with the
/// bounds every stored gap obeys: a positive numerator within
/// `GAP_SQ_LIMIT` and a positive denominator within `AXIS_SQ_LIMIT`.
pub open spec fn opt_gap_matches(g: Option<(i128, i128)>, s: Option<(int, int)>) -> bool {
    match g {
        Some(p) => {
            &&& s == Some((p.0 as int, p.1 as int))
            &&& 0 < p.0 <= GAP_SQ_LIMIT
            &&& 0 < p.1 <= AXIS_SQ_LIMIT
        },
        None => s is None,
    }
}

/// Sign triple (for `u`, `v`, `w`) of corner `i` in the order the kernel
/// returns corners: the first four corners form the face on the negative
/// `w` side, the last four the face on the positive `w` side.
pub open spec fn sp_corner_signs(i: int) -> (int, int, int) {
    let su: int = if i == 1 || i == 2 || i == 5 || i == 6 {
        1
    } else {
        -1
    };
    let sv: int = if i == 2 || i == 3 || i == 6 || i == 7 {
        1
    } else {
        -1
    };
    let sw: int = if i >= 4 {
        1
    } else {
        -1
    };
    (su, sv, sw)
}

/// Corner `i` of the box: `center + su * u + sv * v + sw * w` with the sign
/// triple of `sp_corner_signs`.
pub open spec fn sp_corner(o: Obb3, i: int) -> (int, int, int) {
    let s = sp_corner_signs(i);
    sp_add(
        o.center@,
        sp_add(sp_flip(s.0, o.u@), sp_add(sp_flip(s.1, o.v@), sp_flip(s.2, o.w@))),
    )
}

/// Whether `p` lies inside the box, with relative slack `eps_num / eps_den`
/// (zero slack tests the exact boundary, a negative slack shrinks the box).
///
/// For each of the three local axes the raw edge vector `e` is used
/// unnormalized: with `L = e · e` and `d = e · (p - center)`, the point is
/// outside along that axis when `|d| > L * (1 + eps)`, which this function
/// evaluates exactly as `|d| * eps_den > L * (eps_den + eps_num)`.
pub fn is_include_point(obb: &Obb3, p: &Vec3, eps_num: i128, eps_den: i128) -> (r: bool)
    requires
        obb_in_range(*obb),
        in_range(p@, COORD_LIMIT as int),
        0 < eps_den <= EPS_LIMIT,
        -EPS_LIMIT <= eps_num <= EPS_LIMIT,
    ensures
        r == sp_include(*obb, p@, eps_num as int, eps_den as int),
{
    let d = sub3(p, &obb.center);
    let lx = dot3(&obb.u, &obb.u);
    let dx = dot3(&obb.u, &d);
    proof {
        lemma_dot_bound(obb.u@, obb.u@, COORD_LIMIT as int, COORD_LIMIT as int);
        lemma_dot_bound(obb.u@, d@, COORD_LIMIT as int, 2 * COORD_LIMIT as int);
        lemma_mul_bound(sp_abs(dx as int), eps_den as int, 6291456, EPS_LIMIT as int);
        lemma_mul_bound(lx as int, eps_den as int + eps_num as int, 3145728, 2 * EPS_LIMIT as int);
    }
    let adx: i128 = if dx < 0 {
        -dx
    } else {
        dx
    };
    if adx * eps_den > lx * (eps_den + eps_num) {
        return false;
    }
    let ly = dot3(&obb.v, &obb.v);
    let dy = dot3(&obb.v, &d);
    proof {
        lemma_dot_bound(obb.v@, obb.v@, COORD_LIMIT as int, COORD_LIMIT as int);
        lemma_dot_bound(obb.v@, d@, COORD_LIMIT as int, 2 * COORD_LIMIT as int);
        lemma_mul_bound(sp_abs(dy as int), eps_den as int, 6291456, EPS_LIMIT as int);
        lemma_mul_bound(ly as int, eps_den as int + eps_num as int, 3145728, 2 * EPS_LIMIT as int);
    }
    let ady: i128 = if dy < 0 {
        -dy
    } else {
        dy
    };
    if ady * eps_den > ly * (eps_den + eps_num) {
        return false;
    }
    let lz = dot3(&obb.w, &obb.w);
    let dz = dot3(&obb.w, &d);
    proof {
        lemma_dot_bound(obb.w@, obb.w@, COORD_LIMIT as int, COORD_LIMIT as int);
        lemma_dot_bound(obb.w@, d@, COORD_LIMIT as int, 2 * COORD_LIMIT as int);
        lemma_mul_bound(sp_abs(dz as int), eps_den as int, 6291456, EPS_LIMIT as int);
        lemma_mul_bound(lz as int, eps_den as int + eps_num as int, 3145728, 2 * EPS_LIMIT as int);
    }
    let adz: i128 = if dz < 0 {
        -dz
    } else {
        dz
    };
    if adz * eps_den > lz * (eps_den + eps_num) {
        return false;
    }
    true
}

/// Exact projection of the box onto an arbitrary axis, returned as the
/// interval `(min, max)`.  This closed form is the support interval of a
/// box and needs no iteration.
pub fn range_axis(obb: &Obb3, axis: &Vec3) -> (r: (i128, i128))
    requires
        obb_in_range(*obb),
        in_range(axis@, AXIS_LIMIT as int),
    ensures
        r.0 == sp_range(*obb, axis@).0,
        r.1 == sp_range(*obb, axis@).1,
        -RANGE_LIMIT <= r.0 <= RANGE_LIMIT,
        -RANGE_LIMIT <= r.1 <= RANGE_LIMIT,
{
    proof {
        lemma_dot_bound(obb.center@, axis@, COORD_LIMIT as int, AXIS_LIMIT as int);
        lemma_dot_bound(obb.u@, axis@, COORD_LIMIT as int, AXIS_LIMIT as int);
        lemma_dot_bound(obb.v@, axis@, COORD_LIMIT as int, AXIS_LIMIT as int);
        lemma_dot_bound(obb.w@, axis@, COORD_LIMIT as int, AXIS_LIMIT as int);
    }
    let c = dot3(&obb.center, axis);
    let du = dot3(&obb.u, axis);
    let dv = dot3(&obb.v, axis);
    let dw = dot3(&obb.w, axis);
    let x: i128 = if du < 0 {
        -du
    } else {
        du
    };
    let y: i128 = if dv < 0 {
        -dv
    } else {
        dv
    };
    let z: i128 = if dw < 0 {
        -dw
    } else {
        dw
    };
    (c - x - y - z, c + x + y + z)
}

/// Signed gap between two projection intervals: `Some` of the positive gap
/// when they are disjoint, `None` when they overlap (touching counts as
/// overlap).  This is the atomic primitive shared by the intersection test
/// and the pairwise distance query.
pub fn distance_between_two_ranges(a: (i128, i128), b: (i128, i128)) -> (r: Option<i128>)
    requires
        -RANGE_LIMIT <= a.0 <= RANGE_LIMIT,
        -RANGE_LIMIT <= a.1 <= RANGE_LIMIT,
        -RANGE_LIMIT <= b.0 <= RANGE_LIMIT,
        -RANGE_LIMIT <= b.1 <= RANGE_LIMIT,
    ensures
        r is Some <==> sp_sep((a.0 as int, a.1 as int), (b.0 as int, b.1 as int)) is Some,
        r matches Some(g) ==> {
            &&& sp_sep((a.0 as int, a.1 as int), (b.0 as int, b.1 as int)) == Some(g as int)
            &&& 0 < g <= GAP_LIMIT
        },
{
    if a.0 > b.1 {
        return Some(a.0 - b.1);
    }
    if b.0 > a.1 {
        return Some(b.0 - a.1);
    }
    None
}

/// Separating-axis intersection verdict over the six face-normal axes: the
/// three edge directions of each box.  Projections use the raw edge vectors;
/// whether a projection gap exists is invariant under scaling the axis, so
/// the verdict is the one the classical unit-axis formulation gives.
///
/// The six face-normal axes are a deliberately incomplete candidate set:
/// full box-box SAT also needs the nine pairwise cross products of the edge
/// directions, and edge-edge separated configurations exist that only those
/// detect.  On such configurations this test reports an intersection that
/// does not exist; the pairwise distance query examines all fifteen axes.
pub fn is_intersect_to_obb3(obb_i: &Obb3, obb_j: &Obb3) -> (r: bool)
    requires
        obb_in_range(*obb_i),
        obb_in_range(*obb_j),
    ensures
        r == sp_intersect6(*obb_i, *obb_j),
{
    if distance_between_two_ranges(
        range_axis(obb_i, &obb_i.u),
        range_axis(obb_j, &obb_i.u),
    ).is_some() {
        return false;
    }
    if distance_between_two_ranges(
        range_axis(obb_i, &obb_i.v),
        range_axis(obb_j, &obb_i.v),
    ).is_some() {
        return false;
    }
    if distance_between_two_ranges(
        range_axis(obb_i, &obb_i.w),
        range_axis(obb_j, &obb_i.w),
    ).is_some() {
        return false;
    }
    if distance_between_two_ranges(
        range_axis(obb_i, &obb_j.u),
        range_axis(obb_j, &obb_j.u),
    ).is_some() {
        return false;
    }
    if distance_between_two_ranges(
        range_axis(obb_i, &obb_j.v),
        range_axis(obb_j, &obb_j.v),
    ).is_some() {
        return false;
    }
    if distance_between_two_ranges(
        range_axis(obb_i, &obb_j.w),
        range_axis(obb_j, &obb_j.w),
    ).is_some() {
        return false;
    }
    true
}

/// Largest absolute value of the squared length of an in-range edge
/// vector, and of a projection of an in-range offset onto an edge.
pub const EDGE_SQ_LIMIT: i128 = 3145728;

/// `x` clamped into the symmetric interval `[-l, l]`.
pub open spec fn sp_clamp(x: int, l: int) -> int {
    if x < -l {
        -l
    } else if x > l {
        l
    } else {
        x
    }
}

/// Common positive denominator of the nearest-point formula: the product of
/// the three squared edge lengths.
pub open spec fn sp_nearest_den(o: Obb3) -> int {
    sp_dot(o.u@, o.u@) * (sp_dot(o.v@, o.v@) * sp_dot(o.w@, o.w@))
}

/// Numerator vector of the nearest-point formula, scaled by
/// `sp_nearest_den`: the center plus, along each raw edge `e` with squared
/// length `L`, the offset projection `e · (p - center)` clamped into
/// `[-L, L]` and divided by `L` — the exact clamped-coordinate projection
/// of `p` onto the box, multiplied through by the common denominator.
pub open spec fn sp_nearest_num(o: Obb3, p: (int, int, int)) -> (int, int, int) {
    let c = o.center@;
    let d = sp_sub(p, c);
    let lu = sp_dot(o.u@, o.u@);
    let lv = sp_dot(o.v@, o.v@);
    let lw = sp_dot(o.w@, o.w@);
    let tu = sp_clamp(sp_dot(o.u@, d), lu);
    let tv = sp_clamp(sp_dot(o.v@, d), lv);
    let tw = sp_clamp(sp_dot(o.w@, d), lw);
    let vw = lv * lw;
    let uw = lu * lw;
    let uv = lu * lv;
    let den = lu * vw;
    (
        den * c.0 + vw * tu * o.u@.0 + uw * tv * o.v@.0 + uv * tw * o.w@.0,
        den * c.1 + vw * tu * o.u@.1 + uw * tv * o.v@.1 + uv * tw * o.w@.1,
        den * c.2 + vw * tu * o.u@.2 + uw * tv * o.v@.2 + uv * tw * o.w@.2,
    )
}

/// Result of the nearest-point query as a scaled point: the point itself
/// over denominator 1 when it already lies inside the box (zero slack),
/// and the clamped-coordinate projection otherwise.
pub open spec fn sp_nearest(o: Obb3, p: (int, int, int)) -> ((int, int, int), int) {
    if sp_include(o, p, 0, 1) {
        (p, 1)
    } else {
        (sp_nearest_num(o, p), sp_nearest_den(o))
    }
}

/// Nearest point of the box to `p`, as an exact rational point.
///
/// A point already inside the box (tested with zero slack) is returned
/// unchanged over denominator 1.  Otherwise the offset from the center is
/// projected onto each raw edge vector, the projection is clamped into the
/// box's extent along that edge, and the point is rebuilt from the clamped
/// coordinates; all divisions are deferred into the common positive
/// denominator of the result.
pub fn nearest_to_point3(obb: &Obb3, p: &Vec3) -> (r: RatPoint)
    requires
        obb_in_range(*obb),
        in_range(p@, COORD_LIMIT as int),
        obb_nondegenerate(*obb),
    ensures
        r.den > 0,
        (r.num@, r.den as int) == sp_nearest(*obb, p@),
{
    if is_include_point(obb, p, 0, 1) {
        return RatPoint { num: *p, den: 1 };
    }
    let c = &obb.center;
    let d = sub3(p, c);
    proof {
        lemma_dot_bound(obb.u@, obb.u@, COORD_LIMIT as int, COORD_LIMIT as int);
        lemma_dot_bound(obb.v@, obb.v@, COORD_LIMIT as int, COORD_LIMIT as int);
        lemma_dot_bound(obb.w@, obb.w@, COORD_LIMIT as int, COORD_LIMIT as int);
        lemma_dot_bound(obb.u@, d@, COORD_LIMIT as int, 2 * COORD_LIMIT as int);
        lemma_dot_bound(obb.v@, d@, COORD_LIMIT as int, 2 * COORD_LIMIT as int);
        lemma_dot_bound(obb.w@, d@, COORD_LIMIT as int, 2 * COORD_LIMIT as int);
    }
    let lu = dot3(&obb.u, &obb.u);
    let lv = dot3(&obb.v, &obb.v);
    let lw = dot3(&obb.w, &obb.w);
    let du = dot3(&obb.u, &d);
    let dv = dot3(&obb.v, &d);
    let dw = dot3(&obb.w, &d);
    let tu: i128 = if du < -lu {
        -lu
    } else if du > lu {
        lu
    } else {
        du
    };
    let tv: i128 = if dv < -lv {
        -lv
    } else if dv > lv {
        lv
    } else {
        dv
    };
    let tw: i128 = if dw < -lw {
        -lw
    } else if dw > lw {
        lw
    } else {
        dw
    };
    proof {
        lemma_mul_bound(lv as int, lw as int, EDGE_SQ_LIMIT as int, EDGE_SQ_LIMIT as int);
        lemma_mul_bound(lu as int, lw as int, EDGE_SQ_LIMIT as int, EDGE_SQ_LIMIT as int);
        lemma_mul_bound(lu as int, lv as int, EDGE_SQ_LIMIT as int, EDGE_SQ_LIMIT as int);
    }
    let vw = lv * lw;
    let uw = lu * lw;
    let uv = lu * lv;
    proof {
        lemma_mul_bound(
            lu as int,
            vw as int,
            EDGE_SQ_LIMIT as int,
            EDGE_SQ_LIMIT as int * EDGE_SQ_LIMIT as int,
        );
        lemma_mul_bound(
            vw as int,
            tu as int,
            EDGE_SQ_LIMIT as int * EDGE_SQ_LIMIT as int,
            EDGE_SQ_LIMIT as int,
        );
        lemma_mul_bound(
            uw as int,
            tv as int,
            EDGE_SQ_LIMIT as int * EDGE_SQ_LIMIT as int,
            EDGE_SQ_LIMIT as int,
        );
        lemma_mul_bound(
            uv as int,
            tw as int,
            EDGE_SQ_LIMIT as int * EDGE_SQ_LIMIT as int,
            EDGE_SQ_LIMIT as int,
        );
        assert(vw > 0) by (nonlinear_arith)
            requires
                vw == lv * lw,
                lv > 0,
                lw > 0,
        ;
        assert(lu * vw > 0) by (nonlinear_arith)
            requires
                lu > 0,
                vw > 0,
        ;
    }
    let den = lu * vw;
    let au = vw * tu;
    let av = uw * tv;
    let aw = uv * tw;
    proof {
        let cube: int = EDGE_SQ_LIMIT as int * EDGE_SQ_LIMIT as int * EDGE_SQ_LIMIT as int;
        lemma_mul_bound(den as int, c.x as int, cube, COORD_LIMIT as int);
        lemma_mul_bound(den as int, c.y as int, cube, COORD_LIMIT as int);
        lemma_mul_bound(den as int, c.z as int, cube, COORD_LIMIT as int);
        lemma_mul_bound(au as int, obb.u@.0, cube, COORD_LIMIT as int);
        lemma_mul_bound(au as int, obb.u@.1, cube, COORD_LIMIT as int);
        lemma_mul_bound(au as int, obb.u@.2, cube, COORD_LIMIT as int);
        lemma_mul_bound(av as int, obb.v@.0, cube, COORD_LIMIT as int);
        lemma_mul_bound(av as int, obb.v@.1, cube, COORD_LIMIT as int);
        lemma_mul_bound(av as int, obb.v@.2, cube, COORD_LIMIT as int);
        lemma_mul_bound(aw as int, obb.w@.0, cube, COORD_LIMIT as int);
        lemma_mul_bound(aw as int, obb.w@.1, cube, COORD_LIMIT as int);
        lemma_mul_bound(aw as int, obb.w@.2, cube, COORD_LIMIT as int);
    }
    let num = Vec3 {
        x: den * c.x + au * obb.u.x + av * obb.v.x + aw * obb.w.x,
        y: den * c.y + au * obb.u.y + av * obb.v.y + aw * obb.w.y,
        z: den * c.z + au * obb.u.z + av * obb.v.z + aw * obb.w.z,
    };
    RatPoint { num, den }
}

/// Edge vector of a box by index, the executable counterpart of
/// `sp_edge`.
fn pick_edge(o: &Obb3, k: usize) -> (r: &Vec3)
    requires
        k < 3,
    ensures
        r@ == sp_edge(*o, k as int),
{
    if k == 0 {
        &o.u
    } else if k == 1 {
        &o.v
    } else {
        &o.w
    }
}

/// Squared separation along edge `k` of `a` (own-extent interval for `a`,
/// support interval for `b`), or `None` when the projections overlap.
fn face_gap_a(a: &Obb3, b: &Obb3, k: usize) -> (r: Option<(i128, i128)>)
    requires
        obb_in_range(*a),
        obb_in_range(*b),
        k < 3,
    ensures
        opt_gap_matches(r, sp_gap_sq(*a, *b, k as int)),
{
    let e = pick_edge(a, k);
    proof {
        lemma_dot_bound(e@, a.center@, COORD_LIMIT as int, COORD_LIMIT as int);
        lemma_dot_bound(e@, e@, COORD_LIMIT as int, COORD_LIMIT as int);
    }
    let cc = dot3(e, &a.center);
    let l = dot3(e, e);
    let own = (cc - l, cc + l);
    let rb = range_axis(b, e);
    match distance_between_two_ranges(own, rb) {
        Some(g) => {
            proof {
                if e@ == ((0int, 0int, 0int)) {
                    lemma_dot_zero(a.center@, e@);
                    lemma_dot_zero(e@, e@);
                    lemma_dot_zero(b.center@, e@);
                    lemma_dot_zero(b.u@, e@);
                    lemma_dot_zero(b.v@, e@);
                    lemma_dot_zero(b.w@, e@);
                    assert(sp_range(*b, e@) == (0int, 0int));
                    assert(false);
                } else {
                    lemma_dot_self_pos(e@);
                }
                lemma_mul_bound(g as int, g as int, GAP_LIMIT as int, GAP_LIMIT as int);
                assert(g * g > 0) by (nonlinear_arith)
                    requires
                        g > 0,
                ;
            }
            Some((g * g, l))
        },
        None => None,
    }
}

/// Squared separation along edge `k` of `b` (support interval for `a`,
/// own-extent interval for `b`), or `None` when the projections overlap.
fn face_gap_b(a: &Obb3, b: &Obb3, k: usize) -> (r: Option<(i128, i128)>)
    requires
        obb_in_range(*a),
        obb_in_range(*b),
        k < 3,
    ensures
        opt_gap_matches(r, sp_gap_sq(*a, *b, 3 + k as int)),
{
    let e = pick_edge(b, k);
    proof {
        lemma_dot_bound(e@, b.center@, COORD_LIMIT as int, COORD_LIMIT as int);
        lemma_dot_bound(e@, e@, COORD_LIMIT as int, COORD_LIMIT as int);
    }
    let cc = dot3(e, &b.center);
    let l = dot3(e, e);
    let own = (cc - l, cc + l);
    let ra = range_axis(a, e);
    match distance_between_two_ranges(ra, own) {
        Some(g) => {
            proof {
                if e@ == ((0int, 0int, 0int)) {
                    lemma_dot_zero(b.center@, e@);
                    lemma_dot_zero(e@, e@);
                    lemma_dot_zero(a.center@, e@);
                    lemma_dot_zero(a.u@, e@);
                    lemma_dot_zero(a.v@, e@);
                    lemma_dot_zero(a.w@, e@);
                    assert(sp_range(*a, e@) == (0int, 0int));
                    assert(false);
                } else {
                    lemma_dot_self_pos(e@);
                }
                lemma_mul_bound(g as int, g as int, GAP_LIMIT as int, GAP_LIMIT as int);
                assert(g * g > 0) by (nonlinear_arith)
                    requires
                        g > 0,
                ;
            }
            Some((g * g, l))
        },
        None => None,
    }
}

/// Squared separation along the cross product of edge `ka` of `a` with
/// edge `kb` of `b`, or `None` when the projections overlap (in
/// particular whenever the two edges are parallel and the cross product
/// vanishes).
fn cross_gap(a: &Obb3, b: &Obb3, ka: usize, kb: usize) -> (r: Option<(i128, i128)>)
    requires
        obb_in_range(*a),
        obb_in_range(*b),
        ka < 3,
        kb < 3,
    ensures
        opt_gap_matches(r, sp_gap_sq(*a, *b, 6 + 3 * (ka as int) + kb as int)),
{
    let ea = pick_edge(a, ka);
    let eb = pick_edge(b, kb);
    let ax = cross3(ea, eb);
    let ra = range_axis(a, &ax);
    let rb = range_axis(b, &ax);
    proof {
        assert((6 + 3 * (ka as int) + kb as int - 6) / 3 == ka as int);
        assert((6 + 3 * (ka as int) + kb as int - 6) % 3 == kb as int);
    }
    match distance_between_two_ranges(ra, rb) {
        Some(g) => {
            proof {
                if ax@ == ((0int, 0int, 0int)) {
                    lemma_dot_zero(a.center@, ax@);
                    lemma_dot_zero(a.u@, ax@);
                    lemma_dot_zero(a.v@, ax@);
                    lemma_dot_zero(a.w@, ax@);
                    lemma_dot_zero(b.center@, ax@);
                    lemma_dot_zero(b.u@, ax@);
                    lemma_dot_zero(b.v@, ax@);
                    lemma_dot_zero(b.w@, ax@);
                    assert(sp_range(*a, ax@) == (0int, 0int));
                    assert(sp_range(*b, ax@) == (0int, 0int));
                    assert(false);
                } else {
                    lemma_dot_self_pos(ax@);
                }
                lemma_dot_bound(ax@, ax@, AXIS_LIMIT as int, AXIS_LIMIT as int);
                lemma_mul_bound(g as int, g as int, GAP_LIMIT as int, GAP_LIMIT as int);
                assert(g * g > 0) by (nonlinear_arith)
                    requires
                        g > 0,
                ;
            }
            let l = dot3(&ax, &ax);
            Some((g * g, l))
        },
        None => None,
    }
}

/// Exact squared separation distance between two boxes, as a nonnegative
/// rational, over the full fifteen-axis separating-axis candidate set: the
/// three face-normal axes of each box plus the nine pairwise edge cross
/// products.
///
/// Each separating axis yields a lower bound on the Euclidean separation;
/// the result is the largest of those squared bounds, and `0 / 1` when no
/// candidate axis separates the boxes (in particular whenever they
/// intersect).  The square is returned because a Euclidean distance along
/// a raw axis is the irrational `g / |axis|`; its square is the exact
/// rational `g^2 / |axis|^2`, and since all bounds are nonnegative, taking
/// the maximum commutes with squaring.
pub fn distance_squared_to_obb3(obb_i: &Obb3, obb_j: &Obb3) -> (r: Ratio)
    requires
        obb_in_range(*obb_i),
        obb_in_range(*obb_j),
    ensures
        0 < r.den <= AXIS_SQ_LIMIT,
        0 <= r.num <= GAP_SQ_LIMIT,
        forall|i: int|
            0 <= i < 15 ==> sp_gap_le(
                #[trigger] sp_gap_sq(*obb_i, *obb_j, i),
                (r.num as int, r.den as int),
            ),
        (r.num == 0 && r.den == 1) || (exists|i: int|
            0 <= i < 15 && ((#[trigger] sp_gap_sq(*obb_i, *obb_j, i)) matches Some(p)
                && rat_eq(p, (r.num as int, r.den as int)))),
        sp_dist_sq_characterizes(*obb_i, *obb_j, (r.num as int, r.den as int)),
{
    let mut gs: Vec<Option<(i128, i128)>> = Vec::new();
    gs.push(face_gap_a(obb_i, obb_j, 0));
    gs.push(face_gap_a(obb_i, obb_j, 1));
    gs.push(face_gap_a(obb_i, obb_j, 2));
    gs.push(face_gap_b(obb_i, obb_j, 0));
    gs.push(face_gap_b(obb_i, obb_j, 1));
    gs.push(face_gap_b(obb_i, obb_j, 2));
    gs.push(cross_gap(obb_i, obb_j, 0, 0));
    gs.push(cross_gap(obb_i, obb_j, 0, 1));
    gs.push(cross_gap(obb_i, obb_j, 0, 2));
    gs.push(cross_gap(obb_i, obb_j, 1, 0));
    gs.push(cross_gap(obb_i, obb_j, 1, 1));
    gs.push(cross_gap(obb_i, obb_j, 1, 2));
    gs.push(cross_gap(obb_i, obb_j, 2, 0));
    gs.push(cross_gap(obb_i, obb_j, 2, 1));
    gs.push(cross_gap(obb_i, obb_j, 2, 2));
    proof {
        assert forall|i: int| 0 <= i < 15 implies opt_gap_matches(
            #[trigger] gs@[i],
            sp_gap_sq(*obb_i, *obb_j, i),
        ) by {
            assert(i == 0 || i == 1 || i == 2 || i == 3 || i == 4 || i == 5 || i == 6 || i == 7
                || i == 8 || i == 9 || i == 10 || i == 11 || i == 12 || i == 13 || i == 14);
        }
    }
    let mut best = Ratio { num: 0, den: 1 };
    let mut idx: usize = 0;
    while idx < 15
        invariant
            gs@.len() == 15,
            forall|i: int| 0 <= i < 15 ==> opt_gap_matches(
                #[trigger] gs@[i],
                sp_gap_sq(*obb_i, *obb_j, i),
            ),
            idx <= 15,
            0 <= best.num <= GAP_SQ_LIMIT,
            0 < best.den <= AXIS_SQ_LIMIT,
            forall|i: int|
                0 <= i < idx ==> sp_gap_le(
                    #[trigger] sp_gap_sq(*obb_i, *obb_j, i),
                    (best.num as int, best.den as int),
                ),
            (best.num == 0 && best.den == 1) || (exists|i: int|
                0 <= i < idx && ((#[trigger] sp_gap_sq(*obb_i, *obb_j, i)) matches Some(p)
                    && rat_eq(p, (best.num as int, best.den as int)))),
        decreases 15 - idx,
    {
        let g = gs[idx];
        let ghost prev = best;
        match g {
            None => {},
            Some((n, d)) => {
                proof {
                    lemma_mul_bound(n as int, best.den as int, GAP_SQ_LIMIT as int, AXIS_SQ_LIMIT as int);
                    lemma_mul_bound(best.num as int, d as int, GAP_SQ_LIMIT as int, AXIS_SQ_LIMIT as int);
                }
                if n * best.den > best.num * d {
                    best = Ratio { num: n, den: d };
                }
            },
        }
        proof {
            let prev_v = (prev.num as int, prev.den as int);
            let best_v = (best.num as int, best.den as int);
            assert(rat_le(prev_v, best_v));
            assert forall|i: int| 0 <= i < idx + 1 implies sp_gap_le(
                #[trigger] sp_gap_sq(*obb_i, *obb_j, i),
                best_v,
            ) by {
                if i < idx {
                    assert(opt_gap_matches(gs@[i], sp_gap_sq(*obb_i, *obb_j, i)));
                    match sp_gap_sq(*obb_i, *obb_j, i) {
                        Some(p) => {
                            lemma_rat_le_trans(p, prev_v, best_v);
                        },
                        None => {},
                    }
                }
            }
            if best != prev {
                assert((sp_gap_sq(*obb_i, *obb_j, idx as int)) matches Some(p) && rat_eq(
                    p,
                    best_v,
                ));
            }
        }
        idx += 1;
    }
    best
}

/// The eight corners of the box, as the sign combinations
/// `center ± u ± v ± w`.  The first four corners form the face on the
/// negative `w` side, the last four the face on the positive `w` side.
pub fn corner_points(obb: &Obb3) -> (r: Vec<Vec3>)
    requires
        obb_in_range(*obb),
    ensures
        r@.len() == 8,
        forall|i: int| 0 <= i < 8 ==> (#[trigger] r@[i])@ == sp_corner(*obb, i),
{
    let c = &obb.center;
    let u = &obb.u;
    let v = &obb.v;
    let w = &obb.w;
    let mut r: Vec<Vec3> = Vec::new();
    r.push(Vec3 { x: c.x - u.x - v.x - w.x, y: c.y - u.y - v.y - w.y, z: c.z - u.z - v.z - w.z });
    r.push(Vec3 { x: c.x + u.x - v.x - w.x, y: c.y + u.y - v.y - w.y, z: c.z + u.z - v.z - w.z });
    r.push(Vec3 { x: c.x + u.x + v.x - w.x, y: c.y + u.y + v.y - w.y, z: c.z + u.z + v.z - w.z });
    r.push(Vec3 { x: c.x - u.x + v.x - w.x, y: c.y - u.y + v.y - w.y, z: c.z - u.z + v.z - w.z });
    r.push(Vec3 { x: c.x - u.x - v.x + w.x, y: c.y - u.y - v.y + w.y, z: c.z - u.z - v.z + w.z });
    r.push(Vec3 { x: c.x + u.x - v.x + w.x, y: c.y + u.y - v.y + w.y, z: c.z + u.z - v.z + w.z });
    r.push(Vec3 { x: c.x + u.x + v.x + w.x, y: c.y + u.y + v.y + w.y, z: c.z + u.z + v.z + w.z });
    r.push(Vec3 { x: c.x - u.x + v.x + w.x, y: c.y - u.y + v.y + w.y, z: c.z - u.z + v.z + w.z });
    proof {
        assert forall|i: int| 0 <= i < 8 implies (#[trigger] r@[i])@ == sp_corner(*obb, i) by {
            if i == 0 {
                assert(r@[0]@ == sp_corner(*obb, 0));
            } else if i == 1 {
                assert(r@[1]@ == sp_corner(*obb, 1));
            } else if i == 2 {
                assert(r@[2]@ == sp_corner(*obb, 2));
            } else if i == 3 {
                assert(r@[3]@ == sp_corner(*obb, 3));
            } else if i == 4 {
                assert(r@[4]@ == sp_corner(*obb, 4));
            } else if i == 5 {
                assert(r@[5]@ == sp_corner(*obb, 5));
            } else if i == 6 {
                assert(r@[6]@ == sp_corner(*obb, 6));
            } else {
                assert(r@[7]@ == sp_corner(*obb, 7));
            }
        }
    }
    r
}

/// Law: every corner of an orthogonal, nondegenerate box passes the
/// containment test for any nonnegative relative slack, and fails it for
/// any negative slack — the corners lie exactly on the boundary.
pub proof fn lemma_corner_points_inclusion(o: Obb3, i: int, en: int, ed: int)
    requires
        obb_nondegenerate(o),
        obb_orthogonal(o),
        0 <= i < 8,
        ed > 0,
    ensures
        en >= 0 ==> sp_include(o, sp_corner(o, i), en, ed),
        en < 0 ==> !sp_include(o, sp_corner(o, i), en, ed),
{
    let s = sp_corner_signs(i);
    let cr = sp_corner(o, i);
    let d = sp_sub(cr, o.center@);
    assert(d == sp_add(sp_flip(s.0, o.u@), sp_add(sp_flip(s.1, o.v@), sp_flip(s.2, o.w@))));
    let lu = sp_dot(o.u@, o.u@);
    let lv = sp_dot(o.v@, o.v@);
    let lw = sp_dot(o.w@, o.w@);
    lemma_dot_signed_sum(o.u@, s.0, o.u@, s.1, o.v@, s.2, o.w@);
    lemma_dot_signed_sum(o.v@, s.0, o.u@, s.1, o.v@, s.2, o.w@);
    lemma_dot_signed_sum(o.w@, s.0, o.u@, s.1, o.v@, s.2, o.w@);
    lemma_dot_comm(o.u@, o.v@);
    lemma_dot_comm(o.u@, o.w@);
    lemma_dot_comm(o.v@, o.w@);
    assert(sp_abs(sp_dot(o.u@, d)) == lu);
    assert(sp_abs(sp_dot(o.v@, d)) == lv);
    assert(sp_abs(sp_dot(o.w@, d)) == lw);
    if en >= 0 {
        assert(lu * ed <= lu * (ed + en)) by (nonlinear_arith)
            requires
                lu > 0,
                ed > 0,
                en >= 0,
        ;
        assert(lv * ed <= lv * (ed + en)) by (nonlinear_arith)
            requires
                lv > 0,
                ed > 0,
                en >= 0,
        ;
        assert(lw * ed <= lw * (ed + en)) by (nonlinear_arith)
            requires
                lw > 0,
                ed > 0,
                en >= 0,
        ;
    } else {
        assert(lu * ed > lu * (ed + en)) by (nonlinear_arith)
            requires
                lu > 0,
                ed > 0,
                en < 0,
        ;
    }
}

/// Law: the nearest-point query returns its argument unchanged (as a
/// rational point) exactly when the argument lies inside the box at zero
/// slack, for any orthogonal, nondegenerate box.
pub proof fn lemma_containment_nearest_consistency(o: Obb3, p: (int, int, int))
    requires
        obb_nondegenerate(o),
        obb_orthogonal(o),
    ensures
        sp_include(o, p, 0, 1) <==> sp_rat_is_point(sp_nearest(o, p).0, sp_nearest(o, p).1, p),
{
    if sp_include(o, p, 0, 1) {
        assert(1 * p.0 == p.0 && 1 * p.1 == p.1 && 1 * p.2 == p.2) by (nonlinear_arith);
    } else {
        let c = o.center@;
        let d = sp_sub(p, c);
        let lu = sp_dot(o.u@, o.u@);
        let lv = sp_dot(o.v@, o.v@);
        let lw = sp_dot(o.w@, o.w@);
        let du = sp_dot(o.u@, d);
        let dv = sp_dot(o.v@, d);
        let dw = sp_dot(o.w@, d);
        let tu = sp_clamp(du, lu);
        let tv = sp_clamp(dv, lv);
        let tw = sp_clamp(dw, lw);
        let vw = lv * lw;
        let uw = lu * lw;
        let uv = lu * lv;
        let den = lu * vw;
        let aa = vw * tu;
        let bb = uw * tv;
        let cc = uv * tw;
        let num = sp_nearest_num(o, p);
        if sp_rat_is_point(num, den, p) {
            assert(vw > 0) by (nonlinear_arith)
                requires
                    vw == lv * lw,
                    lv > 0,
                    lw > 0,
            ;
            assert(den > 0) by (nonlinear_arith)
                requires
                    den == lu * vw,
                    lu > 0,
                    vw > 0,
            ;
            assert(aa * o.u@.0 + bb * o.v@.0 + cc * o.w@.0 == den * d.0) by (nonlinear_arith)
                requires
                    den * c.0 + aa * o.u@.0 + bb * o.v@.0 + cc * o.w@.0 == den * p.0,
                    d.0 == p.0 - c.0,
            ;
            assert(aa * o.u@.1 + bb * o.v@.1 + cc * o.w@.1 == den * d.1) by (nonlinear_arith)
                requires
                    den * c.1 + aa * o.u@.1 + bb * o.v@.1 + cc * o.w@.1 == den * p.1,
                    d.1 == p.1 - c.1,
            ;
            assert(aa * o.u@.2 + bb * o.v@.2 + cc * o.w@.2 == den * d.2) by (nonlinear_arith)
                requires
                    den * c.2 + aa * o.u@.2 + bb * o.v@.2 + cc * o.w@.2 == den * p.2,
                    d.2 == p.2 - c.2,
            ;
            lemma_dot_linear_combo(o.u@, o.u@, o.v@, o.w@, d, aa, bb, cc, den);
            lemma_dot_linear_combo(o.v@, o.u@, o.v@, o.w@, d, aa, bb, cc, den);
            lemma_dot_linear_combo(o.w@, o.u@, o.v@, o.w@, d, aa, bb, cc, den);
            lemma_dot_comm(o.v@, o.u@);
            lemma_dot_comm(o.w@, o.u@);
            lemma_dot_comm(o.w@, o.v@);
            let zuv = sp_dot(o.u@, o.v@);
            let zuw = sp_dot(o.u@, o.w@);
            let zvw = sp_dot(o.v@, o.w@);
            assert(aa * zuv == 0 && bb * zuv == 0 && aa * zuw == 0 && cc * zuw == 0 && bb * zvw
                == 0 && cc * zvw == 0) by (nonlinear_arith)
                requires
                    zuv == 0,
                    zuw == 0,
                    zvw == 0,
            ;
            assert(aa * lu == den * du);
            assert(bb * lv == den * dv);
            assert(cc * lw == den * dw);
            assert((vw * tu) * lu == den * tu) by (nonlinear_arith)
                requires
                    den == lu * vw,
            ;
            assert((uw * tv) * lv == den * tv) by (nonlinear_arith)
                requires
                    den == lu * vw,
                    vw == lv * lw,
                    uw == lu * lw,
            ;
            assert((uv * tw) * lw == den * tw) by (nonlinear_arith)
                requires
                    den == lu * vw,
                    vw == lv * lw,
                    uv == lu * lv,
            ;
            assert(tu == du) by (nonlinear_arith)
                requires
                    den * tu == den * du,
                    den > 0,
            ;
            assert(tv == dv) by (nonlinear_arith)
                requires
                    den * tv == den * dv,
                    den > 0,
            ;
            assert(tw == dw) by (nonlinear_arith)
                requires
                    den * tw == den * dw,
                    den > 0,
            ;
            assert(false);
        }
    }
}

/// The rational `r` is exactly the squared separation the fifteen-axis
/// scan yields: an upper bound on the squared gap of every candidate axis,
/// attained on one of them unless no axis separates, in which case it is
/// `0 / 1`.
pub open spec fn sp_dist_sq_characterizes(a: Obb3, b: Obb3, r: (int, int)) -> bool {
    &&& r.1 > 0
    &&& 0 <= r.0
    &&& forall|i: int| 0 <= i < 15 ==> sp_gap_le(#[trigger] sp_gap_sq(a, b, i), r)
    &&& (r == ((0int, 1int))) || (exists|i: int|
        0 <= i < 15 && ((#[trigger] sp_gap_sq(a, b, i)) matches Some(p) && rat_eq(p, r)))
}

/// Index of the axis that plays the same role when the two boxes swap:
/// face axes of one box become the face axes of the other, and the cross
/// of edges `(ia, jb)` becomes the cross of edges `(jb, ia)`.
pub open spec fn sp_sym_axis(i: int) -> int {
    if i < 3 {
        i + 3
    } else if i < 6 {
        i - 3
    } else {
        6 + 3 * ((i - 6) % 3) + (i - 6) / 3
    }
}

/// Negating the projection axis mirrors the projection interval.
proof fn lemma_range_neg(o: Obb3, ax: (int, int, int))
    ensures
        sp_range(o, sp_neg(ax)) == (-sp_range(o, ax).1, -sp_range(o, ax).0),
{
    lemma_dot_neg_right(o.center@, ax);
    lemma_dot_neg_right(o.u@, ax);
    lemma_dot_neg_right(o.v@, ax);
    lemma_dot_neg_right(o.w@, ax);
}

/// Swapping the two boxes sends the squared gap along axis `i` to the
/// squared gap along `sp_sym_axis(i)`, unchanged as a pair.
pub proof fn lemma_gap_sq_symmetric(x: Obb3, y: Obb3, i: int)
    requires
        0 <= i < 15,
    ensures
        0 <= sp_sym_axis(i) < 15,
        sp_gap_sq(y, x, sp_sym_axis(i)) == sp_gap_sq(x, y, i),
{
    if i < 3 {
        let e = sp_edge(x, i);
        lemma_dot_self_nonneg(e);
        assert(sp_gap_sq(y, x, i + 3) == sp_gap_sq(x, y, i));
    } else if i < 6 {
        let e = sp_edge(y, i - 3);
        lemma_dot_self_nonneg(e);
        assert(sp_gap_sq(y, x, i - 3) == sp_gap_sq(x, y, i));
    } else {
        let ia = (i - 6) / 3;
        let jb = (i - 6) % 3;
        let ea = sp_edge(x, ia);
        let eb = sp_edge(y, jb);
        let ax = sp_cross(ea, eb);
        lemma_cross_antisym(ea, eb);
        lemma_range_neg(x, ax);
        lemma_range_neg(y, ax);
        lemma_dot_neg_left(ax, sp_neg(ax));
        lemma_dot_neg_right(ax, ax);
        let j = 6 + 3 * jb + ia;
        assert((j - 6) / 3 == jb && (j - 6) % 3 == ia);
        assert(sp_gap_sq(y, x, j) == sp_gap_sq(x, y, i));
    }
}

/// A squared gap that exists has a positive numerator and denominator.
proof fn lemma_gap_sq_some_pos(a: Obb3, b: Obb3, i: int)
    requires
        0 <= i < 15,
        sp_gap_sq(a, b, i) is Some,
    ensures
        sp_gap_sq(a, b, i) matches Some(p) ==> p.0 > 0 && p.1 > 0,
{
    if i < 3 {
        let e = sp_edge(a, i);
        if e == ((0int, 0int, 0int)) {
            lemma_dot_zero(e, e);
            lemma_dot_zero(a.center@, e);
            lemma_dot_zero(b.center@, e);
            lemma_dot_zero(b.u@, e);
            lemma_dot_zero(b.v@, e);
            lemma_dot_zero(b.w@, e);
            assert(false);
        } else {
            lemma_dot_self_pos(e);
        }
        match sp_sep(sp_own_interval(a, i), sp_range(b, e)) {
            Some(g) => {
                assert(g * g > 0) by (nonlinear_arith)
                    requires
                        g > 0,
                ;
            },
            None => {},
        }
    } else if i < 6 {
        let e = sp_edge(b, i - 3);
        if e == ((0int, 0int, 0int)) {
            lemma_dot_zero(e, e);
            lemma_dot_zero(a.center@, e);
            lemma_dot_zero(b.center@, e);
            lemma_dot_zero(a.u@, e);
            lemma_dot_zero(a.v@, e);
            lemma_dot_zero(a.w@, e);
            assert(false);
        } else {
            lemma_dot_self_pos(e);
        }
        match sp_sep(sp_range(a, e), sp_own_interval(b, i - 3)) {
            Some(g) => {
                assert(g * g > 0) by (nonlinear_arith)
                    requires
                        g > 0,
                ;
            },
            None => {},
        }
    } else {
        let ax = sp_cross(sp_edge(a, (i - 6) / 3), sp_edge(b, (i - 6) % 3));
        if ax == ((0int, 0int, 0int)) {
            lemma_dot_zero(a.center@, ax);
            lemma_dot_zero(a.u@, ax);
            lemma_dot_zero(a.v@, ax);
            lemma_dot_zero(a.w@, ax);
            lemma_dot_zero(b.center@, ax);
            lemma_dot_zero(b.u@, ax);
            lemma_dot_zero(b.v@, ax);
            lemma_dot_zero(b.w@, ax);
            assert(false);
        } else {
            lemma_dot_self_pos(ax);
        }
        match sp_sep(sp_range(a, ax), sp_range(b, ax)) {
            Some(g) => {
                assert(g * g > 0) by (nonlinear_arith)
                    requires
                        g > 0,
                ;
            },
            None => {},
        }
    }
}

/// One direction of the symmetry law: a characterized squared distance of
/// the swapped pair is bounded by the characterized squared distance of
/// the pair itself.
proof fn lemma_dist_le_part(a: Obb3, b: Obb3, r1: (int, int), r2: (int, int))
    requires
        sp_dist_sq_characterizes(a, b, r1),
        sp_dist_sq_characterizes(b, a, r2),
    ensures
        rat_le(r2, r1),
{
    if r2 == ((0int, 1int)) {
        assert(0 * r1.1 == 0 && r1.0 * 1 == r1.0) by (nonlinear_arith);
    } else {
        let j = choose|j: int|
            0 <= j < 15 && ((#[trigger] sp_gap_sq(b, a, j)) matches Some(p) && rat_eq(p, r2));
        lemma_gap_sq_symmetric(b, a, j);
        lemma_gap_sq_some_pos(b, a, j);
        match sp_gap_sq(b, a, j) {
            Some(p) => {
                assert(sp_gap_le(sp_gap_sq(a, b, sp_sym_axis(j)), r1));
                lemma_rat_eq_le(p, r2, r1);
            },
            None => {},
        }
    }
}

/// Law: the squared separation distance is symmetric in its two boxes —
/// any two rationals that the fifteen-axis characterization admits for the
/// pair and for the swapped pair are equal as rational values.
pub proof fn lemma_distance_symmetry(a: Obb3, b: Obb3, r1: (int, int), r2: (int, int))
    requires
        sp_dist_sq_characterizes(a, b, r1),
        sp_dist_sq_characterizes(b, a, r2),
    ensures
        rat_eq(r1, r2),
{
    lemma_dist_le_part(a, b, r1, r2);
    lemma_dist_le_part(b, a, r2, r1);
    lemma_rat_le_antisym(r1, r2);
}

} // verus!
