use del_geo_core::obb3::Obb3;
use del_geo_core::obb3::corner_points;
use del_geo_core::obb3::distance_between_two_ranges;
use del_geo_core::obb3::distance_squared_to_obb3;
use del_geo_core::obb3::is_include_point;
use del_geo_core::obb3::is_intersect_to_obb3;
use del_geo_core::obb3::nearest_to_point3;
use del_geo_core::obb3::range_axis;
use del_geo_core::vec3::Vec3;

fn v3(x: i128, y: i128, z: i128) -> Vec3 {
    Vec3 { x, y, z }
}

fn bx(c: [i128; 3], u: [i128; 3], v: [i128; 3], w: [i128; 3]) -> Obb3 {
    Obb3 {
        center: v3(c[0], c[1], c[2]),
        u: v3(u[0], u[1], u[2]),
        v: v3(v[0], v[1], v[2]),
        w: v3(w[0], w[1], w[2]),
    }
}

#[test]
fn test_nearest_to_point3() {
    let obb = bx([0, 0, 0], [2, 0, 0], [0, 3, 0], [0, 0, 4]);
    // a point inside comes back unchanged over denominator 1
    let inside = v3(1, 1, 1);
    let r = nearest_to_point3(&obb, &inside);
    assert_eq!(r.den, 1);
    assert_eq!(r.num, inside);
    // a point outside is clamped onto the surface: (5, 0, 1) projects to (2, 0, 1)
    let p = v3(5, 0, 1);
    let r = nearest_to_point3(&obb, &p);
    assert_eq!(r.den, 576); // 4 * 9 * 16
    assert_eq!(r.num, v3(2 * 576, 0, 576));
    // consistency both ways: the outside point is not included, the inside one is
    assert!(is_include_point(&obb, &inside, 0, 1));
    assert!(!is_include_point(&obb, &p, 0, 1));
}

#[test]
fn test_is_intersect_to_obb3() {
    let a = bx([0, 0, 0], [1, 0, 0], [0, 1, 0], [0, 0, 1]);
    let b = bx([1, 1, 0], [1, 0, 0], [0, 1, 0], [0, 0, 1]);
    let c = bx([4, 0, 0], [1, 0, 0], [0, 1, 0], [0, 0, 1]);
    assert!(is_intersect_to_obb3(&a, &b));
    assert!(!is_intersect_to_obb3(&a, &c));
    // agreement with the distance query on face-separated pairs
    let dab = distance_squared_to_obb3(&a, &b);
    assert_eq!((dab.num, dab.den), (0, 1));
    let dac = distance_squared_to_obb3(&a, &c);
    assert_eq!((dac.num, dac.den), (4, 1)); // gap 2, squared
}

#[test]
fn test2_is_intersect_to_obb3() {
    // Two boxes that are separated only along an edge-edge cross axis.
    // The six face-normal axes all overlap, so the intersection test
    // wrongly reports an overlap: the known incompleteness of the
    // six-axis candidate set.  The fifteen-axis distance query sees the
    // separation.
    let a = bx([0, 0, 0], [3, 0, 0], [0, 3, 0], [0, 0, 3]);
    let b = bx([-3, -7, 6], [2, 2, 1], [-2, 1, 2], [1, -2, 2]);
    let res0 = is_intersect_to_obb3(&a, &b);
    assert!(res0); // false positive of the six-axis test
    let d = distance_squared_to_obb3(&a, &b);
    assert!(d.num > 0); // the boxes are in fact disjoint
}

#[test]
fn test_corner_points_round_trip() {
    // an axis-aligned box and a rotated (still orthogonal) box
    let boxes = [
        bx([1, -2, 3], [2, 0, 0], [0, 3, 0], [0, 0, 4]),
        bx([-3, -7, 6], [2, 2, 1], [-2, 1, 2], [1, -2, 2]),
    ];
    for obb in boxes.iter() {
        let cs = corner_points(obb);
        assert_eq!(cs.len(), 8);
        for c in cs.iter() {
            // on the boundary: included for any nonnegative slack
            assert!(is_include_point(obb, c, 0, 1));
            assert!(is_include_point(obb, c, 1, 100));
            // excluded for a negative slack
            assert!(!is_include_point(obb, c, -1, 100));
        }
    }
    // explicit corner order of the first box
    let cs = corner_points(&boxes[0]);
    assert_eq!(cs[0], v3(-1, -5, -1));
    assert_eq!(cs[6], v3(3, 1, 7));
}

#[test]
fn test_is_include_point_eps() {
    let obb = bx([0, 0, 0], [2, 0, 0], [0, 2, 0], [0, 0, 2]);
    let corner = v3(2, 2, 2);
    assert!(is_include_point(&obb, &corner, 0, 1));
    assert!(!is_include_point(&obb, &corner, -1, 100));
    let outside = v3(3, 0, 0);
    assert!(!is_include_point(&obb, &outside, 0, 1));
    // a 50% slack stretches the box to |d| <= 6 along x
    assert!(is_include_point(&obb, &outside, 1, 2));
}

#[test]
fn test_range_axis_exact() {
    let obb = bx([1, 2, 3], [2, 0, 0], [0, 3, 0], [0, 0, 4]);
    let axis = v3(1, 0, 0);
    assert_eq!(range_axis(&obb, &axis), (-1, 3));
    let diag = v3(1, 1, 1);
    // center projects to 6, half-width |2| + |3| + |4| = 9
    assert_eq!(range_axis(&obb, &diag), (-3, 15));
}

#[test]
fn test_distance_between_two_ranges_cases() {
    assert_eq!(distance_between_two_ranges((5, 7), (0, 2)), Some(3));
    assert_eq!(distance_between_two_ranges((0, 2), (5, 7)), Some(3));
    assert_eq!(distance_between_two_ranges((0, 5), (3, 7)), None);
    // touching intervals count as overlapping
    assert_eq!(distance_between_two_ranges((0, 2), (2, 4)), None);
}

#[test]
fn test_distance_symmetry() {
    let pairs = [
        (
            bx([0, 0, 0], [3, 0, 0], [0, 3, 0], [0, 0, 3]),
            bx([-3, -7, 6], [2, 2, 1], [-2, 1, 2], [1, -2, 2]),
        ),
        (
            bx([0, 0, 0], [1, 0, 0], [0, 1, 0], [0, 0, 1]),
            bx([5, 4, 0], [2, 2, 1], [-2, 1, 2], [1, -2, 2]),
        ),
    ];
    for (a, b) in pairs.iter() {
        let d1 = distance_squared_to_obb3(a, b);
        let d2 = distance_squared_to_obb3(b, a);
        // equal as rational values
        assert_eq!(d1.num * d2.den, d2.num * d1.den);
    }
}

// squared distance between the integer point `p` and the rational point
// `r`, as an exact rational (numerator, denominator)
fn dist_sq(p: &Vec3, r: &del_geo_core::ratio::RatPoint) -> (i128, i128) {
    let dx = r.num.x - r.den * p.x;
    let dy = r.num.y - r.den * p.y;
    let dz = r.num.z - r.den * p.z;
    (dx * dx + dy * dy + dz * dz, r.den * r.den)
}

#[test]
fn test_projection_descent() {
    // for a point outside the box, no projection of a nearby point gets
    // closer to it than its own projection does
    let obb = bx([0, 0, 0], [2, 0, 0], [0, 3, 0], [0, 0, 4]);
    let p = v3(5, 5, 1);
    let p_near = nearest_to_point3(&obb, &p); // the exact nearest point (2, 3, 1)
    assert_eq!(p_near.den, 576);
    assert_eq!(p_near.num, v3(2 * 576, 3 * 576, 576));
    let base = dist_sq(&p, &p_near);
    let perturbed = [
        v3(3, 3, 1),
        v3(2, 4, 1),
        v3(1, 2, 0),
        v3(2, 3, 2),
        v3(3, 4, 1),
        v3(2, 2, 1),
    ];
    for q in perturbed.iter() {
        let r = nearest_to_point3(&obb, q);
        let other = dist_sq(&p, &r);
        // base <= other, compared exactly by cross-multiplication
        assert!(base.0 * other.1 <= other.0 * base.1);
    }
}

#[test]
fn test_distance_zero_when_overlapping() {
    let a = bx([0, 0, 0], [2, 0, 0], [0, 2, 0], [0, 0, 2]);
    let b = bx([1, 1, 1], [2, 2, 1], [-2, 1, 2], [1, -2, 2]);
    let d = distance_squared_to_obb3(&a, &b);
    assert_eq!((d.num, d.den), (0, 1));
    assert!(is_intersect_to_obb3(&a, &b));
}
