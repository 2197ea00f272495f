use vstd::prelude::*;

verus! {

use crate::board::DartThrow;

// The board's 20 wedges each span 18 degrees of angle around the center,
// measured clockwise from the +y axis, with wedge boundaries offset by
// 9 degrees so that they fall between segment centers. Wedge k covers the
// angles from 18k - 9 to 18k + 9 degrees.
//
// Membership is decided exactly, in integer arithmetic: the boundary between
// wedge k and wedge k+1 is the ray whose direction is
// (sin(18k + 9°), cos(18k + 9°)), held here in fixed point, scaled by 10^5.
// A point lies clockwise of such a ray exactly when the cross product of the
// ray direction with the point is negative.

/// Largest coordinate magnitude accepted by the wedge search; keeps every
/// cross product far from the i64 limits.
pub const SEG_COORD_LIMIT: i64 = 1_000_000_000_000;

/// x component of the boundary ray that ends wedge k (at 18k + 9 degrees),
/// scaled by 10^5.
pub open spec fn ray_x(k: int) -> int {
    if k == 0 { 15643 }
    else if k == 1 { 45399 }
    else if k == 2 { 70711 }
    else if k == 3 { 89101 }
    else if k == 4 { 98769 }
    else if k == 5 { 98769 }
    else if k == 6 { 89101 }
    else if k == 7 { 70711 }
    else if k == 8 { 45399 }
    else if k == 9 { 15643 }
    else if k == 10 { -15643 }
    else if k == 11 { -45399 }
    else if k == 12 { -70711 }
    else if k == 13 { -89101 }
    else if k == 14 { -98769 }
    else if k == 15 { -98769 }
    else if k == 16 { -89101 }
    else if k == 17 { -70711 }
    else if k == 18 { -45399 }
    else { -15643 }
}

/// y component of the boundary ray that ends wedge k, scaled by 10^5.
pub open spec fn ray_y(k: int) -> int {
    if k == 0 { 98769 }
    else if k == 1 { 89101 }
    else if k == 2 { 70711 }
    else if k == 3 { 45399 }
    else if k == 4 { 15643 }
    else if k == 5 { -15643 }
    else if k == 6 { -45399 }
    else if k == 7 { -70711 }
    else if k == 8 { -89101 }
    else if k == 9 { -98769 }
    else if k == 10 { -98769 }
    else if k == 11 { -89101 }
    else if k == 12 { -70711 }
    else if k == 13 { -45399 }
    else if k == 14 { -15643 }
    else if k == 15 { 15643 }
    else if k == 16 { 45399 }
    else if k == 17 { 70711 }
    else if k == 18 { 89101 }
    else { 98769 }
}

/// Cross product of boundary ray k with the point (x, y): positive while the
/// point lies counterclockwise of the ray, negative once clockwise of it.
pub open spec fn ray_cross(k: int, x: int, y: int) -> int {
    ray_x(k) * y - ray_y(k) * x
}

/// The boundary ray that opens wedge k is the one that ends wedge k - 1.
pub open spec fn prev_ray(k: int) -> int {
    if k == 0 { 19 } else { k - 1 }
}

/// The point (x, y) lies in wedge k: at or past the ray that opens it,
/// and strictly before the ray that ends it.
pub open spec fn in_wedge(k: int, x: int, y: int) -> bool {
    ray_cross(prev_ray(k), x, y) <= 0 && ray_cross(k, x, y) > 0
}

/// The first wedge at or after k that contains (x, y), or 20 if none does.
pub open spec fn first_wedge_from(k: int, x: int, y: int) -> int
    decreases 20 - k when k <= 20
{
    if k < 0 || k >= 20 {
        20
    } else if in_wedge(k, x, y) {
        k
    } else {
        first_wedge_from(k + 1, x, y)
    }
}

/// The wedge containing (x, y); every nonzero point lies in exactly the one
/// this search finds first.
pub open spec fn wedge_index(x: int, y: int) -> int {
    first_wedge_from(0, x, y)
}

/// The standard dartboard segment numbering, clockwise from the top wedge.
pub open spec fn segment_of_wedge(k: int) -> int {
    if k == 0 { 20 }
    else if k == 1 { 1 }
    else if k == 2 { 18 }
    else if k == 3 { 4 }
    else if k == 4 { 13 }
    else if k == 5 { 6 }
    else if k == 6 { 10 }
    else if k == 7 { 15 }
    else if k == 8 { 2 }
    else if k == 9 { 17 }
    else if k == 10 { 3 }
    else if k == 11 { 19 }
    else if k == 12 { 7 }
    else if k == 13 { 16 }
    else if k == 14 { 8 }
    else if k == 15 { 11 }
    else if k == 16 { 14 }
    else if k == 17 { 9 }
    else if k == 18 { 12 }
    else if k == 19 { 5 }
    else { 0 }
}

/// The wedge whose segment number is v, for v in 1..=20.
pub open spec fn wedge_of_segment(v: int) -> int {
    if v == 1 { 1 }
    else if v == 2 { 8 }
    else if v == 3 { 10 }
    else if v == 4 { 3 }
    else if v == 5 { 19 }
    else if v == 6 { 5 }
    else if v == 7 { 12 }
    else if v == 8 { 14 }
    else if v == 9 { 17 }
    else if v == 10 { 6 }
    else if v == 11 { 15 }
    else if v == 12 { 18 }
    else if v == 13 { 4 }
    else if v == 14 { 16 }
    else if v == 15 { 7 }
    else if v == 16 { 13 }
    else if v == 17 { 9 }
    else if v == 18 { 2 }
    else if v == 19 { 11 }
    else { 0 }
}

/// The segment number, 1 to 20, that the point (x, y) scores in.
pub open spec fn segment_spec(x: int, y: int) -> int {
    segment_of_wedge(wedge_index(x, y))
}

/// The segment numbering is a bijection between the 20 wedges and 1..=20:
/// wedge_of_segment inverts segment_of_wedge, so distinct wedges carry
/// distinct segment numbers and every number in 1..=20 is carried by one.
pub proof fn lemma_segment_numbering_bijective()
    ensures
        forall|k: int| 0 <= k < 20 ==> 1 <= #[trigger] segment_of_wedge(k) <= 20,
        forall|k: int| 0 <= k < 20 ==> wedge_of_segment(#[trigger] segment_of_wedge(k)) == k,
        forall|v: int| 1 <= v <= 20 ==> segment_of_wedge(#[trigger] wedge_of_segment(v)) == v,
        forall|k1: int, k2: int|
            0 <= k1 < 20 && 0 <= k2 < 20 && k1 != k2
                ==> #[trigger] segment_of_wedge(k1) != #[trigger] segment_of_wedge(k2),
{
    assert forall|k1: int, k2: int|
        0 <= k1 < 20 && 0 <= k2 < 20 && k1 != k2
            implies #[trigger] segment_of_wedge(k1) != #[trigger] segment_of_wedge(k2) by {
        assert(wedge_of_segment(segment_of_wedge(k1)) == k1);
        assert(wedge_of_segment(segment_of_wedge(k2)) == k2);
    }
}

/// The two boundary rays half a turn apart are exact negations of each other,
/// so their cross products with any point are exact negations too.
pub proof fn lemma_cross_antipodal(k: int, x: int, y: int)
    requires
        0 <= k < 20,
    ensures
        ray_cross((k + 10) % 20, x, y) == -ray_cross(k, x, y),
{
    assert(ray_x((k + 10) % 20) == -ray_x(k));
    assert(ray_y((k + 10) % 20) == -ray_y(k));
    assert((-ray_x(k)) * y == -(ray_x(k) * y)) by (nonlinear_arith);
    assert((-ray_y(k)) * x == -(ray_y(k) * x)) by (nonlinear_arith);
}

/// Every nonzero point lies strictly counterclockwise of some boundary ray.
pub proof fn lemma_positive_cross_exists(x: int, y: int)
    requires
        x != 0 || y != 0,
    ensures
        exists|k: int| 0 <= k < 20 && ray_cross(k, x, y) > 0,
{
    let c0 = ray_cross(0, x, y);
    if c0 > 0 {
        assert(0 <= 0 < 20 && ray_cross(0, x, y) > 0);
    } else if c0 < 0 {
        lemma_cross_antipodal(0, x, y);
        assert(ray_cross(10, x, y) > 0);
    } else {
        // The point is parallel to ray 0, so 15643 * y == 98769 * x.
        // Ray 5 is a quarter turn further: its cross product with the point
        // has the sign of x, because
        // 15643 * ray_cross(5, x, y) == (98769^2 + 15643^2) * x.
        let c5 = ray_cross(5, x, y);
        assert(15643 * y == 98769 * x);
        assert(c5 == 98769 * y + 15643 * x);
        assert(15643 * c5 == 15643 * (98769 * y) + 15643 * (15643 * x));
        assert(15643 * (98769 * y) == 98769 * (15643 * y));
        assert(15643 * c5 == 10000018810 * x);
        if x > 0 {
            assert(c5 > 0);
            assert(0 <= 5 < 20 && ray_cross(5, x, y) > 0);
        } else if x < 0 {
            assert(c5 < 0);
            lemma_cross_antipodal(5, x, y);
            assert(ray_cross(15, x, y) > 0);
        } else {
            assert(y == 0);
            assert(false);
        }
    }
}

/// Walking counterclockwise from a ray the point is at or past, toward one it
/// is strictly before, crosses a wedge that contains the point.
#[verifier::rlimit(30)]
proof fn lemma_find_transition(x: int, y: int, a: int, d: int)
    requires
        0 <= a < 20,
        1 <= d <= 19,
        ray_cross(a, x, y) <= 0,
        ray_cross((a + d) % 20, x, y) > 0,
    ensures
        exists|k: int| 0 <= k < 20 && in_wedge(k, x, y),
    decreases d,
{
    let b = (a + d) % 20;
    assert(b == if a + d < 20 { a + d } else { a + d - 20 });
    if d == 1 {
        assert(prev_ray(b) == a);
        assert(in_wedge(b, x, y));
        assert(0 <= b < 20 && in_wedge(b, x, y));
    } else {
        let m = (a + d - 1) % 20;
        assert(m == if a + d - 1 < 20 { a + d - 1 } else { a + d - 1 - 20 });
        if ray_cross(m, x, y) > 0 {
            lemma_find_transition(x, y, a, d - 1);
        } else {
            assert(prev_ray(b) == m);
            assert(in_wedge(b, x, y));
            assert(0 <= b < 20 && in_wedge(b, x, y));
        }
    }
}

/// Every nonzero point lies in some wedge.
pub proof fn lemma_wedge_exists(x: int, y: int)
    requires
        x != 0 || y != 0,
    ensures
        exists|k: int| 0 <= k < 20 && in_wedge(k, x, y),
{
    lemma_positive_cross_exists(x, y);
    let j = choose|j: int| 0 <= j < 20 && ray_cross(j, x, y) > 0;
    lemma_cross_antipodal(j, x, y);
    let a = (j + 10) % 20;
    assert(ray_cross(a, x, y) <= 0);
    assert((a + 10) % 20 == j);
    lemma_find_transition(x, y, a, 10);
}

/// The search from lo stops exactly at the first wedge that contains the point.
proof fn lemma_first_wedge_from(lo: int, k: int, x: int, y: int)
    requires
        0 <= lo <= k < 20,
        in_wedge(k, x, y),
        forall|j: int| lo <= j < k ==> !in_wedge(j, x, y),
    ensures
        first_wedge_from(lo, x, y) == k,
    decreases k - lo,
{
    if lo < k {
        assert(!in_wedge(lo, x, y));
        lemma_first_wedge_from(lo + 1, k, x, y);
    }
}

/// A point inside a wedge stays counterclockwise of the next eight boundary
/// rays: the rays it is between span less than half a turn to each of them.
#[verifier::rlimit(100)]
#[verifier::spinoff_prover]
proof fn lemma_arc_positive(x: int, y: int, a: int, j: int)
    requires
        0 <= a < 20,
        1 <= j <= 8,
        ray_cross(prev_ray(a), x, y) <= 0,
        ray_cross(a, x, y) > 0,
    ensures
        ray_cross((a + j) % 20, x, y) > 0,
{
    if j == 1 {
        assert(ray_cross((a + 1) % 20, x, y) > 0);
    } else if j == 2 {
        assert(ray_cross((a + 2) % 20, x, y) > 0);
    } else if j == 3 {
        assert(ray_cross((a + 3) % 20, x, y) > 0);
    } else if j == 4 {
        assert(ray_cross((a + 4) % 20, x, y) > 0);
    } else if j == 5 {
        assert(ray_cross((a + 5) % 20, x, y) > 0);
    } else if j == 6 {
        assert(ray_cross((a + 6) % 20, x, y) > 0);
    } else if j == 7 {
        assert(ray_cross((a + 7) % 20, x, y) > 0);
    } else {
        assert(ray_cross((a + 8) % 20, x, y) > 0);
    }
}

/// Every point lies in at most one wedge; with lemma_wedge_exists, the 20
/// wedges partition the nonzero plane, so together with the segment
/// numbering's bijectivity every nonzero point carries exactly one segment.
pub proof fn lemma_wedge_unique(x: int, y: int, a: int, b: int)
    requires
        0 <= a < 20,
        0 <= b < 20,
        a != b,
        in_wedge(a, x, y),
    ensures
        !in_wedge(b, x, y),
{
    if in_wedge(b, x, y) {
        // How far b lies ahead of a, walking the wedges in order.
        let d = if b > a { b - a } else { b + 20 - a };
        assert(1 <= d <= 19);
        assert(b == (a + d) % 20);
        if d <= 9 {
            // The ray that opens wedge b is the one that ends wedge a, or
            // one of the eight rays after it; the point lies strictly
            // counterclockwise of each, so it cannot open wedge b.
            if d == 1 {
                assert(prev_ray(b) == a);
            } else {
                lemma_arc_positive(x, y, a, d - 1);
                assert(prev_ray(b) == (a + (d - 1)) % 20);
            }
            assert(ray_cross(prev_ray(b), x, y) > 0);
            assert(false);
        } else if d == 10 {
            // Wedge b closes with the ray opposite the one that closes
            // wedge a, so the cross product there has flipped sign.
            lemma_cross_antipodal(a, x, y);
            assert(ray_cross(b, x, y) < 0);
            assert(false);
        } else if d <= 18 {
            // Wedge b closes with the ray opposite one of the eight rays
            // after wedge a; the flipped sign is negative.
            let m = (a + (d - 10)) % 20;
            lemma_arc_positive(x, y, a, d - 10);
            assert(0 <= m < 20);
            lemma_cross_antipodal(m, x, y);
            assert(b == (m + 10) % 20);
            assert(ray_cross(b, x, y) < 0);
            assert(false);
        } else {
            // d == 19: wedge b closes with the ray opposite the one that
            // opens wedge a, where the cross product cannot be positive.
            lemma_cross_antipodal(prev_ray(a), x, y);
            assert(b == (prev_ray(a) + 10) % 20);
            assert(ray_cross(b, x, y) <= 0);
            assert(false);
        }
    }
}

/// The four cardinal directions land in the expected wedges: due "north"
/// (straight up) is segment 20, due south segment 3, due east segment 6,
/// and due west segment 11, at any distance from the center.
pub proof fn lemma_cardinal_segments(r: int)
    requires
        r > 0,
    ensures
        segment_spec(0, r) == 20,
        segment_spec(0, -r) == 3,
        segment_spec(r, 0) == 6,
        segment_spec(-r, 0) == 11,
{
    // North: wedge 0 opens at ray 19 and closes at ray 0.
    assert(ray_cross(19, 0, r) == -15643 * r);
    assert(ray_cross(0, 0, r) == 15643 * r);
    assert(in_wedge(0, 0, r));
    lemma_first_wedge_from(0, 0, 0, r);
    // South: rays 0 through 9 all point upward, so their cross products with
    // (0, -r) are negative, and the search passes wedges 0 through 9.
    assert forall|j: int| 0 <= j < 10 implies !(#[trigger] in_wedge(j, 0, -r)) by {
        assert(ray_cross(j, 0, -r) == ray_x(j) * (-r) - ray_y(j) * 0);
        assert(ray_x(j) * (-r) < 0) by (nonlinear_arith)
            requires
                ray_x(j) > 0,
                r > 0,
        ;
    }
    assert(ray_cross(9, 0, -r) == 15643 * (-r));
    assert(ray_cross(10, 0, -r) == (-15643) * (-r));
    assert((-15643) * (-r) == 15643 * r) by (nonlinear_arith);
    assert(in_wedge(10, 0, -r));
    lemma_first_wedge_from(0, 10, 0, -r);
    // East: rays 0 through 4 have positive y components, so their cross
    // products with (r, 0) are negative, and the search passes wedges 0..=4.
    assert forall|j: int| 0 <= j < 5 implies !(#[trigger] in_wedge(j, r, 0)) by {
        assert(ray_cross(j, r, 0) == ray_x(j) * 0 - ray_y(j) * r);
        assert(ray_y(j) * r > 0) by (nonlinear_arith)
            requires
                ray_y(j) > 0,
                r > 0,
        ;
    }
    assert(ray_cross(4, r, 0) == -(15643 * r));
    assert(ray_cross(5, r, 0) == -((-15643) * r));
    assert((-15643) * r == -(15643 * r)) by (nonlinear_arith);
    assert(in_wedge(5, r, 0));
    lemma_first_wedge_from(0, 5, r, 0);
    // West: wedges 0 through 4 fail on their opening rays, whose cross
    // products with (-r, 0) are positive; wedges 5 through 14 fail on their
    // closing rays, whose cross products are negative.
    assert forall|j: int| 0 <= j < 15 implies !(#[trigger] in_wedge(j, -r, 0)) by {
        let m = prev_ray(j);
        assert(ray_cross(m, -r, 0) == ray_x(m) * 0 - ray_y(m) * (-r));
        assert(ray_x(m) * 0 == 0) by (nonlinear_arith);
        assert(ray_y(m) * (-r) == -(ray_y(m) * r)) by (nonlinear_arith);
        assert(ray_cross(j, -r, 0) == ray_x(j) * 0 - ray_y(j) * (-r));
        assert(ray_x(j) * 0 == 0) by (nonlinear_arith);
        assert(ray_y(j) * (-r) == -(ray_y(j) * r)) by (nonlinear_arith);
        assert(ray_cross(m, -r, 0) == ray_y(m) * r);
        assert(ray_cross(j, -r, 0) == ray_y(j) * r);
        if j < 5 {
            assert(ray_y(m) * r > 0) by (nonlinear_arith)
                requires
                    ray_y(m) > 0,
                    r > 0,
            ;
        } else {
            assert(ray_y(j) * r < 0) by (nonlinear_arith)
                requires
                    ray_y(j) < 0,
                    r > 0,
            ;
        }
    }
    assert(ray_cross(14, -r, 0) == (-15643) * r);
    assert(ray_cross(15, -r, 0) == 15643 * r);
    assert((-15643) * r <= 0) by (nonlinear_arith)
        requires
            r > 0,
    ;
    assert(in_wedge(15, -r, 0));
    lemma_first_wedge_from(0, 15, -r, 0);
}

/// Both components of every boundary ray are below 10^5 in magnitude.
proof fn lemma_ray_bounds(k: int)
    requires
        0 <= k < 20,
    ensures
        -100000 <= ray_x(k) <= 100000,
        -100000 <= ray_y(k) <= 100000,
{
}

/// The cross product of boundary ray k with the point (x, y).
fn ray_cross_exec(k: usize, x: i64, y: i64) -> (c: i64)
    requires
        k < 20,
        -SEG_COORD_LIMIT <= x <= SEG_COORD_LIMIT,
        -SEG_COORD_LIMIT <= y <= SEG_COORD_LIMIT,
    ensures
        c == ray_cross(k as int, x as int, y as int),
{
    proof {
        lemma_ray_bounds(k as int);
    }
    let rx: i64 = if k == 0 { 15643 }
    else if k == 1 { 45399 }
    else if k == 2 { 70711 }
    else if k == 3 { 89101 }
    else if k == 4 { 98769 }
    else if k == 5 { 98769 }
    else if k == 6 { 89101 }
    else if k == 7 { 70711 }
    else if k == 8 { 45399 }
    else if k == 9 { 15643 }
    else if k == 10 { -15643 }
    else if k == 11 { -45399 }
    else if k == 12 { -70711 }
    else if k == 13 { -89101 }
    else if k == 14 { -98769 }
    else if k == 15 { -98769 }
    else if k == 16 { -89101 }
    else if k == 17 { -70711 }
    else if k == 18 { -45399 }
    else { -15643 };
    let ry: i64 = if k == 0 { 98769 }
    else if k == 1 { 89101 }
    else if k == 2 { 70711 }
    else if k == 3 { 45399 }
    else if k == 4 { 15643 }
    else if k == 5 { -15643 }
    else if k == 6 { -45399 }
    else if k == 7 { -70711 }
    else if k == 8 { -89101 }
    else if k == 9 { -98769 }
    else if k == 10 { -98769 }
    else if k == 11 { -89101 }
    else if k == 12 { -70711 }
    else if k == 13 { -45399 }
    else if k == 14 { -15643 }
    else if k == 15 { 15643 }
    else if k == 16 { 45399 }
    else if k == 17 { 70711 }
    else if k == 18 { 89101 }
    else { 98769 };
    assert(rx == ray_x(k as int));
    assert(ry == ray_y(k as int));
    assert(-100000 * SEG_COORD_LIMIT <= rx * y <= 100000 * SEG_COORD_LIMIT)
        by (nonlinear_arith)
        requires
            -100000 <= rx <= 100000,
            -SEG_COORD_LIMIT <= y <= SEG_COORD_LIMIT,
    ;
    assert(-100000 * SEG_COORD_LIMIT <= ry * x <= 100000 * SEG_COORD_LIMIT)
        by (nonlinear_arith)
        requires
            -100000 <= ry <= 100000,
            -SEG_COORD_LIMIT <= x <= SEG_COORD_LIMIT,
    ;
    rx * y - ry * x
}

/// The segment number of wedge k, as a machine integer.
fn segment_of_wedge_exec(k: usize) -> (s: u8)
    requires
        k < 20,
    ensures
        s as int == segment_of_wedge(k as int),
        1 <= s <= 20,
{
    if k == 0 { 20 }
    else if k == 1 { 1 }
    else if k == 2 { 18 }
    else if k == 3 { 4 }
    else if k == 4 { 13 }
    else if k == 5 { 6 }
    else if k == 6 { 10 }
    else if k == 7 { 15 }
    else if k == 8 { 2 }
    else if k == 9 { 17 }
    else if k == 10 { 3 }
    else if k == 11 { 19 }
    else if k == 12 { 7 }
    else if k == 13 { 16 }
    else if k == 14 { 8 }
    else if k == 15 { 11 }
    else if k == 16 { 14 }
    else if k == 17 { 9 }
    else if k == 18 { 12 }
    else { 5 }
}

/// The segment, 1 to 20, whose wedge the throw landed in.
pub fn compute_segment(throw: DartThrow) -> (s: u8)
    requires
        throw.x != 0 || throw.y != 0,
        -SEG_COORD_LIMIT <= throw.x <= SEG_COORD_LIMIT,
        -SEG_COORD_LIMIT <= throw.y <= SEG_COORD_LIMIT,
    ensures
        s as int == segment_spec(throw.x as int, throw.y as int),
        1 <= s <= 20,
{
    let x = throw.x;
    let y = throw.y;
    let mut k: usize = 0;
    while k < 20
        invariant
            k <= 20,
            x == throw.x,
            y == throw.y,
            throw.x != 0 || throw.y != 0,
            -SEG_COORD_LIMIT <= x <= SEG_COORD_LIMIT,
            -SEG_COORD_LIMIT <= y <= SEG_COORD_LIMIT,
            forall|j: int| 0 <= j < k ==> !in_wedge(j, x as int, y as int),
        decreases 20 - k,
    {
        let p: usize = if k == 0 { 19 } else { k - 1 };
        let cp = ray_cross_exec(p, x, y);
        let ck = ray_cross_exec(k, x, y);
        if cp <= 0 && ck > 0 {
            proof {
                assert(p as int == prev_ray(k as int));
                assert(in_wedge(k as int, x as int, y as int));
                lemma_first_wedge_from(0, k as int, x as int, y as int);
            }
            return segment_of_wedge_exec(k);
        }
        proof {
            assert(!in_wedge(k as int, x as int, y as int));
        }
        k += 1;
    }
    proof {
        lemma_wedge_exists(x as int, y as int);
        assert(false);
    }
    20
}

} // verus!
