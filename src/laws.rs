use vstd::prelude::*;

use crate::ring::{
    lemma_scaled_fraction_bound,
    horizontal_radius, normalized, ring_distance, ring_local, ring_offset, shift_origin_spec, shift_term,
    INNER_RADIUS, INNER_SHIFT, OUTER_RADIUS, OUTER_SHIFT,
};
use crate::sqrt::{floor_sqrt, lemma_floor_sqrt_at_least, lemma_floor_sqrt_bounds};
use crate::surface::{box_max, box_min, composite_distance, shell_distance};
use crate::vector::{abs, lemma_abs_square, norm_sq, Point3, SCALE};

verus! {

proof fn lemma_normalized_sign(c: int, r: int)
    requires
        r > 0,
    ensures
        normalized(c, r) < 0 ==> c < 0,
        normalized(c, r) > 0 ==> c > 0,
        normalized(c, r) == 0 ==> abs(c) * SCALE < r,
{
    let m = abs(c);
    vstd::arithmetic::div_mod::lemma_div_pos_is_pos(m * SCALE, r);
    vstd::arithmetic::div_mod::lemma_fundamental_div_mod(m * SCALE, r);
    vstd::arithmetic::div_mod::lemma_mod_pos_bound(m * SCALE, r);
    assert(m * SCALE >= 0) by (nonlinear_arith)
        requires m >= 0;
    let q = m * SCALE / r;
    if q == 0 {
        assert(r * q == 0) by (nonlinear_arith)
            requires q == 0;
    }
}

proof fn lemma_shift_term_sign(n: int, shift: int)
    requires
        shift >= 0,
    ensures
        n < 0 ==> shift_term(n, shift) >= 0,
        n >= 0 ==> shift_term(n, shift) <= 0,
{
    if n < 0 {
        vstd::arithmetic::div_mod::lemma_div_pos_is_pos(shift * (-n), 10000);
    } else {
        vstd::arithmetic::div_mod::lemma_div_pos_is_pos(shift * n, 10000);
    }
}

/// Off the vertical axis, the two direction fractions cannot both round to zero.
proof fn lemma_direction_not_zero(a: int, b: int, r: int)
    requires
        0 <= a,
        0 <= b,
        0 < r,
        r * r <= a * a + b * b,
    ensures
        a * SCALE >= r || b * SCALE >= r,
{
    if a * SCALE >= r || b * SCALE >= r {
        return;
    }
    assert((a * SCALE) * (a * SCALE) < r * r) by (nonlinear_arith)
        requires 0 <= a * SCALE < r;
    assert((b * SCALE) * (b * SCALE) < r * r) by (nonlinear_arith)
        requires 0 <= b * SCALE < r;
    assert((a * a + b * b) * (SCALE * SCALE) < 2 * (r * r)) by (nonlinear_arith)
        requires
            (a * SCALE) * (a * SCALE) < r * r,
            (b * SCALE) * (b * SCALE) < r * r,
    ;
    assert((r * r) * (SCALE * SCALE) <= (a * a + b * b) * (SCALE * SCALE)) by (nonlinear_arith)
        requires r * r <= a * a + b * b;
    assert((r * r) * (SCALE * SCALE) >= 2 * (r * r)) by (nonlinear_arith)
        requires r > 0;
}

/// Shifting a ring's centre never brings `p` nearer to it horizontally: on each
/// horizontal axis the centre moves to the far side from `p`, or stays on the axis.
pub proof fn lemma_ring_local_pushes_out(p: Point3, shift: int)
    requires
        shift >= 0,
    ensures
        abs(ring_local(p, shift).0) == abs(p.x as int) + abs(ring_offset(p, shift).0),
        abs(ring_local(p, shift).2) == abs(p.z as int) + abs(ring_offset(p, shift).1),
{
    let r = horizontal_radius(p);
    let x = p.x as int;
    let z = p.z as int;
    let xn = normalized(x, r);
    let zn = normalized(z, r);
    let o = shift_origin_spec(xn, zn, shift);
    lemma_shift_term_sign(xn, shift);
    lemma_shift_term_sign(zn, shift);
    if r <= 0 {
        lemma_abs_square(x);
        lemma_abs_square(z);
        assert(x * x >= 0 && z * z >= 0) by (nonlinear_arith);
        let n = (x * x + z * z) as nat;
        lemma_floor_sqrt_bounds(n);
        assert(floor_sqrt(n) == 0);
        assert((0nat + 1) * (0nat + 1) == 1) by (nonlinear_arith);
        assert(x * x + z * z < 1);
        assert(x == 0 && z == 0) by (nonlinear_arith)
            requires x * x + z * z < 1;
    } else {
        lemma_normalized_sign(x, r);
        lemma_normalized_sign(z, r);
        if xn == 0 && zn == 0 {
            lemma_floor_sqrt_bounds((x * x + z * z) as nat);
            lemma_abs_square(x);
            lemma_abs_square(z);
            lemma_direction_not_zero(abs(x), abs(z), r);
        }
    }
}

/// Every point farther from the origin than the outer sphere's radius plus its
/// shift lies outside the solid.
pub proof fn lemma_far_points_are_outside(p: Point3)
    requires
        norm_sq(p.x as int, p.y as int, p.z as int) > (OUTER_RADIUS + OUTER_SHIFT) * (
        OUTER_RADIUS + OUTER_SHIFT),
    ensures
        composite_distance(p) > 0,
{
    let l = ring_local(p, OUTER_SHIFT as int);
    lemma_ring_local_pushes_out(p, OUTER_SHIFT as int);
    lemma_abs_square(l.0);
    lemma_abs_square(l.2);
    lemma_abs_square(p.x as int);
    lemma_abs_square(p.z as int);
    assert(l.0 * l.0 >= p.x * p.x && l.2 * l.2 >= p.z * p.z) by (nonlinear_arith)
        requires
            abs(l.0) >= abs(p.x as int) >= 0,
            abs(l.2) >= abs(p.z as int) >= 0,
            abs(l.0) * abs(l.0) == l.0 * l.0,
            abs(l.2) * abs(l.2) == l.2 * l.2,
            abs(p.x as int) * abs(p.x as int) == p.x * p.x,
            abs(p.z as int) * abs(p.z as int) == p.z * p.z,
    ;
    let big = OUTER_RADIUS + 1;
    assert(l.1 == p.y);
    assert(norm_sq(l.0, l.1, l.2) >= norm_sq(p.x as int, p.y as int, p.z as int));
    assert(big == 58201 && OUTER_RADIUS + OUTER_SHIFT == 88200);
    assert(58201 * 58201 <= 88200 * 88200);
    assert(big * big <= norm_sq(l.0, l.1, l.2));
    lemma_floor_sqrt_at_least(norm_sq(l.0, l.1, l.2) as nat, big as nat);
}

/// Where the outer sphere's distance exceeds the negated inner one, the
/// shell's distance is the outer sphere's.
pub proof fn lemma_outer_dominates(p: Point3)
    requires
        ring_distance(p, OUTER_SHIFT as int, OUTER_RADIUS as int) > -ring_distance(
            p,
            INNER_SHIFT as int,
            INNER_RADIUS as int,
        ),
    ensures
        shell_distance(p) == ring_distance(p, OUTER_SHIFT as int, OUTER_RADIUS as int),
{
}

/// Below the plane `y = 0` the distance is at least the depth below it, and is
/// exactly that depth wherever the depth exceeds the shell's distance and `z`.
pub proof fn lemma_below_plane_clipped(p: Point3)
    requires
        p.y < 0,
    ensures
        composite_distance(p) >= -(p.y as int),
        -(p.y as int) > shell_distance(p) && -(p.y as int) >= p.z ==> composite_distance(p)
            == -(p.y as int),
{
}

/// The fixed-point direction of `p` from the vertical axis has length close to one.
proof fn lemma_direction_length(p: Point3)
    requires
        horizontal_radius(p) > 0,
    ensures
        ({
            let r = horizontal_radius(p);
            let a = abs(normalized(p.x as int, r));
            let b = abs(normalized(p.z as int, r));
            &&& a <= SCALE && b <= SCALE
            &&& abs(p.x as int) <= r && abs(p.z as int) <= r
            &&& abs(p.x as int) * SCALE < r * (a + 1)
            &&& abs(p.z as int) * SCALE < r * (b + 1)
            &&& r * r <= abs(p.x as int) * abs(p.x as int) + abs(p.z as int) * abs(p.z as int)
            &&& SCALE * SCALE < (a + 1) * (a + 1) + (b + 1) * (b + 1)
        }),
{
    let r = horizontal_radius(p);
    let x = p.x as int;
    let z = p.z as int;
    let xa = abs(x);
    let za = abs(z);
    lemma_abs_square(x);
    lemma_abs_square(z);
    assert(x * x >= 0 && z * z >= 0) by (nonlinear_arith);
    let n = (x * x + z * z) as nat;
    lemma_floor_sqrt_bounds(n);
    lemma_floor_sqrt_at_least(n, xa as nat);
    lemma_floor_sqrt_at_least(n, za as nat);
    lemma_scaled_fraction_bound(xa, r);
    lemma_scaled_fraction_bound(za, r);
    let a = xa * SCALE / r;
    let b = za * SCALE / r;
    assert(abs(normalized(x, r)) == a);
    assert(abs(normalized(z, r)) == b);
    vstd::arithmetic::div_mod::lemma_fundamental_div_mod(xa * SCALE, r);
    vstd::arithmetic::div_mod::lemma_mod_pos_bound(xa * SCALE, r);
    vstd::arithmetic::div_mod::lemma_fundamental_div_mod(za * SCALE, r);
    vstd::arithmetic::div_mod::lemma_mod_pos_bound(za * SCALE, r);
    assert(xa * SCALE < r * (a + 1)) by (nonlinear_arith)
        requires
            xa * SCALE == r * a + (xa * SCALE) % r,
            (xa * SCALE) % r < r,
    ;
    assert(za * SCALE < r * (b + 1)) by (nonlinear_arith)
        requires
            za * SCALE == r * b + (za * SCALE) % r,
            (za * SCALE) % r < r,
    ;
    assert(xa * xa + za * za == n);
    let s = SCALE as int;
    let ka = (a + 1) * (a + 1);
    let kb = (b + 1) * (b + 1);
    assert((xa * s) * (xa * s) < (r * r) * ka) by (nonlinear_arith)
        requires 0 <= xa * s < r * (a + 1), r > 0, a >= 0, ka == (a + 1) * (a + 1);
    assert((za * s) * (za * s) < (r * r) * kb) by (nonlinear_arith)
        requires 0 <= za * s < r * (b + 1), r > 0, b >= 0, kb == (b + 1) * (b + 1);
    assert((r * r) * (s * s) <= (xa * s) * (xa * s) + (za * s) * (za * s)) by (nonlinear_arith)
        requires r * r <= xa * xa + za * za;
    assert(s * s < ka + kb) by (nonlinear_arith)
        requires
            (r * r) * (s * s) < (r * r) * ka + (r * r) * kb,
            r > 0,
    ;
}

/// The outer ring's horizontal offset is at least 29983 units of fixed point long.
proof fn lemma_outer_offset_length(p: Point3)
    requires
        horizontal_radius(p) > 0,
    ensures
        ({
            let o = ring_offset(p, OUTER_SHIFT as int);
            o.0 * o.0 + o.1 * o.1 >= 899_000_000
        }),
{
    let r = horizontal_radius(p);
    let xn = normalized(p.x as int, r);
    let zn = normalized(p.z as int, r);
    let o = ring_offset(p, OUTER_SHIFT as int);
    if zn == 0 {
        assert(o.0 == 30000 || o.0 == -30000);
        assert(o.1 == 0);
        assert(o.0 * o.0 == 900_000_000);
    } else if xn == 0 {
        assert(o.1 == 30000 || o.1 == -30000);
        assert(o.0 == 0);
        assert(o.1 * o.1 == 900_000_000);
    } else {
        lemma_shift_term_exact(xn);
        lemma_shift_term_exact(zn);
        lemma_direction_length(p);
        let a = abs(xn);
        let b = abs(zn);
        lemma_abs_square(xn);
        lemma_abs_square(zn);
        assert(a * a + b * b >= 99_959_998) by (nonlinear_arith)
            requires
                100_000_000 < (a + 1) * (a + 1) + (b + 1) * (b + 1),
                0 <= a <= 10000,
                0 <= b <= 10000,
        ;
        assert(o.0 == -3 * xn && o.1 == -3 * zn);
        assert(o.0 * o.0 + o.1 * o.1 == 9 * (xn * xn + zn * zn)) by (nonlinear_arith)
            requires o.0 == -3 * xn, o.1 == -3 * zn;
        assert(xn * xn + zn * zn >= 99_959_998);
    }
}

/// With the outer shift, the centre moves by exactly three times the direction.
proof fn lemma_shift_term_exact(n: int)
    ensures
        shift_term(n, OUTER_SHIFT as int) == -3 * n,
{
    if n < 0 {
        vstd::arithmetic::div_mod::lemma_div_multiples_vanish(3 * (-n), 10000);
    } else {
        vstd::arithmetic::div_mod::lemma_div_multiples_vanish(3 * n, 10000);
    }
}

/// The squared horizontal distance from the outer ring's centre grows with
/// the distance from the vertical axis, off the axes of the horizontal plane.
proof fn lemma_general_local_length(xa: int, za: int, a: int, b: int, r: int)
    requires
        0 <= xa <= r,
        0 <= za <= r,
        0 <= a,
        0 <= b,
        0 < r,
        xa * SCALE < r * (a + 1),
        za * SCALE < r * (b + 1),
        r * r <= xa * xa + za * za,
    ensures
        (xa + 3 * a) * (xa + 3 * a) + (za + 3 * b) * (za + 3 * b) >= r * r + 6 * (r * 9998) + 9
            * (a * a + b * b),
{
    let s = SCALE as int;
    assert(r * a > xa * s - r && r * b > za * s - r) by (nonlinear_arith)
        requires xa * s < r * (a + 1), za * s < r * (b + 1);
    assert(xa * (r * a) >= xa * (xa * s - r)) by (nonlinear_arith)
        requires xa >= 0, r * a > xa * s - r;
    assert(za * (r * b) >= za * (za * s - r)) by (nonlinear_arith)
        requires za >= 0, r * b > za * s - r;
    assert(r * (xa * a + za * b) == xa * (r * a) + za * (r * b)) by (nonlinear_arith);
    assert(xa * (xa * s - r) + za * (za * s - r) == (xa * xa + za * za) * s - (xa + za) * r)
        by (nonlinear_arith);
    assert(r * (xa * a + za * b) >= r * (r * s - 2 * r)) by (nonlinear_arith)
        requires
            r * (xa * a + za * b) >= (xa * xa + za * za) * s - (xa + za) * r,
            r * r <= xa * xa + za * za,
            xa <= r,
            za <= r,
            s == 10000,
    ;
    assert(xa * a + za * b >= r * s - 2 * r) by (nonlinear_arith)
        requires r * (xa * a + za * b) >= r * (r * s - 2 * r), r > 0;
    assert((xa + 3 * a) * (xa + 3 * a) + (za + 3 * b) * (za + 3 * b) == xa * xa + za * za + 6 * (
    xa * a + za * b) + 9 * (a * a + b * b)) by (nonlinear_arith);
}

/// Every point inside the solid lies in its bounding box.
pub proof fn lemma_solid_within_bounding_box(p: Point3)
    requires
        composite_distance(p) < 0,
    ensures
        box_min().x <= p.x <= box_max().x,
        box_min().y <= p.y <= box_max().y,
        box_min().z <= p.z <= box_max().z,
{
    let shift = OUTER_SHIFT as int;
    let l = ring_local(p, shift);
    let o = ring_offset(p, shift);
    let big = norm_sq(l.0, l.1, l.2);
    let r = horizontal_radius(p);
    let x = p.x as int;
    let y = p.y as int;
    let z = p.z as int;
    let xa = abs(x);
    let za = abs(z);
    let la = abs(l.0);
    let lb = abs(l.2);
    lemma_ring_local_pushes_out(p, shift);
    lemma_abs_square(l.0);
    lemma_abs_square(l.2);
    lemma_abs_square(y);
    assert(big >= 0) by (nonlinear_arith)
        requires big == l.0 * l.0 + l.1 * l.1 + l.2 * l.2;
    lemma_floor_sqrt_bounds(big as nat);
    let fs = floor_sqrt(big as nat) as int;
    assert(fs < OUTER_RADIUS);
    assert(big < 3_387_240_000) by (nonlinear_arith)
        requires big < (fs + 1) * (fs + 1), 0 <= fs, fs + 1 <= 58200;
    assert(big == la * la + y * y + lb * lb);
    assert(la * la >= abs(o.0) * abs(o.0) && lb * lb >= abs(o.1) * abs(o.1)) by (nonlinear_arith)
        requires la >= abs(o.0) >= 0, lb >= abs(o.1) >= 0;
    lemma_abs_square(o.0);
    lemma_abs_square(o.1);
    if r <= 0 {
        lemma_abs_square(x);
        lemma_abs_square(z);
        assert(x * x >= 0 && z * z >= 0) by (nonlinear_arith);
        let n = (x * x + z * z) as nat;
        lemma_floor_sqrt_bounds(n);
        assert(floor_sqrt(n) == 0);
        assert((0nat + 1) * (0nat + 1) == 1) by (nonlinear_arith);
        assert(x == 0 && z == 0) by (nonlinear_arith)
            requires x * x + z * z < 1;
        assert(o.0 * o.0 + o.1 * o.1 == 900_000_000);
    } else {
        lemma_outer_offset_length(p);
        lemma_direction_length(p);
        let a = abs(normalized(x, r));
        let b = abs(normalized(z, r));
        assert(la * la + lb * lb >= xa * xa + za * za) by (nonlinear_arith)
            requires la >= xa >= 0, lb >= za >= 0;
        if r >= 58200 {
            assert(r * r >= 3_387_240_000) by (nonlinear_arith)
                requires r >= 58200;
            assert(y * y >= 0) by (nonlinear_arith);
        }
        assert(r < 58200);
        if b == 0 {
            assert(abs(o.0) == 30000);
            if xa > 30000 {
                assert(la * la > 3_600_000_000) by (nonlinear_arith)
                    requires la > 60000;
                assert(y * y >= 0) by (nonlinear_arith);
            }
            assert(za * 10000 < r) by (nonlinear_arith)
                requires za * 10000 < r * (b + 1), b == 0;
        } else if a == 0 {
            assert(abs(o.1) == 30000);
            if za > 30000 {
                assert(lb * lb > 3_600_000_000) by (nonlinear_arith)
                    requires lb > 60000;
                assert(y * y >= 0) by (nonlinear_arith);
            }
            assert(xa * 10000 < r) by (nonlinear_arith)
                requires xa * 10000 < r * (a + 1), a == 0;
        } else {
            lemma_shift_term_exact(normalized(x, r));
            lemma_shift_term_exact(normalized(z, r));
            assert(la == xa + 3 * a && lb == za + 3 * b);
            lemma_general_local_length(xa, za, a, b, r);
            assert(9 * (a * a + b * b) >= 899_000_000) by (nonlinear_arith)
                requires
                    o.0 * o.0 + o.1 * o.1 >= 899_000_000,
                    abs(o.0) == 3 * a,
                    abs(o.1) == 3 * b,
                    abs(o.0) * abs(o.0) == o.0 * o.0,
                    abs(o.1) * abs(o.1) == o.1 * o.1,
            ;
            if r > 30000 {
                assert(r * r + 6 * (r * 9998) > 2_600_000_000) by (nonlinear_arith)
                    requires r > 30000;
                assert(y * y >= 0) by (nonlinear_arith);
            }
        }
    }
    assert(y * y < 2_500_000_000);
    assert(y < 50000) by (nonlinear_arith)
        requires y * y < 2_500_000_000, y > 0;
}

} // verus!
