use vstd::prelude::*;

use crate::sqrt::{floor_sqrt, isqrt, lemma_floor_sqrt_at_least, lemma_floor_sqrt_below};
use crate::vector::{abs, lemma_abs_square, magnitude, norm_sq, square_norm, Point3, Vec3, SCALE};

verus! {

/// How far the outer ring's sphere centre is pushed off the vertical axis.
pub const OUTER_SHIFT: i32 = 30000;

/// The outer sphere's radius: 2.82 units beyond its shift.
pub const OUTER_RADIUS: i64 = 58200;

/// How far the inner ring's sphere centre is pushed off the vertical axis.
pub const INNER_SHIFT: i32 = 20000;

/// The inner sphere's radius: 2.32 units beyond its shift.
pub const INNER_RADIUS: i64 = 43200;

/// `c / r` as a fixed-point fraction, rounded toward zero; zero when `r` is zero.
pub open spec fn normalized(c: int, r: int) -> int {
    if r <= 0 {
        0
    } else if c < 0 {
        -((-c) * SCALE / r)
    } else {
        c * SCALE / r
    }
}

/// `-shift * n` for a fixed-point fraction `n`, rounded toward zero.
pub open spec fn shift_term(n: int, shift: int) -> int {
    if n < 0 {
        shift * (-n) / (SCALE as int)
    } else {
        -(shift * n / (SCALE as int))
    }
}

/// Where a ring's sphere centre goes for the horizontal direction `(xnorm, ynorm)`.
pub open spec fn shift_origin_spec(xnorm: int, ynorm: int, shift: int) -> (int, int) {
    if ynorm == 0 {
        if xnorm < 0 {
            (shift, 0)
        } else {
            (-shift, 0)
        }
    } else if xnorm == 0 {
        if ynorm < 0 {
            (0, shift)
        } else {
            (0, -shift)
        }
    } else {
        (shift_term(xnorm, shift), shift_term(ynorm, shift))
    }
}

/// Distance of `p` from the vertical (`y`) axis, rounded down.
pub open spec fn horizontal_radius(p: Point3) -> int {
    floor_sqrt((p.x * p.x + p.z * p.z) as nat) as int
}

/// The horizontal offset `(x, z)` of the centre of the ring sphere shifted by `shift`.
pub open spec fn ring_offset(p: Point3, shift: int) -> (int, int) {
    let r = horizontal_radius(p);
    shift_origin_spec(normalized(p.x as int, r), normalized(p.z as int, r), shift)
}

/// `p` relative to the centre of the ring sphere shifted by `shift`.
pub open spec fn ring_local(p: Point3, shift: int) -> (int, int, int) {
    let o = ring_offset(p, shift);
    (p.x - o.0, p.y as int, p.z - o.1)
}

/// Signed distance from `p` to the ring sphere of the given shift and radius.
pub open spec fn ring_distance(p: Point3, shift: int, radius: int) -> int {
    let l = ring_local(p, shift);
    floor_sqrt(norm_sq(l.0, l.1, l.2) as nat) - radius
}

/// `v` holds the components of `t`.
pub open spec fn vec_is(v: Vec3, t: (int, int, int)) -> bool {
    v.x == t.0 && v.y == t.1 && v.z == t.2
}

/// Every component of `v` is at most `2^32` in size.
pub open spec fn vec_bounded(v: Vec3) -> bool {
    abs(v.x as int) <= 0x1_0000_0000 && abs(v.y as int) <= 0x1_0000_0000 && abs(v.z as int)
        <= 0x1_0000_0000
}

/// A fraction `a / r` of at most one is at most `SCALE` in fixed point.
pub proof fn lemma_scaled_fraction_bound(a: int, r: int)
    requires
        0 <= a <= r,
        0 < r,
    ensures
        0 <= a * SCALE / r <= SCALE,
{
    assert(a * SCALE <= r * SCALE) by (nonlinear_arith)
        requires a <= r;
    vstd::arithmetic::div_mod::lemma_div_is_ordered(a * SCALE, r * SCALE, r);
    vstd::arithmetic::div_mod::lemma_div_multiples_vanish(SCALE as int, r);
    assert(r * SCALE == SCALE * r) by (nonlinear_arith);
    vstd::arithmetic::div_mod::lemma_div_pos_is_pos(a * SCALE, r);
}

proof fn lemma_shift_term_bound(n: int, shift: int)
    requires
        0 <= shift,
        abs(n) <= 0x8000_0000,
        shift <= 0x8000_0000,
    ensures
        abs(shift_term(n, shift)) <= 0x8_0000_0000_0000,
        abs(n) <= SCALE ==> abs(shift_term(n, shift)) <= shift,
{
    let m = abs(n);
    assert(0 <= shift * m <= 0x4000_0000_0000_0000) by (nonlinear_arith)
        requires 0 <= shift <= 0x8000_0000, 0 <= m <= 0x8000_0000;
    vstd::arithmetic::div_mod::lemma_div_is_ordered(shift * m, 0x4000_0000_0000_0000int, 10000);
    vstd::arithmetic::div_mod::lemma_div_pos_is_pos(shift * m, 10000);
    if m <= SCALE {
        assert(shift * m <= shift * SCALE) by (nonlinear_arith)
            requires 0 <= shift, m <= SCALE;
        vstd::arithmetic::div_mod::lemma_div_is_ordered(shift * m, shift * SCALE, 10000);
        vstd::arithmetic::div_mod::lemma_div_multiples_vanish(shift, 10000);
        assert(shift * SCALE == 10000 * shift) by (nonlinear_arith);
    }
}

/// Moves a ring's sphere centre away from the direction `(xnorm, ynorm)`.
///
/// The direction is a fixed-point fraction (`SCALE` is one). On an axis of the
/// horizontal plane the centre moves a full `shift` against the query's side;
/// elsewhere it moves by `-shift` times each component, rounded toward zero.
pub fn shift_origin(xnorm: i32, ynorm: i32, shift: i32) -> (r: (i64, i64))
    requires
        shift >= 0,
    ensures
        (r.0 as int, r.1 as int) == shift_origin_spec(xnorm as int, ynorm as int, shift as int),
        abs(xnorm as int) <= SCALE && abs(ynorm as int) <= SCALE ==> abs(r.0 as int) <= shift
            && abs(r.1 as int) <= shift,
{
    if ynorm == 0 {
        if xnorm < 0 {
            (shift as i64, 0)
        } else {
            (-(shift as i64), 0)
        }
    } else if xnorm == 0 {
        if ynorm < 0 {
            (0, shift as i64)
        } else {
            (0, -(shift as i64))
        }
    } else {
        (scaled_shift(xnorm, shift), scaled_shift(ynorm, shift))
    }
}

fn scaled_shift(n: i32, shift: i32) -> (r: i64)
    requires
        shift >= 0,
    ensures
        r == shift_term(n as int, shift as int),
        abs(n as int) <= SCALE ==> abs(r as int) <= shift,
{
    proof {
        lemma_shift_term_bound(n as int, shift as int);
    }
    let m = magnitude(n as i64);
    assert((shift as u64) * m <= 0x4000_0000_0000_0000) by (nonlinear_arith)
        requires 0 <= shift <= 0x8000_0000, m <= 0x8000_0000;
    let t = (shift as u64) * m / 10000;
    if n < 0 {
        t as i64
    } else {
        -(t as i64)
    }
}

/// `c / r` as a fixed-point fraction, rounded toward zero.
pub fn normalize(c: i64, r: u64) -> (n: i32)
    requires
        abs(c as int) <= r,
    ensures
        n == normalized(c as int, r as int),
        abs(n as int) <= SCALE,
{
    if r == 0 {
        0
    } else {
        let m = magnitude(c) as u128;
        proof {
            lemma_scaled_fraction_bound(m as int, r as int);
        }
        assert(m * 10000 <= 0x1_0000_0000_0000_0000 * 10000) by (nonlinear_arith)
            requires m <= 0x1_0000_0000_0000_0000;
        let q = (m * 10000 / (r as u128)) as i32;
        if c < 0 {
            -q
        } else {
            q
        }
    }
}

/// The distance from `p` to one ring sphere, and `p` relative to its centre.
fn ring(p: Point3, xnorm: i32, znorm: i32, shift: i32, radius: i64) -> (r: (i64, Vec3))
    requires
        0 <= shift <= 0x10000,
        0 <= radius <= 0x10000,
        abs(xnorm as int) <= SCALE,
        abs(znorm as int) <= SCALE,
    ensures
        ({
            let o = shift_origin_spec(xnorm as int, znorm as int, shift as int);
            let l = (p.x - o.0, p.y as int, p.z - o.1);
            vec_is(r.1, l) && r.0 == floor_sqrt(norm_sq(l.0, l.1, l.2) as nat) - radius
        }),
        vec_bounded(r.1),
{
    let (ox, oz) = shift_origin(xnorm, znorm, shift);
    let local = Vec3::new(p.x as i64 - ox, p.y as i64, p.z as i64 - oz);
    let n = square_norm(local);
    let s = isqrt(n);
    proof {
        assert(3 * 0x1_0000_0000_0000_0000 < 0x4_0000_0000 * 0x4_0000_0000) by (nonlinear_arith);
        lemma_floor_sqrt_below(n as nat, 0x4_0000_0000);
    }
    (s as i64 - radius, local)
}

/// Signed distances to the outer and inner ring spheres, then `p` relative to
/// each of their centres.
///
/// The vertical axis is `y`; the ring centres move in the `x`/`z` plane, along
/// the direction of `p` from that axis. On the axis itself, where that direction
/// is undefined, it is taken as zero, which moves the centres to the `-x` side.
pub fn outer_inner_sdf(p: Point3) -> (r: (i64, i64, Vec3, Vec3))
    ensures
        r.0 == ring_distance(p, OUTER_SHIFT as int, OUTER_RADIUS as int),
        r.1 == ring_distance(p, INNER_SHIFT as int, INNER_RADIUS as int),
        vec_is(r.2, ring_local(p, OUTER_SHIFT as int)),
        vec_is(r.3, ring_local(p, INNER_SHIFT as int)),
        vec_bounded(r.2),
        vec_bounded(r.3),
{
    let x = p.x as i64;
    let z = p.z as i64;
    let h = square_norm(Vec3::new(x, 0, z));
    let xz = isqrt(h);
    proof {
        assert(norm_sq(x as int, 0, z as int) == p.x * p.x + p.z * p.z);
        lemma_abs_square(x as int);
        lemma_abs_square(z as int);
        assert(abs(x as int) * abs(x as int) <= h && abs(z as int) * abs(z as int) <= h)
            by (nonlinear_arith)
            requires
                h == x * x + 0 * 0 + z * z,
                abs(x as int) * abs(x as int) == x * x,
                abs(z as int) * abs(z as int) == z * z,
        ;
        lemma_floor_sqrt_at_least(h as nat, abs(x as int) as nat);
        lemma_floor_sqrt_at_least(h as nat, abs(z as int) as nat);
    }
    let xnorm = normalize(x, xz);
    let znorm = normalize(z, xz);
    let (outer, onorm) = ring(p, xnorm, znorm, OUTER_SHIFT, OUTER_RADIUS);
    let (inner, inorm) = ring(p, xnorm, znorm, INNER_SHIFT, INNER_RADIUS);
    (outer, inner, onorm, inorm)
}

} // verus!
