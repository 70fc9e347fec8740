use vstd::prelude::*;

use crate::ring::{
    normalize, normalized, outer_inner_sdf, ring_distance, ring_local, vec_is,
    INNER_RADIUS, INNER_SHIFT, OUTER_RADIUS, OUTER_SHIFT,
};
use crate::sqrt::{floor_sqrt, isqrt, lemma_floor_sqrt_at_least};
use crate::vector::{abs, lemma_abs_square, norm_sq, square_norm, Point3, Vec3, SCALE};

verus! {

/// What the field says at one point: the signed distance to the surface
/// (negative inside) and a colour hint, where the zero vector means none.
#[derive(Clone, Copy, Debug, PartialEq, Eq, Structural)]
pub struct SDFSample {
    pub distance: i64,
    pub color: Point3,
}

impl SDFSample {
    pub fn new(distance: i64, color: Point3) -> (r: SDFSample)
        ensures
            r == (SDFSample { distance, color }),
    {
        SDFSample { distance, color }
    }
}

/// The double-ring solid: the outer ring sphere minus the inner one, kept
/// where `y >= 0` and `z <= 0`.
///
/// The frame has `y` up; the rings turn about the `y` axis.
#[derive(Clone, Copy, Debug, PartialEq, Eq, Structural)]
pub struct SDFDemo;

pub open spec fn max_int(a: int, b: int) -> int {
    if a >= b {
        a
    } else {
        b
    }
}

/// The solid `a` with the solid `b` taken out of it.
pub open spec fn subtract(a: int, b: int) -> int {
    max_int(a, -b)
}

/// Signed distance to the outer ring sphere minus the inner one, before the clips.
pub open spec fn shell_distance(p: Point3) -> int {
    subtract(
        ring_distance(p, OUTER_SHIFT as int, OUTER_RADIUS as int),
        ring_distance(p, INNER_SHIFT as int, INNER_RADIUS as int),
    )
}

/// Signed distance to the whole solid: the shell, with everything below
/// `y = 0` and everything at positive `z` cut away.
pub open spec fn composite_distance(p: Point3) -> int {
    max_int(max_int(shell_distance(p), -(p.y as int)), p.z as int)
}

/// Green on the band `4.0 < y < 4.1`, red on `2.0 < y < 2.1`, none elsewhere.
pub open spec fn band_color(y: int) -> Point3 {
    if 40000 < y && y < 41000 {
        Point3 { x: 0, y: SCALE, z: 0 }
    } else if 20000 < y && y < 21000 {
        Point3 { x: SCALE, y: 0, z: 0 }
    } else {
        Point3 { x: 0, y: 0, z: 0 }
    }
}

pub open spec fn box_min() -> Point3 {
    Point3 { x: -30000i32, y: -1000i32, z: -30000i32 }
}

pub open spec fn box_max() -> Point3 {
    Point3 { x: 30000, y: 50000, z: 30000 }
}

/// The local vector of whichever ring face is nearer to `p`.
pub open spec fn nearer_local(p: Point3) -> (int, int, int) {
    let outer = ring_distance(p, OUTER_SHIFT as int, OUTER_RADIUS as int);
    let inner = ring_distance(p, INNER_SHIFT as int, INNER_RADIUS as int);
    if -inner < outer {
        ring_local(p, OUTER_SHIFT as int)
    } else {
        ring_local(p, INNER_SHIFT as int)
    }
}

/// The surface normal at `p`: the nearer local vector scaled to unit length.
pub open spec fn normal_spec(p: Point3) -> (int, int, int) {
    let v = nearer_local(p);
    let len = floor_sqrt(norm_sq(v.0, v.1, v.2) as nat) as int;
    (normalized(v.0, len), normalized(v.1, len), normalized(v.2, len))
}

fn max_i64(a: i64, b: i64) -> (r: i64)
    ensures
        r == max_int(a as int, b as int),
{
    if a >= b {
        a
    } else {
        b
    }
}

impl SDFDemo {
    /// The box that holds the whole solid: `x` and `z` in `[-3, 3]`, `y` in `[-0.1, 5]`.
    pub fn bounding_box(&self) -> (r: [Point3; 2])
        ensures
            r[0] == box_min(),
            r[1] == box_max(),
    {
        [Point3::new(-30000, -1000, -30000), Point3::new(30000, 50000, 30000)]
    }

    /// The signed distance from `p` to the solid and the colour band at its height.
    ///
    /// The colour is always computed; `distance_only` changes nothing.
    pub fn sample(&self, p: Point3, distance_only: bool) -> (r: SDFSample)
        ensures
            r.distance == composite_distance(p),
            r.color == band_color(p.y as int),
    {
        let (outer, inner, _, _) = outer_inner_sdf(p);
        let shell = max_i64(outer, -inner);
        let distance = max_i64(max_i64(shell, -(p.y as i64)), p.z as i64);
        let color = if 40000 < p.y && p.y < 41000 {
            Point3::new(0, SCALE, 0)
        } else if 20000 < p.y && p.y < 21000 {
            Point3::new(SCALE, 0, 0)
        } else {
            Point3::new(0, 0, 0)
        };
        SDFSample::new(distance, color)
    }

    /// The solid has no parameters that change, so there is never a region to redraw.
    pub fn changed(&self) -> (r: Option<[Point3; 2]>)
        ensures
            r.is_none(),
    {
        None
    }

    /// The surface normal at `p`, in fixed-point units of length `SCALE`.
    ///
    /// Each ring is a sphere about its shifted centre, so the normal is the
    /// local vector of the nearer face, normalised; zero when that vector is zero.
    pub fn normal(&self, p: Point3) -> (r: Vec3)
        ensures
            vec_is(r, normal_spec(p)),
            abs(r.x as int) <= SCALE && abs(r.y as int) <= SCALE && abs(r.z as int) <= SCALE,
    {
        let (outer, inner, onorm, inorm) = outer_inner_sdf(p);
        let v = if -inner < outer {
            onorm
        } else {
            inorm
        };
        let n = square_norm(v);
        let len = isqrt(n);
        proof {
            lemma_abs_square(v.x as int);
            lemma_abs_square(v.y as int);
            lemma_abs_square(v.z as int);
            assert(abs(v.x as int) * abs(v.x as int) <= n && abs(v.y as int) * abs(v.y as int)
                <= n && abs(v.z as int) * abs(v.z as int) <= n) by (nonlinear_arith)
                requires
                    n == v.x * v.x + v.y * v.y + v.z * v.z,
                    abs(v.x as int) * abs(v.x as int) == v.x * v.x,
                    abs(v.y as int) * abs(v.y as int) == v.y * v.y,
                    abs(v.z as int) * abs(v.z as int) == v.z * v.z,
            ;
            lemma_floor_sqrt_at_least(n as nat, abs(v.x as int) as nat);
            lemma_floor_sqrt_at_least(n as nat, abs(v.y as int) as nat);
            lemma_floor_sqrt_at_least(n as nat, abs(v.z as int) as nat);
        }
        Vec3::new(
            normalize(v.x, len) as i64,
            normalize(v.y, len) as i64,
            normalize(v.z, len) as i64,
        )
    }
}

} // verus!
