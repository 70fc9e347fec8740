use vstd::prelude::*;

verus! {

/// One unit of the shape's frame, in steps of the fixed-point representation.
pub const SCALE: i32 = 10000;

/// A query point, a box corner or a colour, in fixed-point units.
#[derive(Clone, Copy, Debug, PartialEq, Eq, Structural)]
pub struct Point3 {
    pub x: i32,
    pub y: i32,
    pub z: i32,
}

/// A displacement in fixed-point units, wide enough to hold a point minus an offset.
#[derive(Clone, Copy, Debug, PartialEq, Eq, Structural)]
pub struct Vec3 {
    pub x: i64,
    pub y: i64,
    pub z: i64,
}

pub open spec fn abs(v: int) -> int {
    if v < 0 {
        -v
    } else {
        v
    }
}

/// A number and its absolute value have the same square.
pub proof fn lemma_abs_square(v: int)
    ensures
        abs(v) * abs(v) == v * v,
        abs(v) >= 0,
{
    if v < 0 {
        assert((-v) * (-v) == v * v) by (nonlinear_arith);
    }
}

/// The squared Euclidean length of `(x, y, z)`.
pub open spec fn norm_sq(x: int, y: int, z: int) -> int {
    x * x + y * y + z * z
}

impl Point3 {
    pub fn new(x: i32, y: i32, z: i32) -> (r: Point3)
        ensures
            r == (Point3 { x, y, z }),
    {
        Point3 { x, y, z }
    }
}

impl Vec3 {
    pub fn new(x: i64, y: i64, z: i64) -> (r: Vec3)
        ensures
            r == (Vec3 { x, y, z }),
    {
        Vec3 { x, y, z }
    }
}

/// `|v|` as an unsigned number.
pub fn magnitude(v: i64) -> (r: u64)
    ensures
        r == abs(v as int),
{
    if v < 0 {
        (-(v as i128)) as u64
    } else {
        v as u64
    }
}

/// The squared length of a displacement whose components are at most `2^32` in size.
pub fn square_norm(v: Vec3) -> (r: u128)
    requires
        abs(v.x as int) <= 0x1_0000_0000,
        abs(v.y as int) <= 0x1_0000_0000,
        abs(v.z as int) <= 0x1_0000_0000,
    ensures
        r == norm_sq(v.x as int, v.y as int, v.z as int),
        r <= 3 * 0x1_0000_0000_0000_0000,
{
    let a = magnitude(v.x) as u128;
    let b = magnitude(v.y) as u128;
    let c = magnitude(v.z) as u128;
    assert(a * a <= 0x1_0000_0000_0000_0000 && b * b <= 0x1_0000_0000_0000_0000 && c * c
        <= 0x1_0000_0000_0000_0000) by (nonlinear_arith)
        requires
            a <= 0x1_0000_0000,
            b <= 0x1_0000_0000,
            c <= 0x1_0000_0000,
    ;
    assert(a * a == v.x * v.x && b * b == v.y * v.y && c * c == v.z * v.z) by (nonlinear_arith)
        requires
            a == abs(v.x as int),
            b == abs(v.y as int),
            c == abs(v.z as int),
    ;
    a * a + b * b + c * c
}

} // verus!
