//! Integer plane geometry used by the network: points, squared and rounded
//! distances, and the pseudo-angle ordering of direction vectors.

use vstd::arithmetic::mul::lemma_mul_inequality;
use vstd::prelude::*;

verus! {

/// A position or a direction on the integer plane.
#[derive(Clone, Copy, PartialEq, Eq, Hash, Debug, Structural)]
pub struct Point {
    pub x: i32,
    pub y: i32,
}

impl Point {
    pub fn new(x: i32, y: i32) -> (r: Point)
        ensures
            r == (Point { x, y }),
    {
        Point { x, y }
    }
}

pub open spec fn abs(v: int) -> int {
    if v < 0 {
        -v
    } else {
        v
    }
}

/// Squared euclidean distance between two points.
pub open spec fn dist2(a: Point, b: Point) -> int {
    (b.x - a.x) * (b.x - a.x) + (b.y - a.y) * (b.y - a.y)
}

/// `r` is the integer square root of `n`: the largest `r` with `r * r <= n`.
pub open spec fn is_isqrt(n: int, r: int) -> bool {
    0 <= r && r * r <= n && n < (r + 1) * (r + 1)
}

/// Largest integer whose square is at most `n`.
pub fn isqrt(n: u128) -> (r: u64)
    ensures
        is_isqrt(n as int, r as int),
{
    // search in [lo, hi): lo * lo <= n < hi * hi
    let mut lo: u128 = 0;
    let mut hi: u128 = 0x1_0000_0000_0000_0000;
    assert(n < hi * hi) by (nonlinear_arith)
        requires
            n <= u128::MAX,
            hi == 0x1_0000_0000_0000_0000u128,
    ;
    while hi - lo > 1
        invariant
            lo < hi <= 0x1_0000_0000_0000_0000u128,
            lo * lo <= n,
            n < hi * hi,
        decreases hi - lo,
    {
        let mid: u128 = lo + (hi - lo) / 2;
        assert(lo < mid < hi);
        assert(mid * mid <= hi * hi) by (nonlinear_arith)
            requires
                0 <= mid < hi,
        ;
        assert(mid * mid < 0x1_0000_0000_0000_0000u128 * 0x1_0000_0000_0000_0000u128) by (
        nonlinear_arith)
            requires
                0 <= mid < 0x1_0000_0000_0000_0000u128,
        ;
        if mid * mid <= n {
            lo = mid;
        } else {
            hi = mid;
        }
    }
    assert(hi == lo + 1);
    assert(lo < 0x1_0000_0000_0000_0000u128);
    lo as u64
}

/// Straight-line distance between two points, rounded down.
pub fn distance(a: Point, b: Point) -> (r: u64)
    ensures
        is_isqrt(dist2(a, b), r as int),
        r < 0x2_0000_0000,
{
    let dx: i64 = b.x as i64 - a.x as i64;
    let dy: i64 = b.y as i64 - a.y as i64;
    assert(0 <= dx * dx < 0x1_0000_0000_0000_0000i128) by (nonlinear_arith)
        requires
            -0x1_0000_0000i64 < dx < 0x1_0000_0000i64,
    ;
    assert(0 <= dy * dy < 0x1_0000_0000_0000_0000i128) by (nonlinear_arith)
        requires
            -0x1_0000_0000i64 < dy < 0x1_0000_0000i64,
    ;
    let dx2: i128 = dx as i128 * dx as i128;
    let dy2: i128 = dy as i128 * dy as i128;
    assert(0 <= dx2 < 0x1_0000_0000_0000_0000i128) by (nonlinear_arith)
        requires
            dx2 == dx * dx,
            -0x1_0000_0000i64 < dx < 0x1_0000_0000i64,
    ;
    assert(0 <= dy2 < 0x1_0000_0000_0000_0000i128) by (nonlinear_arith)
        requires
            dy2 == dy * dy,
            -0x1_0000_0000i64 < dy < 0x1_0000_0000i64,
    ;
    let r = isqrt((dx2 + dy2) as u128);
    if r >= 0x2_0000_0000 {
        proof {
            lemma_mul_inequality(0x2_0000_0000int, r as int, r as int);
            lemma_mul_inequality(0x2_0000_0000int, r as int, 0x2_0000_0000int);
        }
    }
    r
}

/// Difference `b - a` as a direction vector with wide components.
pub open spec fn delta_x(a: Point, b: Point) -> int {
    b.x - a.x
}

pub open spec fn delta_y(a: Point, b: Point) -> int {
    b.y - a.y
}

/// The pseudo-angle of the direction `(dx, dy)` as the fraction `num / den`:
/// `1 - dx / (|dx| + |dy|)` when `dy >= 0`, and `dx / (|dx| + |dy|) - 1` when
/// `dy < 0`. It grows with the angle of the direction and is the same for any
/// positive multiple of it, so no normalisation is needed. The zero vector,
/// which has no direction, gets the pseudo-angle `0`.
pub open spec fn pseudo_angle_num(dx: int, dy: int) -> int {
    let s = abs(dx) + abs(dy);
    if s == 0 {
        0
    } else if dy < 0 {
        dx - s
    } else {
        s - dx
    }
}

pub open spec fn pseudo_angle_den(dx: int, dy: int) -> int {
    let s = abs(dx) + abs(dy);
    if s == 0 {
        1
    } else {
        s
    }
}

/// The pseudo-angle of `(ax, ay)` is smaller than that of `(bx, by)`.
pub open spec fn pseudo_angle_lt(ax: int, ay: int, bx: int, by: int) -> bool {
    pseudo_angle_num(ax, ay) * pseudo_angle_den(bx, by) < pseudo_angle_num(bx, by)
        * pseudo_angle_den(ax, ay)
}

fn abs_i64(v: i64) -> (r: i64)
    requires
        v > i64::MIN,
    ensures
        r == abs(v as int),
{
    if v < 0 {
        -v
    } else {
        v
    }
}

fn pseudo_angle_parts(dx: i64, dy: i64) -> (r: (i128, i128))
    requires
        -0x1_0000_0000i64 < dx < 0x1_0000_0000i64,
        -0x1_0000_0000i64 < dy < 0x1_0000_0000i64,
    ensures
        r.0 == pseudo_angle_num(dx as int, dy as int),
        r.1 == pseudo_angle_den(dx as int, dy as int),
        -0x4_0000_0000i128 < r.0 < 0x4_0000_0000i128,
        0 < r.1 < 0x4_0000_0000i128,
{
    let s: i128 = abs_i64(dx) as i128 + abs_i64(dy) as i128;
    if s == 0 {
        (0, 1)
    } else if dy < 0 {
        (dx as i128 - s, s)
    } else {
        (s - dx as i128, s)
    }
}

/// Compares the pseudo-angles of two direction vectors.
pub fn pseudo_angle_less(ax: i64, ay: i64, bx: i64, by: i64) -> (r: bool)
    requires
        -0x1_0000_0000i64 < ax < 0x1_0000_0000i64,
        -0x1_0000_0000i64 < ay < 0x1_0000_0000i64,
        -0x1_0000_0000i64 < bx < 0x1_0000_0000i64,
        -0x1_0000_0000i64 < by < 0x1_0000_0000i64,
    ensures
        r == pseudo_angle_lt(ax as int, ay as int, bx as int, by as int),
{
    let (an, ad) = pseudo_angle_parts(ax, ay);
    let (bn, bd) = pseudo_angle_parts(bx, by);
    assert(-0x10_0000_0000_0000_0000i128 < an * bd < 0x10_0000_0000_0000_0000i128) by (
    nonlinear_arith)
        requires
            -0x4_0000_0000i128 < an < 0x4_0000_0000i128,
            0 < bd < 0x4_0000_0000i128,
    ;
    assert(-0x10_0000_0000_0000_0000i128 < bn * ad < 0x10_0000_0000_0000_0000i128) by (
    nonlinear_arith)
        requires
            -0x4_0000_0000i128 < bn < 0x4_0000_0000i128,
            0 < ad < 0x4_0000_0000i128,
    ;
    an * bd < bn * ad
}

} // verus!
