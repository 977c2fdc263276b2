//! Control points: homogeneous 4-component values with fixed-point integer
//! coordinates, linear interpolation and Euclidean distance.

use vstd::arithmetic::div_mod::lemma_div_is_ordered;
use vstd::arithmetic::div_mod::lemma_div_multiples_vanish;
use vstd::prelude::*;

verus! {

/// Largest magnitude a coordinate or parameter value may take. The bound
/// keeps every intermediate of the interpolation and distance arithmetic
/// inside the machine word it is computed in.
pub const SCALAR_MAX: i64 = 0x8000_0000;

/// A homogeneous control point (x, y, z, w). The w component is carried
/// through every operation like the others but is never given a rational
/// weighting role by any algorithm of this crate.
#[derive(Clone, Copy, Debug, PartialEq, Eq, Structural)]
pub struct ControlPoint {
    pub x: i64,
    pub y: i64,
    pub z: i64,
    pub w: i64,
}

impl ControlPoint {
    /// Every component within the fixed-point range.
    pub open spec fn wf(self) -> bool {
        &&& -SCALAR_MAX <= self.x <= SCALAR_MAX
        &&& -SCALAR_MAX <= self.y <= SCALAR_MAX
        &&& -SCALAR_MAX <= self.z <= SCALAR_MAX
        &&& -SCALAR_MAX <= self.w <= SCALAR_MAX
    }

    pub fn new(x: i64, y: i64, z: i64, w: i64) -> (r: ControlPoint)
        requires
            -SCALAR_MAX <= x <= SCALAR_MAX,
            -SCALAR_MAX <= y <= SCALAR_MAX,
            -SCALAR_MAX <= z <= SCALAR_MAX,
            -SCALAR_MAX <= w <= SCALAR_MAX,
        ensures
            r == (ControlPoint { x, y, z, w }),
            r.wf(),
    {
        ControlPoint { x, y, z, w }
    }
}

/// The interpolated scalar `a * (1 - t) + b * t` for `t = num / den`,
/// rounded toward negative infinity. The shift by `SCALAR_MAX` makes the
/// dividend non-negative for in-range inputs, so the floor is taken of the
/// exact rational value.
pub open spec fn lerp1(a: int, b: int, num: int, den: int) -> int {
    ((den - num) * (a + SCALAR_MAX) + num * (b + SCALAR_MAX)) / den - SCALAR_MAX
}

/// For `0 <= num <= den`, the interpolated value stays between its inputs.
pub proof fn lemma_lerp1_range(a: int, b: int, num: int, den: int)
    requires
        1 <= den,
        0 <= num <= den,
    ensures
        a <= b ==> a <= lerp1(a, b, num, den) <= b,
        b <= a ==> b <= lerp1(a, b, num, den) <= a,
{
    let m = SCALAR_MAX as int;
    let mn = if a <= b { a } else { b };
    let mx = if a <= b { b } else { a };
    let s = (den - num) * (a + m) + num * (b + m);
    assert(den * (mn + m) <= s <= den * (mx + m)) by (nonlinear_arith)
        requires
            1 <= den,
            0 <= num <= den,
            mn <= a <= mx,
            mn <= b <= mx,
            s == (den - num) * (a + m) + num * (b + m),
    ;
    lemma_div_is_ordered(den * (mn + m), s, den);
    lemma_div_is_ordered(s, den * (mx + m), den);
    lemma_div_multiples_vanish(mn + m, den);
    lemma_div_multiples_vanish(mx + m, den);
}

/// Interpolates one coordinate; exact floor semantics per [`lerp1`].
pub fn lerp_coord(a: i64, b: i64, num: i64, den: i64) -> (r: i64)
    requires
        -SCALAR_MAX <= a <= SCALAR_MAX,
        -SCALAR_MAX <= b <= SCALAR_MAX,
        1 <= den <= SCALAR_MAX,
        0 <= num <= den,
    ensures
        r as int == lerp1(a as int, b as int, num as int, den as int),
        a <= b ==> a <= r <= b,
        b <= a ==> b <= r <= a,
{
    proof {
        lemma_lerp1_range(a as int, b as int, num as int, den as int);
    }
    let ua: u64 = (a + SCALAR_MAX) as u64;
    let ub: u64 = (b + SCALAR_MAX) as u64;
    let un: u64 = num as u64;
    let ud: u64 = den as u64;
    let mx: u64 = if ua >= ub { ua } else { ub };
    assert((ud - un) * ua + un * ub <= ud * mx) by (nonlinear_arith)
        requires
            un <= ud,
            ua <= mx,
            ub <= mx,
    ;
    assert(ud * mx <= 0x8000_0000 * 0x1_0000_0000) by (nonlinear_arith)
        requires
            ud <= 0x8000_0000,
            mx <= 0x1_0000_0000,
    ;
    let sum: u64 = (ud - un) * ua + un * ub;
    let q: u64 = sum / ud;
    proof {
        lemma_div_is_ordered(sum as int, (ud * mx) as int, ud as int);
        lemma_div_multiples_vanish(mx as int, ud as int);
    }
    (q as i64) - SCALAR_MAX
}

/// Component-wise interpolation of two control points.
pub open spec fn lerp_point(p: ControlPoint, q: ControlPoint, num: int, den: int) -> ControlPoint {
    ControlPoint {
        x: lerp1(p.x as int, q.x as int, num, den) as i64,
        y: lerp1(p.y as int, q.y as int, num, den) as i64,
        z: lerp1(p.z as int, q.z as int, num, den) as i64,
        w: lerp1(p.w as int, q.w as int, num, den) as i64,
    }
}

/// Interpolation keeps points well formed.
pub proof fn lemma_lerp_point_wf(p: ControlPoint, q: ControlPoint, num: int, den: int)
    requires
        p.wf(),
        q.wf(),
        1 <= den,
        0 <= num <= den,
    ensures
        lerp_point(p, q, num, den).wf(),
{
    lemma_lerp1_range(p.x as int, q.x as int, num, den);
    lemma_lerp1_range(p.y as int, q.y as int, num, den);
    lemma_lerp1_range(p.z as int, q.z as int, num, den);
    lemma_lerp1_range(p.w as int, q.w as int, num, den);
}

/// Interpolates two control points with factor `num / den`.
pub fn lerp_cp(p: &ControlPoint, q: &ControlPoint, num: i64, den: i64) -> (r: ControlPoint)
    requires
        p.wf(),
        q.wf(),
        1 <= den <= SCALAR_MAX,
        0 <= num <= den,
    ensures
        r == lerp_point(*p, *q, num as int, den as int),
        r.wf(),
{
    proof {
        lemma_lerp_point_wf(*p, *q, num as int, den as int);
        lemma_lerp1_range(p.x as int, q.x as int, num as int, den as int);
        lemma_lerp1_range(p.y as int, q.y as int, num as int, den as int);
        lemma_lerp1_range(p.z as int, q.z as int, num as int, den as int);
        lemma_lerp1_range(p.w as int, q.w as int, num as int, den as int);
    }
    ControlPoint {
        x: lerp_coord(p.x, q.x, num, den),
        y: lerp_coord(p.y, q.y, num, den),
        z: lerp_coord(p.z, q.z, num, den),
        w: lerp_coord(p.w, q.w, num, den),
    }
}

/// The largest `r` with `r * r <= n` (0 for negative `n`).
pub open spec fn sqrt_floor(n: int) -> int
    decreases n,
{
    if n < 1 {
        0
    } else {
        let s = sqrt_floor(n - 1);
        if (s + 1) * (s + 1) <= n {
            s + 1
        } else {
            s
        }
    }
}

pub proof fn lemma_sqrt_floor_bounds(n: int)
    requires
        n >= 0,
    ensures
        sqrt_floor(n) >= 0,
        sqrt_floor(n) * sqrt_floor(n) <= n,
        n < (sqrt_floor(n) + 1) * (sqrt_floor(n) + 1),
    decreases n,
{
    if n >= 1 {
        lemma_sqrt_floor_bounds(n - 1);
        let s = sqrt_floor(n - 1);
        if (s + 1) * (s + 1) <= n {
            assert((s + 2) * (s + 2) > (s + 1) * (s + 1)) by (nonlinear_arith)
                requires
                    s >= 0,
            ;
        }
    }
}

/// `sqrt_floor` is the unique non-negative root bracketed this way.
pub proof fn lemma_sqrt_floor_is(n: int, r: int)
    requires
        n >= 0,
        r >= 0,
        r * r <= n,
        n < (r + 1) * (r + 1),
    ensures
        sqrt_floor(n) == r,
{
    lemma_sqrt_floor_bounds(n);
    let s = sqrt_floor(n);
    if s < r {
        assert((s + 1) * (s + 1) <= r * r) by (nonlinear_arith)
            requires
                0 <= s,
                s + 1 <= r,
        ;
    }
    if r < s {
        assert((r + 1) * (r + 1) <= s * s) by (nonlinear_arith)
            requires
                0 <= r,
                r + 1 <= s,
        ;
    }
}

/// Integer square root, rounded down.
pub fn isqrt(n: u128) -> (r: u64)
    requires
        n <= 0x4_0000_0000_0000_0000u128,
    ensures
        r as int == sqrt_floor(n as int),
        r <= 0x2_0000_0000,
{
    let mut lo: u64 = 0;
    let mut hi: u64 = 0x2_0000_0001;
    assert((hi as int) * (hi as int) == 0x4_0000_0004_0000_0001);
    while lo + 1 < hi
        invariant
            lo < hi <= 0x2_0000_0001,
            (lo as int) * (lo as int) <= n as int,
            (n as int) < (hi as int) * (hi as int),
        decreases hi - lo,
    {
        let mid: u64 = lo + (hi - lo) / 2;
        assert((mid as int) * (mid as int) <= 0x2_0000_0001 * 0x2_0000_0001) by (nonlinear_arith)
            requires
                mid <= 0x2_0000_0001,
        ;
        let sq: u128 = (mid as u128) * (mid as u128);
        if sq <= n {
            lo = mid;
        } else {
            hi = mid;
        }
    }
    proof {
        lemma_sqrt_floor_is(n as int, lo as int);
    }
    lo
}

/// Squared Euclidean distance over all four components.
pub open spec fn dist_sq(p: ControlPoint, q: ControlPoint) -> int {
    let dx = p.x - q.x;
    let dy = p.y - q.y;
    let dz = p.z - q.z;
    let dw = p.w - q.w;
    dx * dx + dy * dy + dz * dz + dw * dw
}

/// Euclidean distance, rounded down to a whole fixed-point unit.
pub open spec fn dist(p: ControlPoint, q: ControlPoint) -> int {
    sqrt_floor(dist_sq(p, q))
}

/// A square of a coordinate difference is non-negative and bounded.
proof fn lemma_diff_sq_bounds(d: int)
    requires
        -0x1_0000_0000 <= d <= 0x1_0000_0000,
    ensures
        0 <= d * d <= 0x1_0000_0000_0000_0000,
{
    assert(0 <= d * d <= 0x1_0000_0000_0000_0000) by (nonlinear_arith)
        requires
            -0x1_0000_0000 <= d <= 0x1_0000_0000,
    ;
}

/// Distances between well-formed points fit the arithmetic downstream.
pub proof fn lemma_dist_bounds(p: ControlPoint, q: ControlPoint)
    requires
        p.wf(),
        q.wf(),
    ensures
        0 <= dist_sq(p, q) <= 0x4_0000_0000_0000_0000,
        0 <= dist(p, q) <= 0x2_0000_0000,
{
    lemma_diff_sq_bounds(p.x - q.x);
    lemma_diff_sq_bounds(p.y - q.y);
    lemma_diff_sq_bounds(p.z - q.z);
    lemma_diff_sq_bounds(p.w - q.w);
    lemma_sqrt_floor_bounds(dist_sq(p, q));
    let s = sqrt_floor(dist_sq(p, q));
    if s > 0x2_0000_0000 {
        assert(s * s > 0x4_0000_0000_0000_0000) by (nonlinear_arith)
            requires
                s > 0x2_0000_0000,
        ;
    }
}

/// Euclidean distance between two control points.
pub fn distance(p: &ControlPoint, q: &ControlPoint) -> (r: u64)
    requires
        p.wf(),
        q.wf(),
    ensures
        r as int == dist(*p, *q),
        r <= 0x2_0000_0000,
{
    proof {
        lemma_dist_bounds(*p, *q);
        lemma_diff_sq_bounds(p.x - q.x);
        lemma_diff_sq_bounds(p.y - q.y);
        lemma_diff_sq_bounds(p.z - q.z);
        lemma_diff_sq_bounds(p.w - q.w);
    }
    let dx: i64 = p.x - q.x;
    let dy: i64 = p.y - q.y;
    let dz: i64 = p.z - q.z;
    let dw: i64 = p.w - q.w;
    let sx: u128 = ((dx as i128) * (dx as i128)) as u128;
    let sy: u128 = ((dy as i128) * (dy as i128)) as u128;
    let sz: u128 = ((dz as i128) * (dz as i128)) as u128;
    let sw: u128 = ((dw as i128) * (dw as i128)) as u128;
    isqrt(sx + sy + sz + sw)
}

} // verus!
