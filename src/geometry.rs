//! Fixed-point plane geometry: one pixel is `UNITS_PER_PIXEL` units.
use vstd::prelude::*;

verus! {

/// Number of position units in one pixel.
pub const UNITS_PER_PIXEL: i64 = 1000;

/// Largest coordinate (and viewport extent) that the engine accepts, in units.
pub const MAX_COORD: i64 = 1_000_000_000;

/// `v` held to the interval `[0, hi]`.
pub open spec fn clamp(v: int, hi: int) -> int {
    if v < 0 {
        0
    } else if v > hi {
        hi
    } else {
        v
    }
}

/// Squared Euclidean distance between two points.
pub open spec fn dist2(ax: int, ay: int, bx: int, by: int) -> int {
    (ax - bx) * (ax - bx) + (ay - by) * (ay - by)
}

/// `r` is the integer square root of `n`, rounded down.
pub open spec fn is_root(r: int, n: int) -> bool {
    0 <= r && r * r <= n && n < (r + 1) * (r + 1)
}

/// The integer square root of `n`, rounded down (the length of a vector whose squared
/// length is `n`).
pub open spec fn root(n: int) -> int {
    choose|r: int| is_root(r, n)
}

/// `d * speed / len`, rounded toward zero: one component of a vector of length `speed`
/// pointing along a vector of length `len` whose component is `d`.
pub open spec fn scale_component(d: int, speed: int, len: int) -> int {
    if d >= 0 {
        (d * speed) / len
    } else {
        -(((-d) * speed) / len)
    }
}

proof fn lemma_square_monotone(a: int, b: int)
    requires
        0 <= a <= b,
    ensures
        a * a <= b * b,
{
    assert(a * a <= b * b) by (nonlinear_arith)
        requires
            0 <= a <= b,
    ;
}

/// The rounded-down square root is unique.
pub proof fn lemma_root_unique(r: int, s: int, n: int)
    requires
        is_root(r, n),
        is_root(s, n),
    ensures
        r == s,
{
    if r < s {
        lemma_square_monotone(r + 1, s);
    } else if s < r {
        lemma_square_monotone(s + 1, r);
    }
}

/// A component scaled toward a direction keeps that direction's sign.
pub proof fn lemma_scale_sign(d: int, speed: int, len: int)
    requires
        0 <= speed,
        0 < len,
    ensures
        d >= 0 ==> scale_component(d, speed, len) >= 0,
        d <= 0 ==> scale_component(d, speed, len) <= 0,
{
    if d >= 0 {
        assert(d * speed >= 0) by (nonlinear_arith)
            requires
                d >= 0,
                speed >= 0,
        ;
    } else {
        assert((-d) * speed >= 0) by (nonlinear_arith)
            requires
                d < 0,
                speed >= 0,
        ;
    }
}

/// Holds `v` to `[0, hi]`.
pub fn clamp_coord(v: i128, hi: i64) -> (r: i64)
    requires
        0 <= hi,
    ensures
        r == clamp(v as int, hi as int),
        0 <= r <= hi,
{
    if v < 0 {
        0
    } else if v > hi as i128 {
        hi
    } else {
        v as i64
    }
}

/// Squared distance between two points of `[0, MAX_COORD]²`.
pub fn distance_squared(ax: i64, ay: i64, bx: i64, by: i64) -> (r: i64)
    requires
        0 <= ax <= MAX_COORD,
        0 <= ay <= MAX_COORD,
        0 <= bx <= MAX_COORD,
        0 <= by <= MAX_COORD,
    ensures
        r == dist2(ax as int, ay as int, bx as int, by as int),
        0 <= r <= 2 * MAX_COORD * MAX_COORD,
{
    let dx: i64 = ax - bx;
    let dy: i64 = ay - by;
    assert(0 <= dx * dx <= MAX_COORD * MAX_COORD) by (nonlinear_arith)
        requires
            -MAX_COORD <= dx <= MAX_COORD,
    ;
    assert(0 <= dy * dy <= MAX_COORD * MAX_COORD) by (nonlinear_arith)
        requires
            -MAX_COORD <= dy <= MAX_COORD,
    ;
    dx * dx + dy * dy
}

/// Integer square root, rounded down.
pub fn isqrt(n: u64) -> (r: u64)
    ensures
        is_root(r as int, n as int),
        r as int == root(n as int),
{
    let mut lo: u64 = 0;
    let mut hi: u64 = 0x1_0000_0000;
    assert(n < hi * hi) by (nonlinear_arith)
        requires
            n <= 0xffff_ffff_ffff_ffffu64,
            hi == 0x1_0000_0000u64,
    ;
    while hi - lo > 1
        invariant
            lo < hi <= 0x1_0000_0000,
            lo * lo <= n,
            n < hi * hi,
        decreases hi - lo,
    {
        let mid: u64 = lo + (hi - lo) / 2;
        assert(mid * mid <= 0x1_0000_0000u64 * 0x1_0000_0000u64) by (nonlinear_arith)
            requires
                mid <= 0x1_0000_0000u64,
        ;
        let sq: u128 = (mid as u128) * (mid as u128);
        if sq <= n as u128 {
            lo = mid;
        } else {
            hi = mid;
        }
    }
    assert(hi == lo + 1);
    assert(is_root(lo as int, n as int));
    let ghost w = root(n as int);
    proof {
        assert(is_root(w, n as int));
        lemma_root_unique(lo as int, w, n as int);
    }
    lo
}

/// Moves coordinate `x` by `delta` and holds the result to `[0, hi]`.
pub fn shift_coord(x: i64, delta: i128, hi: i64) -> (r: i64)
    requires
        0 <= hi,
        -MAX_COORD <= x <= MAX_COORD,
        -0x1_0000_0000_0000_0000_0000_0000_0000 <= delta <= 0x1_0000_0000_0000_0000_0000_0000_0000,
    ensures
        r == clamp(x + delta, hi as int),
        0 <= r <= hi,
{
    clamp_coord(x as i128 + delta, hi)
}

/// `d * speed / len` rounded toward zero.
pub fn scale_toward(d: i64, speed: u128, len: u64) -> (r: i128)
    requires
        0 < len,
        speed <= 0x100_0000_0000_0000_0000u128,
        -2 * MAX_COORD <= d <= 2 * MAX_COORD,
    ensures
        r == scale_component(d as int, speed as int, len as int),
        -0x1_0000_0000_0000_0000_0000_0000_0000 <= r <= 0x1_0000_0000_0000_0000_0000_0000_0000,
{
    let neg = d < 0;
    let a: u128 = if neg {
        (-(d as i128)) as u128
    } else {
        d as u128
    };
    assert(a * speed <= 0x8000_0000 * 0x100_0000_0000_0000_0000u128) by (nonlinear_arith)
        requires
            a <= 0x8000_0000u128,
            speed <= 0x100_0000_0000_0000_0000u128,
    ;
    let p: u128 = a * speed;
    let q: u128 = p / (len as u128);
    assert(q <= p) by (nonlinear_arith)
        requires
            q == p / (len as u128),
            len >= 1,
    ;
    if neg {
        -(q as i128)
    } else {
        q as i128
    }
}

} // verus!
