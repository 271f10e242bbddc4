//! Fixed-point plane geometry: every length is an `i64` counted in
//! thousandths of a world unit.
use vstd::prelude::*;

verus! {

/// Fixed-point units in one world unit.
pub const UNIT: i64 = 1000;

/// Bound on the magnitude of any coordinate the simulation stores.
pub const COORD_MAX: i64 = 10_000_000_000_000;

/// Quotient of integer division rounded toward zero, as Rust's `/` computes it.
pub open spec fn tdiv(a: int, b: int) -> int {
    if a >= 0 {
        a / b
    } else {
        -((-a) / b)
    }
}

pub open spec fn abs(a: int) -> int {
    if a >= 0 {
        a
    } else {
        -a
    }
}

pub open spec fn in_coord(a: int) -> bool {
    -COORD_MAX <= a <= COORD_MAX
}

#[derive(Clone, Copy, Debug, PartialEq, Eq, Structural)]
pub struct Vec2 {
    pub x: i64,
    pub y: i64,
}

impl Vec2 {
    pub open spec fn bounded(self) -> bool {
        in_coord(self.x as int) && in_coord(self.y as int)
    }

    pub fn new(x: i64, y: i64) -> (r: Vec2)
        ensures
            r.x == x,
            r.y == y,
    {
        Vec2 { x, y }
    }

    pub fn zero() -> (r: Vec2)
        ensures
            r.x == 0,
            r.y == 0,
    {
        Vec2 { x: 0, y: 0 }
    }
}

/// Squared euclidean distance between two points.
pub open spec fn dist2(a: Vec2, b: Vec2) -> int {
    (a.x - b.x) * (a.x - b.x) + (a.y - b.y) * (a.y - b.y)
}

/// Largest `r` with `r * r <= n`.
pub open spec fn is_isqrt(n: int, r: int) -> bool {
    0 <= r && r * r <= n < (r + 1) * (r + 1)
}

/// Integer square root by binary search.
pub fn isqrt(n: u128) -> (r: u128)
    ensures
        is_isqrt(n as int, r as int),
{
    let mut lo: u128 = 0;
    let mut hi: u128 = if n < 0x1_0000_0000_0000_0000 { n + 1 } else { 0x1_0000_0000_0000_0000 };
    proof {
        if n >= 0x1_0000_0000_0000_0000 {
            assert(0x1_0000_0000_0000_0000 * 0x1_0000_0000_0000_0000 > u128::MAX) by (nonlinear_arith);
        } else {
            assert((n + 1) * (n + 1) > n) by (nonlinear_arith);
        }
    }
    while lo + 1 < hi
        invariant
            lo < hi,
            hi <= 0x1_0000_0000_0000_0000,
            lo * lo <= n,
            n < hi * hi,
        decreases hi - lo,
    {
        let mid = lo + (hi - lo) / 2;
        assert(mid * mid <= 0xffff_ffff_ffff_ffff * 0xffff_ffff_ffff_ffff) by (nonlinear_arith)
            requires
                mid <= 0xffff_ffff_ffff_ffff,
        ;
        if mid * mid <= n {
            lo = mid;
        } else {
            hi = mid;
        }
    }
    lo
}

/// Euclidean length of `(dx, dy)`, rounded down.
pub fn length(dx: i64, dy: i64) -> (r: i64)
    requires
        abs(dx as int) <= 2 * COORD_MAX,
        abs(dy as int) <= 2 * COORD_MAX,
    ensures
        is_isqrt(dx * dx + dy * dy, r as int),
        0 <= r <= 3 * COORD_MAX,
{
    let sx = dx as i128;
    let sy = dy as i128;
    proof {
        assert(-2 * COORD_MAX <= sx <= 2 * COORD_MAX);
        assert(-2 * COORD_MAX <= sy <= 2 * COORD_MAX);
        assert(sx * sx <= 400_000_000_000_000_000_000_000_000) by (nonlinear_arith)
            requires
                -20_000_000_000_000 <= sx <= 20_000_000_000_000,
        ;
        assert(sy * sy <= 400_000_000_000_000_000_000_000_000) by (nonlinear_arith)
            requires
                -20_000_000_000_000 <= sy <= 20_000_000_000_000,
        ;
        assert(sx * sx >= 0) by (nonlinear_arith);
        assert(sy * sy >= 0) by (nonlinear_arith);
    }
    let s = (sx * sx + sy * sy) as u128;
    let r = isqrt(s);
    proof {
        if r > 3 * COORD_MAX {
            assert(r * r > (3 * COORD_MAX) * (3 * COORD_MAX)) by (nonlinear_arith)
                requires
                    r > 3 * COORD_MAX,
            ;
        }
    }
    r as i64
}

} // verus!
