//! Fixed-point plane vectors and the scalar helpers the physics is built on.
//!
//! Every coordinate-like quantity (position, velocity, acceleration, radius,
//! timestep) is an `i64` counting micro-units: `SCALE` fixed-point steps make
//! one world unit. Masses are plain `u64` values. All arithmetic on these
//! scalars is integer arithmetic, so each formula in this crate states its
//! result exactly.

use vstd::prelude::*;

verus! {

/// Fixed-point steps per world unit.
pub const SCALE: i64 = 1_000_000;

/// Truncated (floor) integer square root.
pub open spec fn sqrt_floor(n: nat) -> nat
    decreases n,
{
    if n == 0 {
        0
    } else {
        let p = sqrt_floor((n - 1) as nat);
        if (p + 1) * (p + 1) <= n {
            p + 1
        } else {
            p
        }
    }
}

/// `sqrt_floor(n)` is the unique `r` with `r * r <= n < (r + 1) * (r + 1)`.
pub proof fn lemma_sqrt_floor_bounds(n: nat)
    ensures
        sqrt_floor(n) * sqrt_floor(n) <= n,
        n < (sqrt_floor(n) + 1) * (sqrt_floor(n) + 1),
    decreases n,
{
    if n == 0 {
        let s = sqrt_floor(n);
        assert(n < (s + 1) * (s + 1)) by (nonlinear_arith)
            requires
                n == 0,
                s == 0;
    } else {
        lemma_sqrt_floor_bounds((n - 1) as nat);
        let p = sqrt_floor((n - 1) as nat);
        if (p + 1) * (p + 1) <= n {
            assert(n < (p + 2) * (p + 2)) by (nonlinear_arith)
                requires
                    n <= (p + 1) * (p + 1),
                    p >= 0;
        }
    }
}

pub proof fn lemma_sqrt_floor_unique(n: nat, r: nat)
    requires
        r * r <= n,
        n < (r + 1) * (r + 1),
    ensures
        r == sqrt_floor(n),
{
    lemma_sqrt_floor_bounds(n);
    let s = sqrt_floor(n);
    assert(r == s) by (nonlinear_arith)
        requires
            r * r <= n,
            n < (r + 1) * (r + 1),
            s * s <= n,
            n < (s + 1) * (s + 1),
            r >= 0,
            s >= 0;
}

/// Truncated square root, matching `sqrt_floor` exactly.
pub fn isqrt(n: u128) -> (r: u128)
    ensures
        r == sqrt_floor(n as nat),
{
    if n == 0 {
        proof {
            assert(sqrt_floor(0) == 0);
        }
        return 0;
    }
    let mut lo: u128 = 0;
    let mut hi: u128 = 0x1_0000_0000_0000_0000;
    proof {
        assert(n < hi * hi) by (nonlinear_arith)
            requires
                n <= u128::MAX,
                hi == 0x1_0000_0000_0000_0000u128;
    }
    while lo + 1 < hi
        invariant
            lo < hi,
            hi <= 0x1_0000_0000_0000_0000,
            lo * lo <= n,
            n < hi * hi,
        decreases hi - lo,
    {
        let mid: u128 = lo + (hi - lo) / 2;
        proof {
            assert(mid * mid <= u128::MAX) by (nonlinear_arith)
                requires
                    mid < 0x1_0000_0000_0000_0000u128;
        }
        if mid * mid <= n {
            lo = mid;
        } else {
            hi = mid;
        }
    }
    proof {
        lemma_sqrt_floor_unique(n as nat, lo as nat);
    }
    lo
}

/// Clamp to the symmetric interval `[-lim, lim]`.
pub open spec fn clampi(v: int, lim: int) -> int {
    if v > lim {
        lim
    } else if v < -lim {
        -lim
    } else {
        v
    }
}

/// Clamp a wide intermediate back into `i64` range.
pub fn clamp_to(v: i128, lim: i64) -> (r: i64)
    requires
        lim >= 0,
    ensures
        r == clampi(v as int, lim as int),
{
    if v > lim as i128 {
        lim
    } else if v < -(lim as i128) {
        -lim
    } else {
        v as i64
    }
}

/// Division that truncates toward zero (what `/` does on machine integers),
/// expressed over mathematical integers. `b` must be positive.
pub open spec fn tdiv(a: int, b: int) -> int
    recommends
        b > 0,
{
    if a >= 0 {
        a / b
    } else {
        -((-a) / b)
    }
}

/// Absolute value of a mathematical integer.
pub open spec fn absi(v: int) -> int {
    if v >= 0 {
        v
    } else {
        -v
    }
}

/// Magnitude of a (bounded) signed intermediate.
pub fn abs128(v: i128) -> (r: u128)
    requires
        v > i128::MIN,
    ensures
        r == absi(v as int),
{
    if v >= 0 {
        v as u128
    } else {
        (-v) as u128
    }
}

/// `delta * num / den`, truncating toward zero. The bounds keep every
/// intermediate product inside `u128`.
pub fn mul_div_signed(delta: i128, num: u128, den: u128) -> (r: i128)
    requires
        1 <= den,
        num <= 1_000_000_000_000_000_000_000_000,
        absi(delta as int) <= 4_000_000_000_000,
    ensures
        r == tdiv(delta as int * num as int, den as int),
        absi(r as int) == (absi(delta as int) * num as int) / den as int,
        absi(r as int) <= 4_000_000_000_000_000_000_000_000_000_000_000_000,
{
    let da: u128 = abs128(delta);
    proof {
        assert(da * num <= 4_000_000_000_000_000_000_000_000_000_000_000_000u128)
            by (nonlinear_arith)
            requires
                da <= 4_000_000_000_000u128,
                num <= 1_000_000_000_000_000_000_000_000u128;
    }
    let mag: u128 = (da * num) / den;
    proof {
        vstd::arithmetic::div_mod::lemma_div_nonincreasing(da as int * num as int, den as int);
        assert(mag <= da * num);
        if delta < 0 {
            assert(-(delta as int * num as int) == da * num) by (nonlinear_arith)
                requires
                    da == -(delta as int),
                    delta < 0;
        } else {
            assert(delta as int * num as int == da * num);
        }
    }
    if delta >= 0 {
        mag as i128
    } else {
        -(mag as i128)
    }
}

/// The magnitude of a truncating division is the divided magnitude.
pub proof fn lemma_tdiv_abs(a: int, b: int)
    requires
        1 <= b,
    ensures
        absi(tdiv(a, b)) == absi(a) / b,
        tdiv(a, b) >= 0 <==> (a >= 0 || absi(a) / b == 0),
{
    if a >= 0 {
        vstd::arithmetic::div_mod::lemma_div_pos_is_pos(a, b);
    } else {
        vstd::arithmetic::div_mod::lemma_div_pos_is_pos(-a, b);
    }
}

/// Signed division truncating toward zero, matching `tdiv` exactly.
pub fn tdiv_i128(a: i128, b: u128) -> (r: i128)
    requires
        1 <= b,
        a > i128::MIN,
    ensures
        r == tdiv(a as int, b as int),
        absi(r as int) == absi(a as int) / b as int,
{
    let aa: u128 = abs128(a);
    let mag: u128 = aa / b;
    proof {
        vstd::arithmetic::div_mod::lemma_div_nonincreasing(aa as int, b as int);
        lemma_tdiv_abs(a as int, b as int);
    }
    if a >= 0 {
        mag as i128
    } else {
        -(mag as i128)
    }
}

/// A fixed-point vector in the simulation plane.
#[derive(Clone, Copy, PartialEq, Eq, Structural, Debug)]
pub struct Vec2 {
    pub x: i64,
    pub y: i64,
}

impl Vec2 {
    pub fn new(x: i64, y: i64) -> (v: Vec2)
        ensures
            v == (Vec2 { x, y }),
    {
        Vec2 { x, y }
    }

    pub fn zero() -> (v: Vec2)
        ensures
            v == (Vec2 { x: 0i64, y: 0i64 }),
    {
        Vec2 { x: 0, y: 0 }
    }

    pub fn add(self, other: Vec2) -> (v: Vec2)
        requires
            i64::MIN <= self.x + other.x <= i64::MAX,
            i64::MIN <= self.y + other.y <= i64::MAX,
        ensures
            v.x == self.x + other.x,
            v.y == self.y + other.y,
    {
        Vec2 { x: self.x + other.x, y: self.y + other.y }
    }

    pub fn sub(self, other: Vec2) -> (v: Vec2)
        requires
            i64::MIN <= self.x - other.x <= i64::MAX,
            i64::MIN <= self.y - other.y <= i64::MAX,
        ensures
            v.x == self.x - other.x,
            v.y == self.y - other.y,
    {
        Vec2 { x: self.x - other.x, y: self.y - other.y }
    }

    /// The input rotated a quarter turn counterclockwise.
    pub fn perp(self) -> (v: Vec2)
        requires
            self.y > i64::MIN,
        ensures
            v.x == -self.y,
            v.y == self.x,
    {
        Vec2 { x: -self.y, y: self.x }
    }
}

/// Squared distance between two points, as a mathematical integer.
pub open spec fn dist_sq(a: Vec2, b: Vec2) -> int {
    (b.x - a.x) * (b.x - a.x) + (b.y - a.y) * (b.y - a.y)
}

} // verus!
