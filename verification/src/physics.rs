//! The force law: pairwise gravitational acceleration, orbital and escape
//! speeds, and the overlap test.
//!
//! The gravitational constant is the rational `G_NUM / G_DEN` per mass unit,
//! chosen small the way the classical constant is; only its consistency
//! across the system matters, not its absolute physical scale.

use vstd::prelude::*;

use crate::planet::{Planet, ACC_LIMIT, POS_LIMIT, VEL_LIMIT};
use crate::vec2::{abs128, absi, clampi, clamp_to, dist_sq, isqrt, mul_div_signed, sqrt_floor,
    tdiv, Vec2, SCALE};
use vstd::arithmetic::div_mod::{lemma_div_is_ordered, lemma_div_is_ordered_by_denominator};

verus! {

/// Numerator of the gravitational constant.
pub const G_NUM: u64 = 66;

/// Denominator of the gravitational constant.
pub const G_DEN: u64 = 1_000_000_000_000;

/// Fixed-point distance between two points: the truncated square root of
/// the squared coordinate distance.
pub open spec fn dist_fp(a: Vec2, b: Vec2) -> int {
    sqrt_floor(dist_sq(a, b) as nat) as int
}

/// Scale factor of the acceleration one body owes to a mass `m` at
/// fixed-point distance `d`: the fixed-point magnitude of `G * m / dist^2`.
pub open spec fn accel_scale(m: int, d: int) -> int
    recommends
        1 <= m,
        1 <= d,
{
    (G_NUM * m * SCALE * SCALE * SCALE) / (G_DEN * (d * d))
}

/// x component of the acceleration `a` experiences toward `b`, before
/// clamping; zero for coincident positions (the normalize-or-zero
/// policy).
pub open spec fn grav_accel_raw_x(a: Planet, b: Planet) -> int {
    let dx = b.pos.x - a.pos.x;
    let d = dist_fp(a.pos, b.pos);
    if d == 0 {
        0
    } else {
        tdiv(dx * accel_scale(b.mass as int, d), d)
    }
}

/// y component of the acceleration `a` experiences toward `b`, before
/// clamping.
pub open spec fn grav_accel_raw_y(a: Planet, b: Planet) -> int {
    let dy = b.pos.y - a.pos.y;
    let d = dist_fp(a.pos, b.pos);
    if d == 0 {
        0
    } else {
        tdiv(dy * accel_scale(b.mass as int, d), d)
    }
}

/// x component of the acceleration `a` experiences toward `b`, clamped
/// into the acceleration domain.
pub open spec fn grav_accel_x(a: Planet, b: Planet) -> int {
    clampi(grav_accel_raw_x(a, b), ACC_LIMIT as int)
}

/// y component of the acceleration `a` experiences toward `b`, clamped
/// into the acceleration domain.
pub open spec fn grav_accel_y(a: Planet, b: Planet) -> int {
    clampi(grav_accel_raw_y(a, b), ACC_LIMIT as int)
}

/// Signed coordinate deltas and the fixed-point distance between two
/// in-domain points, with the square-root bracketing facts callers need.
fn dist_parts(a: Vec2, b: Vec2) -> (dp: (i128, i128, u128))
    requires
        -POS_LIMIT <= a.x <= POS_LIMIT,
        -POS_LIMIT <= a.y <= POS_LIMIT,
        -POS_LIMIT <= b.x <= POS_LIMIT,
        -POS_LIMIT <= b.y <= POS_LIMIT,
    ensures
        dp.0 == b.x - a.x,
        dp.1 == b.y - a.y,
        dp.2 == dist_fp(a, b),
        dp.2 <= 3_000_000_000_000,
        dp.2 * dp.2 <= dist_sq(a, b) < (dp.2 + 1) * (dp.2 + 1),
        (dp.2 == 0) <==> (a == b),
{
    let dx: i128 = b.x as i128 - a.x as i128;
    let dy: i128 = b.y as i128 - a.y as i128;
    let dxa: u128 = abs128(dx);
    let dya: u128 = abs128(dy);
    proof {
        assert(dxa * dxa == (dx as int) * (dx as int) && dya * dya == (dy as int) * (dy as int)
            && dxa * dxa <= 4_000_000_000_000_000_000_000_000 && dya * dya
            <= 4_000_000_000_000_000_000_000_000) by (nonlinear_arith)
            requires
                dxa == absi(dx as int),
                dya == absi(dy as int),
                dxa <= 2_000_000_000_000u128,
                dya <= 2_000_000_000_000u128;
    }
    let d2: u128 = dxa * dxa + dya * dya;
    let d: u128 = isqrt(d2);
    proof {
        crate::vec2::lemma_sqrt_floor_bounds(d2 as nat);
        assert(d <= 3_000_000_000_000 && (d == 0 ==> d2 == 0)) by (nonlinear_arith)
            requires
                d * d <= d2 < (d + 1) * (d + 1),
                d2 <= 8_000_000_000_000_000_000_000_000u128,
                d >= 0;
        assert(d2 == 0 <==> dx == 0 && dy == 0) by (nonlinear_arith)
            requires
                d2 == dxa * dxa + dya * dya,
                dxa == absi(dx as int),
                dya == absi(dy as int);
        assert(a == b ==> dx == 0 && dy == 0);
        assert(dx == 0 && dy == 0 ==> a == b);
    }
    (dx, dy, d)
}

/// Gravitational acceleration `self_planet` experiences due to `planet`,
/// computed from the two bodies' current positions and `planet`'s mass.
/// Coincident positions yield the zero vector rather than a fault.
pub fn calc_accel(self_planet: &Planet, planet: &Planet) -> (a: Vec2)
    requires
        self_planet.valid(),
        planet.valid(),
    ensures
        a.x == grav_accel_x(*self_planet, *planet),
        a.y == grav_accel_y(*self_planet, *planet),
        -ACC_LIMIT <= a.x <= ACC_LIMIT,
        -ACC_LIMIT <= a.y <= ACC_LIMIT,
        self_planet.pos == planet.pos ==> a == (Vec2 { x: 0i64, y: 0i64 }),
{
    let dp = dist_parts(self_planet.pos, planet.pos);
    let dx: i128 = dp.0;
    let dy: i128 = dp.1;
    let d: u128 = dp.2;
    if d == 0 {
        return Vec2::zero();
    }
    let m: u128 = planet.mass as u128;
    proof {
        assert((G_NUM as int) * m <= 660_000_000_000_000_000
            && (G_NUM as int) * m * (SCALE as int) <= 660_000_000_000_000_000_000_000
            && (G_NUM as int) * m * (SCALE as int) * (SCALE as int)
                <= 660_000_000_000_000_000_000_000_000_000
            && (G_NUM as int) * m * (SCALE as int) * (SCALE as int) * (SCALE as int)
                <= 660_000_000_000_000_000_000_000_000_000_000_000) by (nonlinear_arith)
            requires
                G_NUM == 66u64,
                1 <= m <= 10_000_000_000_000_000u128,
                SCALE == 1_000_000i64;
        assert(d * d <= 9_000_000_000_000_000_000_000_000
            && 1 <= d * d
            && (G_DEN as int) * (d * d) <= 9_000_000_000_000_000_000_000_000_000_000_000_000)
            by (nonlinear_arith)
            requires
                G_DEN == 1_000_000_000_000u64,
                1 <= d <= 3_000_000_000_000u128;
        assert((G_DEN as int) * (d * d) >= G_DEN) by (nonlinear_arith)
            requires
                G_DEN == 1_000_000_000_000u64,
                1 <= d * d;
    }
    let num: u128 = (G_NUM as u128) * m * (SCALE as u128) * (SCALE as u128) * (SCALE as u128);
    let den: u128 = (G_DEN as u128) * (d * d);
    let t: u128 = num / den;
    proof {
        lemma_div_is_ordered_by_denominator(num as int, G_DEN as int, den as int);
        lemma_div_is_ordered(
            num as int,
            660_000_000_000_000_000_000_000_000_000_000_000,
            G_DEN as int,
        );
        assert(t <= 660_000_000_000_000_000_000_000);
    }
    let ax: i128 = mul_div_signed(dx, t, d);
    let ay: i128 = mul_div_signed(dy, t, d);
    Vec2 { x: clamp_to(ax, ACC_LIMIT), y: clamp_to(ay, ACC_LIMIT) }
}

/// Whether two bodies overlap: coordinate distance at most the sum of the
/// radii, tangency included. Stated over squares, which is exact.
pub open spec fn overlaps(a: Planet, b: Planet) -> bool {
    dist_sq(a.pos, b.pos) <= (a.radius + b.radius) * (a.radius + b.radius)
}

/// Pairwise collision test (closed boundary: touching counts).
pub fn check_collision(self_planet: &Planet, planet: &Planet) -> (c: bool)
    requires
        self_planet.valid(),
        planet.valid(),
    ensures
        c == overlaps(*self_planet, *planet),
{
    let dp = dist_parts(self_planet.pos, planet.pos);
    let dx: i128 = dp.0;
    let dy: i128 = dp.1;
    let dxa: u128 = abs128(dx);
    let dya: u128 = abs128(dy);
    proof {
        assert(dxa * dxa == (dx as int) * (dx as int) && dya * dya == (dy as int) * (dy as int)
            && dxa * dxa <= 4_000_000_000_000_000_000_000_000 && dya * dya
            <= 4_000_000_000_000_000_000_000_000) by (nonlinear_arith)
            requires
                dxa == absi(dx as int),
                dya == absi(dy as int),
                dxa <= 2_000_000_000_000u128,
                dya <= 2_000_000_000_000u128;
    }
    let d2: u128 = dxa * dxa + dya * dya;
    let rsum: u128 = (self_planet.radius as u128) + (planet.radius as u128);
    proof {
        assert(rsum * rsum <= 400_000_000_000_000_000_000 && rsum * rsum == (self_planet.radius
            + planet.radius) * (self_planet.radius + planet.radius)) by (nonlinear_arith)
            requires
                rsum == self_planet.radius + planet.radius,
                2 <= rsum <= 20_000_000_000u128;
    }
    d2 <= rsum * rsum
}

/// Escape-speed threshold: the fixed-point square of the escape speed from
/// a mass `m` at fixed-point distance `d`.
pub open spec fn escape_threshold(m: int, d: int) -> int
    recommends
        1 <= m,
        1 <= d,
{
    (2 * G_NUM * m * SCALE * SCALE * SCALE) / (G_DEN * d)
}

/// Whether `planet`'s current speed strictly exceeds the escape speed from
/// `sun` at the current separation. Coincident positions never escape
/// (the threshold is unbounded there).
pub open spec fn escapes(planet: Planet, sun: Planet) -> bool {
    let d = dist_fp(planet.pos, sun.pos);
    if d == 0 {
        false
    } else {
        planet.vel.x * planet.vel.x + planet.vel.y * planet.vel.y > escape_threshold(
            sun.mass as int,
            d,
        )
    }
}

/// Diagnostic predicate: true iff the body's speed strictly exceeds the
/// escape speed for the anchor's mass at the current separation. A speed
/// exactly at the threshold does not escape. Never alters state.
pub fn check_escape_velocity(planet: &Planet, sun: &Planet) -> (esc: bool)
    requires
        planet.valid(),
        sun.valid(),
    ensures
        esc == escapes(*planet, *sun),
{
    let dp = dist_parts(planet.pos, sun.pos);
    let d: u128 = dp.2;
    if d == 0 {
        return false;
    }
    let m: u128 = sun.mass as u128;
    proof {
        assert(2 * (G_NUM as int) * m <= 1_320_000_000_000_000_000
            && 2 * (G_NUM as int) * m * (SCALE as int) <= 1_320_000_000_000_000_000_000_000
            && 2 * (G_NUM as int) * m * (SCALE as int) * (SCALE as int)
                <= 1_320_000_000_000_000_000_000_000_000_000
            && 2 * (G_NUM as int) * m * (SCALE as int) * (SCALE as int) * (SCALE as int)
                <= 1_320_000_000_000_000_000_000_000_000_000_000_000) by (nonlinear_arith)
            requires
                G_NUM == 66u64,
                1 <= m <= 10_000_000_000_000_000u128,
                SCALE == 1_000_000i64;
        assert((G_DEN as int) * d <= 3_000_000_000_000_000_000_000_000_000)
            by (nonlinear_arith)
            requires
                G_DEN == 1_000_000_000_000u64,
                1 <= d <= 3_000_000_000_000u128;
    }
    let num: u128 = 2 * (G_NUM as u128) * m * (SCALE as u128) * (SCALE as u128) * (SCALE as u128);
    let den: u128 = (G_DEN as u128) * d;
    let thr: u128 = num / den;
    let vxa: u128 = abs128(planet.vel.x as i128);
    let vya: u128 = abs128(planet.vel.y as i128);
    proof {
        assert(vxa * vxa == planet.vel.x * planet.vel.x && vya * vya == planet.vel.y
            * planet.vel.y && vxa * vxa <= 1_000_000_000_000_000_000_000_000 && vya * vya
            <= 1_000_000_000_000_000_000_000_000) by (nonlinear_arith)
            requires
                vxa == absi(planet.vel.x as int),
                vya == absi(planet.vel.y as int),
                vxa <= 1_000_000_000_000u128,
                vya <= 1_000_000_000_000u128;
    }
    let v2: u128 = vxa * vxa + vya * vya;
    v2 > thr
}

/// Fixed-point speed of a circular orbit around a mass `m` at fixed-point
/// distance `d`: the truncated square root of `G * m / dist`, in fixed
/// point.
pub open spec fn orbital_speed(m: int, d: int) -> int
    recommends
        1 <= m,
        1 <= d,
{
    sqrt_floor(((G_NUM * m * SCALE * SCALE * SCALE) / (G_DEN * d)) as nat) as int
}

/// x component of the initial orbital velocity: the orbital speed applied
/// along the quarter-turn of the body-to-anchor direction.
pub open spec fn orbital_velocity_x(planet: Planet, sun: Planet) -> int {
    let dy = sun.pos.y - planet.pos.y;
    let d = dist_fp(planet.pos, sun.pos);
    tdiv(-dy * orbital_speed(sun.mass as int, d), d)
}

/// y component of the initial orbital velocity.
pub open spec fn orbital_velocity_y(planet: Planet, sun: Planet) -> int {
    let dx = sun.pos.x - planet.pos.x;
    let d = dist_fp(planet.pos, sun.pos);
    tdiv(dx * orbital_speed(sun.mass as int, d), d)
}

/// Velocity that puts `planet` on an approximately circular orbit around
/// `sun` at the current separation, perpendicular to the radius vector.
/// The positions must differ: the direction is undefined at distance zero.
pub fn calc_init_orbital_velocity(planet: &Planet, sun: &Planet) -> (v: Vec2)
    requires
        planet.valid(),
        sun.valid(),
        planet.pos != sun.pos,
    ensures
        v.x == orbital_velocity_x(*planet, *sun),
        v.y == orbital_velocity_y(*planet, *sun),
        -VEL_LIMIT <= v.x <= VEL_LIMIT,
        -VEL_LIMIT <= v.y <= VEL_LIMIT,
{
    let dp = dist_parts(planet.pos, sun.pos);
    let dx: i128 = dp.0;
    let dy: i128 = dp.1;
    let d: u128 = dp.2;
    let m: u128 = sun.mass as u128;
    proof {
        assert((G_NUM as int) * m <= 660_000_000_000_000_000
            && (G_NUM as int) * m * (SCALE as int) <= 660_000_000_000_000_000_000_000
            && (G_NUM as int) * m * (SCALE as int) * (SCALE as int)
                <= 660_000_000_000_000_000_000_000_000_000
            && (G_NUM as int) * m * (SCALE as int) * (SCALE as int) * (SCALE as int)
                <= 660_000_000_000_000_000_000_000_000_000_000_000) by (nonlinear_arith)
            requires
                G_NUM == 66u64,
                1 <= m <= 10_000_000_000_000_000u128,
                SCALE == 1_000_000i64;
        assert((G_DEN as int) * d <= 3_000_000_000_000_000_000_000_000_000)
            by (nonlinear_arith)
            requires
                G_DEN == 1_000_000_000_000u64,
                1 <= d <= 3_000_000_000_000u128;
    }
    let num: u128 = (G_NUM as u128) * m * (SCALE as u128) * (SCALE as u128) * (SCALE as u128);
    let den: u128 = (G_DEN as u128) * d;
    let q: u128 = num / den;
    proof {
        lemma_div_is_ordered_by_denominator(num as int, G_DEN as int, den as int);
        lemma_div_is_ordered(
            num as int,
            660_000_000_000_000_000_000_000_000_000_000_000,
            G_DEN as int,
        );
        assert(q <= 660_000_000_000_000_000_000_000);
    }
    let vmag: u128 = isqrt(q);
    proof {
        crate::vec2::lemma_sqrt_floor_bounds(q as nat);
        assert(vmag <= 1_000_000_000_000) by (nonlinear_arith)
            requires
                vmag * vmag <= 660_000_000_000_000_000_000_000,
                vmag >= 0;
        assert(absi(dx as int) <= d && absi(dy as int) <= d) by (nonlinear_arith)
            requires
                d * d <= (dx as int) * (dx as int) + (dy as int) * (dy as int) < (d + 1) * (d
                    + 1),
                d >= 0;
    }
    let vx: i128 = mul_div_signed(-dy, vmag, d);
    let vy: i128 = mul_div_signed(dx, vmag, d);
    proof {
        lemma_ratio_bounded(dy as int, vmag as int, d as int);
        lemma_ratio_bounded(dx as int, vmag as int, d as int);
        assert(absi((-dy) as int) == absi(dy as int));
    }
    Vec2 { x: vx as i64, y: vy as i64 }
}

/// One component of Newton's third law, over the truncated quotients: with
/// `ub` and `ua` the unsigned acceleration magnitudes the two bodies
/// compute from each other, the mass-weighted magnitudes agree to within
/// twice the two truncations.
proof fn lemma_accel_component_antisym(ma: int, mb: int, delta: int, dsq: int, d: int)
    requires
        1 <= ma,
        1 <= mb,
        1 <= d,
        delta * delta <= dsq,
        dsq < (d + 1) * (d + 1),
    ensures
        absi(
            ma * tdiv(delta * accel_scale(mb, d), d) + mb * tdiv((-delta) * accel_scale(ma, d), d),
        ) < 2 * (ma + mb),
        tdiv(delta * accel_scale(mb, d), d) >= 0 && tdiv((-delta) * accel_scale(ma, d), d) <= 0
            || tdiv(delta * accel_scale(mb, d), d) <= 0 && tdiv(
            (-delta) * accel_scale(ma, d),
            d,
        ) >= 0,
{
    let xx = absi(delta);
    assert(xx <= d) by (nonlinear_arith)
        requires
            delta * delta <= dsq,
            dsq < (d + 1) * (d + 1),
            1 <= d,
            xx == absi(delta);
    let p = 66_000_000_000_000_000_000int;
    let dd = (G_DEN as int) * (d * d);
    let k = (G_DEN as int) * (d * d * d);
    assert(dd >= 1 && k >= 1 && k == dd * d) by (nonlinear_arith)
        requires
            1 <= d,
            G_DEN == 1_000_000_000_000u64,
            dd == (G_DEN as int) * (d * d),
            k == (G_DEN as int) * (d * d * d);
    let tb = accel_scale(mb, d);
    let ta = accel_scale(ma, d);
    assert((G_NUM as int) * mb * (SCALE as int) * (SCALE as int) * (SCALE as int) == mb * p
        && (G_NUM as int) * ma * (SCALE as int) * (SCALE as int) * (SCALE as int) == ma * p)
        by (nonlinear_arith)
        requires
            G_NUM == 66u64,
            SCALE == 1_000_000i64,
            p == 66_000_000_000_000_000_000int;
    assert(tb == (mb * p) / dd && ta == (ma * p) / dd);
    lemma_div_brackets(mb * p, dd);
    lemma_div_brackets(ma * p, dd);
    let ub = (tb * xx) / d;
    let ua = (ta * xx) / d;
    assert(tb * xx >= 0 && ta * xx >= 0) by (nonlinear_arith)
        requires
            tb >= 0,
            ta >= 0,
            xx >= 0;
    lemma_div_brackets(tb * xx, d);
    lemma_div_brackets(ta * xx, d);
    let c = ma * (mb * p) * xx;
    assert(ma * ub * k <= c && ma * ub * k > c - 2 * ma * k) by (nonlinear_arith)
        requires
            1 <= ma,
            0 <= xx <= d,
            1 <= d,
            1 <= dd,
            k == dd * d,
            dd * tb <= mb * p,
            mb * p < dd * (tb + 1),
            0 <= tb,
            d * ub <= tb * xx,
            tb * xx < d * (ub + 1),
            0 <= ub,
            c == ma * (mb * p) * xx;
    assert(mb * ua * k <= c && mb * ua * k > c - 2 * mb * k) by (nonlinear_arith)
        requires
            1 <= mb,
            1 <= ma,
            0 <= xx <= d,
            1 <= d,
            1 <= dd,
            k == dd * d,
            dd * ta <= ma * p,
            ma * p < dd * (ta + 1),
            0 <= ta,
            d * ua <= ta * xx,
            ta * xx < d * (ua + 1),
            0 <= ua,
            c == ma * (mb * p) * xx;
    let diff = ma * ub - mb * ua;
    assert(absi(diff) < 2 * (ma + mb)) by (nonlinear_arith)
        requires
            ma * ub * k <= c,
            ma * ub * k > c - 2 * ma * k,
            mb * ua * k <= c,
            mb * ua * k > c - 2 * mb * k,
            k >= 1,
            1 <= ma,
            1 <= mb,
            diff == ma * ub - mb * ua,
            absi(diff) == if diff >= 0 {
                diff
            } else {
                -diff
            };
    let rab = tdiv(delta * tb, d);
    let rba = tdiv((-delta) * ta, d);
    crate::vec2::lemma_tdiv_abs(delta * tb, d);
    crate::vec2::lemma_tdiv_abs((-delta) * ta, d);
    assert(absi(delta * tb) == xx * tb && absi((-delta) * ta) == xx * ta) by (nonlinear_arith)
        requires
            xx == absi(delta),
            tb >= 0,
            ta >= 0;
    assert(xx * tb == tb * xx && xx * ta == ta * xx) by (nonlinear_arith);
    assert(absi(rab) == ub && absi(rba) == ua);
    if delta >= 0 {
        assert(delta * tb >= 0 && (-delta) * ta <= 0) by (nonlinear_arith)
            requires
                delta >= 0,
                tb >= 0,
                ta >= 0;
        assert(rab == ub && rba == -ua);
        assert(ma * rab + mb * rba == diff) by (nonlinear_arith)
            requires
                rab == ub,
                rba == -ua,
                diff == ma * ub - mb * ua;
    } else {
        assert(delta * tb <= 0 && (-delta) * ta >= 0) by (nonlinear_arith)
            requires
                delta < 0,
                tb >= 0,
                ta >= 0;
        assert(rab == -ub && rba == ua);
        assert(ma * rab + mb * rba == -diff) by (nonlinear_arith)
            requires
                rab == -ub,
                rba == ua,
                diff == ma * ub - mb * ua;
    }
}

/// Bracket a truncated quotient of non-negative operands between its
/// multiples of the divisor.
proof fn lemma_div_brackets(x: int, d: int)
    requires
        0 <= x,
        1 <= d,
    ensures
        d * (x / d) <= x,
        x < d * (x / d + 1),
        0 <= x / d,
{
    vstd::arithmetic::div_mod::lemma_fundamental_div_mod(x, d);
    vstd::arithmetic::div_mod::lemma_mod_bound(x, d);
    vstd::arithmetic::div_mod::lemma_div_pos_is_pos(x, d);
    assert(d * (x / d + 1) == d * (x / d) + d) by (nonlinear_arith);
}

/// Newton's third law for a body pair: per component, the mass-weighted
/// accelerations of the two bodies cancel up to the truncations the fixed
/// point arithmetic performs (an error below `2 * (m_a + m_b)`), exact
/// antisymmetry holding of the underlying rational force; and the clamped
/// accelerations point in opposite directions component by component.
pub proof fn lemma_accel_antisymmetric(a: Planet, b: Planet)
    requires
        a.valid(),
        b.valid(),
        a.pos != b.pos,
    ensures
        absi(a.mass * grav_accel_raw_x(a, b) + b.mass * grav_accel_raw_x(b, a)) < 2 * (a.mass
            + b.mass),
        absi(a.mass * grav_accel_raw_y(a, b) + b.mass * grav_accel_raw_y(b, a)) < 2 * (a.mass
            + b.mass),
        grav_accel_x(a, b) * grav_accel_x(b, a) <= 0,
        grav_accel_y(a, b) * grav_accel_y(b, a) <= 0,
{
    let dsq = dist_sq(a.pos, b.pos);
    assert(dist_sq(b.pos, a.pos) == dsq && dsq > 0 && (b.pos.x - a.pos.x) * (b.pos.x - a.pos.x)
        <= dsq && (b.pos.y - a.pos.y) * (b.pos.y - a.pos.y) <= dsq) by (nonlinear_arith)
        requires
            dsq == dist_sq(a.pos, b.pos),
            dist_sq(a.pos, b.pos) == (b.pos.x - a.pos.x) * (b.pos.x - a.pos.x) + (b.pos.y
                - a.pos.y) * (b.pos.y - a.pos.y),
            dist_sq(b.pos, a.pos) == (a.pos.x - b.pos.x) * (a.pos.x - b.pos.x) + (a.pos.y
                - b.pos.y) * (a.pos.y - b.pos.y),
            b.pos.x - a.pos.x != 0 || b.pos.y - a.pos.y != 0;
    let d = dist_fp(a.pos, b.pos);
    assert(dist_fp(b.pos, a.pos) == d);
    crate::vec2::lemma_sqrt_floor_bounds(dsq as nat);
    assert(d >= 1) by {
        if d == 0 {
            assert(dsq < (0 + 1) * (0 + 1));
            assert((0 + 1) * (0 + 1) == 1) by (nonlinear_arith);
        }
    }
    let dx = b.pos.x - a.pos.x;
    let dy = b.pos.y - a.pos.y;
    lemma_accel_component_antisym(a.mass as int, b.mass as int, dx, dsq, d);
    lemma_accel_component_antisym(a.mass as int, b.mass as int, dy, dsq, d);
    assert(grav_accel_raw_x(a, b) == tdiv(dx * accel_scale(b.mass as int, d), d));
    assert(grav_accel_raw_x(b, a) == tdiv((-dx) * accel_scale(a.mass as int, d), d));
    assert(grav_accel_raw_y(a, b) == tdiv(dy * accel_scale(b.mass as int, d), d));
    assert(grav_accel_raw_y(b, a) == tdiv((-dy) * accel_scale(a.mass as int, d), d));
    lemma_clamp_opposite(grav_accel_raw_x(a, b), grav_accel_raw_x(b, a), ACC_LIMIT as int);
    lemma_clamp_opposite(grav_accel_raw_y(a, b), grav_accel_raw_y(b, a), ACC_LIMIT as int);
}

/// Clamping two values of opposite sign keeps their product non-positive.
proof fn lemma_clamp_opposite(v1: int, v2: int, lim: int)
    requires
        lim >= 0,
        v1 >= 0 && v2 <= 0 || v1 <= 0 && v2 >= 0,
    ensures
        clampi(v1, lim) * clampi(v2, lim) <= 0,
{
    let c1 = clampi(v1, lim);
    let c2 = clampi(v2, lim);
    if v1 >= 0 && v2 <= 0 {
        assert(c1 >= 0 && c2 <= 0);
        assert(c1 * c2 <= 0) by (nonlinear_arith)
            requires
                c1 >= 0,
                c2 <= 0;
    } else {
        assert(c1 <= 0 && c2 >= 0);
        assert(c1 * c2 <= 0) by (nonlinear_arith)
            requires
                c1 <= 0,
                c2 >= 0;
    }
}

/// `|delta| <= d` keeps `|delta| * v / d` at or below `v`.
proof fn lemma_ratio_bounded(delta: int, v: int, d: int)
    requires
        1 <= d,
        0 <= v,
        absi(delta) <= d,
    ensures
        (absi(delta) * v) / d <= v,
{
    vstd::arithmetic::mul::lemma_mul_inequality(absi(delta), d, v);
    assert((absi(delta) * v) / d <= (d * v) / d) by {
        lemma_div_is_ordered(absi(delta) * v, d * v, d);
    }
    assert((d * v) / d == v) by {
        vstd::arithmetic::mul::lemma_mul_is_commutative(d, v);
        vstd::arithmetic::div_mod::lemma_div_by_multiple(v, d);
    }
}

} // verus!
