//! A simulated body: kinematic state, collision radius, mass and a color
//! tag, together with the per-tick integration step.

use vstd::prelude::*;

use rand::Rng;

use crate::color::PlanetColor;
use crate::physics::{orbital_velocity_x, orbital_velocity_y};
use crate::vec2::{absi, clampi, clamp_to, mul_div_signed, sqrt_floor, tdiv, Vec2, SCALE};

verus! {

/// Largest magnitude a position coordinate may take.
pub const POS_LIMIT: i64 = 1_000_000_000_000;

/// Largest magnitude a velocity component may take.
pub const VEL_LIMIT: i64 = 1_000_000_000_000;

/// Largest magnitude an acceleration component may take.
pub const ACC_LIMIT: i64 = 1_000_000_000_000;

/// Largest collision radius.
pub const RADIUS_LIMIT: i64 = 10_000_000_000;

/// Largest mass a single system may hold in total.
pub const MASS_LIMIT: u64 = 10_000_000_000_000_000;

/// Largest timestep a system may be built with.
pub const TIME_LIMIT: i64 = 1_000_000_000;

/// Base x offset (200 world units, fixed-point) at which a satellite is
/// placed when its drawn orbit radius allows it.
pub const SAT_BASE_X: i64 = 200_000_000;

/// Relies on rand::Rng::gen_range (through rand::thread_rng): a draw from
/// the half-open range `lo..hi`; nothing more is assumed of it.
#[verifier::external_body]
fn sample_range(lo: i64, hi: i64) -> (r: i64)
    requires
        lo < hi,
    ensures
        lo <= r < hi,
{
    rand::thread_rng().gen_range(lo..hi)
}

/// One simulated point-mass.
pub struct Planet {
    /// Display name; not required to be unique and never read by the physics.
    pub name: String,
    /// Position, fixed-point.
    pub pos: Vec2,
    /// Collision radius, fixed-point; used only for overlap geometry.
    pub radius: i64,
    /// Velocity, fixed-point.
    pub vel: Vec2,
    /// Mass, in whole mass units; always positive.
    pub mass: u64,
    /// Color tag for the renderer.
    pub color: PlanetColor,
    /// Acceleration recorded by the last integration step; diagnostic only.
    pub accel: Vec2,
}

impl Planet {
    /// The domain every body admitted into a system lives in: positive
    /// bounded mass and radius, and coordinates small enough that every
    /// intermediate product of the force, energy and integration formulas
    /// fits the machine integers they are computed in.
    pub open spec fn valid(self) -> bool {
        &&& 1 <= self.mass <= MASS_LIMIT
        &&& 1 <= self.radius <= RADIUS_LIMIT
        &&& -POS_LIMIT <= self.pos.x <= POS_LIMIT
        &&& -POS_LIMIT <= self.pos.y <= POS_LIMIT
        &&& -VEL_LIMIT <= self.vel.x <= VEL_LIMIT
        &&& -VEL_LIMIT <= self.vel.y <= VEL_LIMIT
        &&& -ACC_LIMIT <= self.accel.x <= ACC_LIMIT
        &&& -ACC_LIMIT <= self.accel.y <= ACC_LIMIT
    }

    /// Direct constructor. A non-positive or oversized mass or radius is a
    /// configuration error the caller must reject before building a body.
    pub fn new(name: String, pos: Vec2, radius: i64, vel: Vec2, mass: u64, color: PlanetColor) -> (p: Planet)
        requires
            1 <= mass <= MASS_LIMIT,
            1 <= radius <= RADIUS_LIMIT,
            -POS_LIMIT <= pos.x <= POS_LIMIT,
            -POS_LIMIT <= pos.y <= POS_LIMIT,
            -VEL_LIMIT <= vel.x <= VEL_LIMIT,
            -VEL_LIMIT <= vel.y <= VEL_LIMIT,
        ensures
            p == (Planet { name, pos, radius, vel, mass, color, accel: Vec2 { x: SCALE, y: SCALE } }),
            p.valid(),
    {
        Planet { name, pos, radius, vel, mass, color, accel: Vec2 { x: SCALE, y: SCALE } }
    }

    /// x offset of a freshly placed satellite: its orbit radius, capped at
    /// `SAT_BASE_X`.
    pub open spec fn satellite_offset_x(r: int) -> int {
        if r <= SAT_BASE_X {
            r
        } else {
            SAT_BASE_X as int
        }
    }

    /// y offset of a freshly placed satellite: what puts the body at
    /// (truncated) distance `r` from the anchor given the x offset.
    pub open spec fn satellite_offset_y(r: int) -> int {
        let ox = Self::satellite_offset_x(r);
        sqrt_floor((r * r - ox * ox) as nat) as int
    }

    /// The satellite a draw of orbit radius `r` produces: placed at the
    /// offset above from the anchor, with the circular-orbit velocity for
    /// that position.
    pub open spec fn satellite_body(
        sun: Planet,
        name: String,
        radius: i64,
        mass: u64,
        color: PlanetColor,
        r: int,
    ) -> Planet {
        let pos = Vec2 {
            x: (sun.pos.x + Self::satellite_offset_x(r)) as i64,
            y: (sun.pos.y + Self::satellite_offset_y(r)) as i64,
        };
        let stub = Planet {
            name,
            pos,
            radius,
            vel: Vec2 { x: 0i64, y: 0i64 },
            mass,
            color,
            accel: Vec2 { x: SCALE, y: SCALE },
        };
        Planet {
            vel: Vec2 {
                x: orbital_velocity_x(stub, sun) as i64,
                y: orbital_velocity_y(stub, sun) as i64,
            },
            ..stub
        }
    }

    /// Derived constructor: places a new body at a randomized distance of
    /// 25 to 50 radii from `sun` and gives it the velocity of an
    /// approximately circular orbit around it at that instant. The anchor
    /// must sit far enough from the coordinate boundary to leave room.
    pub fn create_satellite(sun: &Planet, name: String, radius: i64, mass: u64, color: PlanetColor) -> (p: Planet)
        requires
            sun.valid(),
            1 <= radius <= RADIUS_LIMIT,
            1 <= mass <= MASS_LIMIT,
            absi(sun.pos.x as int) + 50 * radius <= POS_LIMIT,
            absi(sun.pos.y as int) + 50 * radius <= POS_LIMIT,
        ensures
            p.valid(),
            p.name == name,
            p.mass == mass,
            p.radius == radius,
            p.color == color,
            exists|r: int|
                25 * radius <= r < 50 * radius && p == Self::satellite_body(
                    *sun,
                    name,
                    radius,
                    mass,
                    color,
                    r,
                ),
    {
        let r: i64 = sample_range(25 * radius, 50 * radius);
        let ox: i64 = if r <= SAT_BASE_X {
            r
        } else {
            SAT_BASE_X
        };
        proof {
            assert((r as int) * (r as int) <= 250_000_000_000_000_000_000_000 && (ox as int) * (
            ox as int) <= (r as int) * (r as int)) by (nonlinear_arith)
                requires
                    1 <= ox <= r <= 500_000_000_000i64;
        }
        let rr: u128 = (r as u128) * (r as u128);
        let oxx: u128 = (ox as u128) * (ox as u128);
        let oy128: u128 = crate::vec2::isqrt(rr - oxx);
        proof {
            crate::vec2::lemma_sqrt_floor_bounds((rr - oxx) as nat);
            assert(oy128 <= r) by (nonlinear_arith)
                requires
                    oy128 * oy128 <= (r as int) * (r as int),
                    oy128 >= 0,
                    r >= 0;
        }
        let oy: i64 = oy128 as i64;
        let pos = Vec2 { x: sun.pos.x + ox, y: sun.pos.y + oy };
        let mut p = Self::new(name, pos, radius, Vec2::new(0, 0), mass, color);
        let v = crate::physics::calc_init_orbital_velocity(&p, sun);
        p.vel = v;
        proof {
            assert(p == Self::satellite_body(*sun, p.name, radius, mass, color, r as int));
        }
        p
    }

    /// The body after one semi-implicit Euler step: the given acceleration
    /// is recorded, velocity moves first, position follows using the new
    /// velocity. Components are clamped to the coordinate domain.
    pub open spec fn updated(self, t: int, ax: int, ay: int) -> Planet {
        let vx = clampi(self.vel.x + tdiv(ax * t, SCALE as int), VEL_LIMIT as int);
        let vy = clampi(self.vel.y + tdiv(ay * t, SCALE as int), VEL_LIMIT as int);
        let px = clampi(self.pos.x + tdiv(vx * t, SCALE as int), POS_LIMIT as int);
        let py = clampi(self.pos.y + tdiv(vy * t, SCALE as int), POS_LIMIT as int);
        Planet {
            name: self.name,
            pos: Vec2 { x: px as i64, y: py as i64 },
            radius: self.radius,
            vel: Vec2 { x: vx as i64, y: vy as i64 },
            mass: self.mass,
            color: self.color,
            accel: Vec2 { x: ax as i64, y: ay as i64 },
        }
    }

    /// One integration step (the only mutation of a body outside a merge).
    pub fn update(&mut self, timestep: i64, accel: Vec2)
        requires
            old(self).valid(),
            1 <= timestep <= TIME_LIMIT,
            -ACC_LIMIT <= accel.x <= ACC_LIMIT,
            -ACC_LIMIT <= accel.y <= ACC_LIMIT,
        ensures
            *final(self) == old(self).updated(timestep as int, accel.x as int, accel.y as int),
            final(self).valid(),
    {
        self.accel = accel;
        let dvx: i128 = mul_div_signed(accel.x as i128, timestep as u128, SCALE as u128);
        let dvy: i128 = mul_div_signed(accel.y as i128, timestep as u128, SCALE as u128);
        let vx: i64 = clamp_to(self.vel.x as i128 + dvx, VEL_LIMIT);
        let vy: i64 = clamp_to(self.vel.y as i128 + dvy, VEL_LIMIT);
        self.vel = Vec2 { x: vx, y: vy };
        let dpx: i128 = mul_div_signed(vx as i128, timestep as u128, SCALE as u128);
        let dpy: i128 = mul_div_signed(vy as i128, timestep as u128, SCALE as u128);
        let px: i64 = clamp_to(self.pos.x as i128 + dpx, POS_LIMIT);
        let py: i64 = clamp_to(self.pos.y as i128 + dpy, POS_LIMIT);
        self.pos = Vec2 { x: px, y: py };
    }

    /// Kinetic energy of the body, in fixed-point energy units.
    pub open spec fn kinetic_energy(self) -> int {
        let v2 = self.vel.x * self.vel.x + self.vel.y * self.vel.y;
        (self.mass * (v2 / (SCALE as int))) / (2 * SCALE as int)
    }

    /// Kinetic energy, used by the system's diagnostic energy accounting.
    pub fn calc_energy(&self) -> (e: i128)
        requires
            self.valid(),
        ensures
            e == self.kinetic_energy(),
            0 <= e <= self.mass * 1_000_000_000_000,
    {
        let vxa: u128 = crate::vec2::abs128(self.vel.x as i128);
        let vya: u128 = crate::vec2::abs128(self.vel.y as i128);
        proof {
            assert(vxa * vxa == self.vel.x * self.vel.x && vya * vya == self.vel.y * self.vel.y
                && vxa * vxa <= 1_000_000_000_000_000_000_000_000 && vya * vya
                <= 1_000_000_000_000_000_000_000_000) by (nonlinear_arith)
                requires
                    vxa == absi(self.vel.x as int),
                    vya == absi(self.vel.y as int),
                    vxa <= 1_000_000_000_000u128,
                    vya <= 1_000_000_000_000u128;
        }
        let v2: u128 = vxa * vxa + vya * vya;
        let q: u128 = v2 / (SCALE as u128);
        proof {
            vstd::arithmetic::div_mod::lemma_div_nonincreasing(v2 as int, SCALE as int);
            assert(q <= 2_000_000_000_000_000_000u128) by (nonlinear_arith)
                requires
                    q == v2 as int / (SCALE as int),
                    v2 <= 2_000_000_000_000_000_000_000_000u128,
                    SCALE == 1_000_000i64;
            assert(self.mass * q <= 20_000_000_000_000_000_000_000_000_000_000_000)
                by (nonlinear_arith)
                requires
                    self.mass <= 10_000_000_000_000_000u64,
                    q <= 2_000_000_000_000_000_000u128;
        }
        let e: u128 = ((self.mass as u128) * q) / (2 * SCALE as u128);
        proof {
            vstd::arithmetic::div_mod::lemma_div_nonincreasing(
                self.mass as int * q as int,
                2 * SCALE as int,
            );
            assert(e <= self.mass * 1_000_000_000_000) by (nonlinear_arith)
                requires
                    e == (self.mass as int * q as int) / (2 * SCALE as int),
                    q <= 2_000_000_000_000_000_000u128,
                    self.mass >= 1u64,
                    SCALE == 1_000_000i64;
        }
        e as i128
    }
}

} // verus!
