//! The system: an ordered collection of bodies advanced tick by tick.
//!
//! One tick runs three phases over a snapshot of the collection taken at
//! tick start: accumulate pairwise accelerations and schedule merges,
//! integrate every body, then resolve the scheduled merges and drop the
//! absorbed bodies. Bodies are identified by their index in the collection,
//! never by value equality.

use vstd::prelude::*;

use crate::planet::{Planet, ACC_LIMIT, MASS_LIMIT, TIME_LIMIT, VEL_LIMIT};
use crate::physics::{calc_accel, check_collision, grav_accel_x, grav_accel_y, overlaps};
use crate::vec2::{absi, clampi, clamp_to, dist_sq, tdiv, Vec2};

verus! {

/// Sum of the masses of the first `k` bodies.
pub open spec fn total_mass_upto(s: Seq<Planet>, k: int) -> int
    decreases k,
{
    if k <= 0 {
        0
    } else {
        total_mass_upto(s, k - 1) + s[k - 1].mass
    }
}

/// Total mass of a collection.
pub open spec fn total_mass(s: Seq<Planet>) -> int {
    total_mass_upto(s, s.len() as int)
}

/// Sum of the kinetic energies of the first `k` bodies.
pub open spec fn energy_upto(s: Seq<Planet>, k: int) -> int
    decreases k,
{
    if k <= 0 {
        0
    } else {
        energy_upto(s, k - 1) + s[k - 1].kinetic_energy()
    }
}

/// Total kinetic energy of a collection.
pub open spec fn total_energy(s: Seq<Planet>) -> int {
    energy_upto(s, s.len() as int)
}

/// Mass prefix sums only grow.
proof fn lemma_total_mass_upto_mono(s: Seq<Planet>, k1: int, k2: int)
    requires
        k1 <= k2,
    ensures
        total_mass_upto(s, k1) <= total_mass_upto(s, k2),
    decreases k2,
{
    if k1 < k2 && k2 > 0 {
        lemma_total_mass_upto_mono(s, k1, k2 - 1);
    }
}

/// Two collections that agree on their first `k` bodies have the same
/// mass prefix sum.
proof fn lemma_total_mass_upto_ext(s1: Seq<Planet>, s2: Seq<Planet>, k: int)
    requires
        forall|q: int| 0 <= q < k ==> s1[q] == s2[q],
    ensures
        total_mass_upto(s1, k) == total_mass_upto(s2, k),
    decreases k,
{
    if k > 0 {
        lemma_total_mass_upto_ext(s1, s2, k - 1);
    }
}

/// Sum of the x components of the accelerations body `i` receives from the
/// first `k` bodies; the body itself is excluded and never contributes.
pub open spec fn accel_sum_x(s: Seq<Planet>, i: int, k: int) -> int
    decreases k,
{
    if k <= 0 {
        0
    } else {
        accel_sum_x(s, i, k - 1) + if k - 1 == i {
            0
        } else {
            grav_accel_x(s[i], s[k - 1])
        }
    }
}

/// Sum of the y components, the body itself excluded.
pub open spec fn accel_sum_y(s: Seq<Planet>, i: int, k: int) -> int
    decreases k,
{
    if k <= 0 {
        0
    } else {
        accel_sum_y(s, i, k - 1) + if k - 1 == i {
            0
        } else {
            grav_accel_y(s[i], s[k - 1])
        }
    }
}

/// Net x acceleration of body `i`: its pair sum over every other body,
/// clamped into the acceleration domain.
pub open spec fn net_accel_x(s: Seq<Planet>, i: int) -> int {
    clampi(accel_sum_x(s, i, s.len() as int), ACC_LIMIT as int)
}

/// Net y acceleration of body `i`.
pub open spec fn net_accel_y(s: Seq<Planet>, i: int) -> int {
    clampi(accel_sum_y(s, i, s.len() as int), ACC_LIMIT as int)
}

/// Every body after one integration step, computed from the tick-start
/// snapshot: no body sees another's mid-tick update.
pub open spec fn integrated(s: Seq<Planet>, t: int) -> Seq<Planet> {
    Seq::new(s.len(), |i: int| s[i].updated(t, net_accel_x(s, i), net_accel_y(s, i)))
}

/// Whether scheduling the pair `(i, j)` conflicts with the merges already
/// scheduled: either index is already named as an absorbed body.
pub open spec fn sched_conflict(acc: Seq<(usize, usize)>, i: int, j: int) -> bool {
    exists|k: int| 0 <= k < acc.len() && (acc[k].1 == i || acc[k].1 == j)
}

/// Whether the scan schedules `(i, j)` as survivor and absorbed: two
/// distinct overlapping bodies, the survivor at least as massive, and no
/// conflict with earlier pairs.
pub open spec fn sched_candidate(s: Seq<Planet>, acc: Seq<(usize, usize)>, i: int, j: int) -> bool {
    &&& i != j
    &&& overlaps(s[i], s[j])
    &&& s[i].mass >= s[j].mass
    &&& !sched_conflict(acc, i, j)
}

/// The merge schedule the pair scan produces from position `(i, j)` on,
/// given the pairs already scheduled.
pub open spec fn schedule_from(s: Seq<Planet>, i: nat, j: nat, acc: Seq<(usize, usize)>) -> Seq<
    (usize, usize),
>
    decreases s.len() - i, s.len() - j,
{
    if i >= s.len() {
        acc
    } else if j >= s.len() {
        schedule_from(s, i + 1, 0, acc)
    } else {
        let acc2 = if sched_candidate(s, acc, i as int, j as int) {
            acc.push((i as usize, j as usize))
        } else {
            acc
        };
        schedule_from(s, i, j + 1, acc2)
    }
}

/// The merge schedule of one tick: survivor/absorbed index pairs in scan
/// order over the tick-start snapshot.
pub open spec fn schedule(s: Seq<Planet>) -> Seq<(usize, usize)> {
    schedule_from(s, 0, 0, Seq::empty())
}

/// What the conflict rule guarantees of a schedule: indices in range,
/// survivor and absorbed distinct, no body absorbed twice, and no body
/// first absorbed and then named survivor.
pub open spec fn sched_wf(s: Seq<Planet>, m: Seq<(usize, usize)>) -> bool {
    &&& forall|k: int|
        0 <= k < m.len() ==> m[k].0 < s.len() && m[k].1 < s.len() && m[k].0 != m[k].1
    &&& forall|k1: int, k2: int|
        0 <= k1 < k2 < m.len() ==> m[k2].1 != m[k1].1 && m[k2].0 != m[k1].1
}

/// Momentum-conserving velocity of a merge: the combined momentum divided
/// by the combined mass, truncating toward zero.
pub open spec fn merge_velocity(ms: int, vs: int, ma: int, va: int) -> int {
    tdiv(ms * vs + ma * va, ms + ma)
}

/// One merge applied: the survivor takes the combined mass and the
/// momentum-conserving velocity; everything else about it, its integrated
/// position included, stays. The absorbed body is dropped later.
pub open spec fn apply_merge(s: Seq<Planet>, p: (usize, usize)) -> Seq<Planet> {
    let srv = s[p.0 as int];
    let ab = s[p.1 as int];
    let merged = Planet {
        mass: (srv.mass + ab.mass) as u64,
        vel: Vec2 {
            x: merge_velocity(
                srv.mass as int,
                srv.vel.x as int,
                ab.mass as int,
                ab.vel.x as int,
            ) as i64,
            y: merge_velocity(
                srv.mass as int,
                srv.vel.y as int,
                ab.mass as int,
                ab.vel.y as int,
            ) as i64,
        },
        ..srv
    };
    s.update(p.0 as int, merged)
}

/// The first `w` scheduled merges applied in scan order.
pub open spec fn apply_merges(s: Seq<Planet>, m: Seq<(usize, usize)>, w: int) -> Seq<Planet>
    decreases w,
{
    if w <= 0 {
        s
    } else {
        apply_merge(apply_merges(s, m, w - 1), m[w - 1])
    }
}

/// Whether one of the first `w` scheduled merges absorbs index `x`.
pub open spec fn absorbed_before(m: Seq<(usize, usize)>, w: int, x: int) -> bool {
    exists|q: int| 0 <= q < w && m[q].1 == x
}

/// Whether the schedule absorbs index `x`.
pub open spec fn is_absorbed(m: Seq<(usize, usize)>, x: int) -> bool {
    absorbed_before(m, m.len() as int, x)
}

/// How many of the indices below `k` the schedule absorbs.
pub open spec fn absorbed_count_upto(m: Seq<(usize, usize)>, k: int) -> int
    decreases k,
{
    if k <= 0 {
        0
    } else {
        absorbed_count_upto(m, k - 1) + if is_absorbed(m, k - 1) {
            1int
        } else {
            0int
        }
    }
}

/// The bodies among the first `k` whose index the schedule does not
/// absorb, in order.
pub open spec fn surv_upto(s: Seq<Planet>, m: Seq<(usize, usize)>, k: int) -> Seq<Planet>
    decreases k,
{
    if k <= 0 {
        Seq::empty()
    } else if is_absorbed(m, k - 1) {
        surv_upto(s, m, k - 1)
    } else {
        surv_upto(s, m, k - 1).push(s[k - 1])
    }
}

/// Mass of the first `k` bodies that the first `w` merges have not yet
/// absorbed. Merges move mass from absorbed to survivor, so this sum is
/// what stays constant through the merge phase.
pub open spec fn live_upto(s: Seq<Planet>, m: Seq<(usize, usize)>, w: int, k: int) -> int
    decreases k,
{
    if k <= 0 {
        0
    } else {
        live_upto(s, m, w, k - 1) + if absorbed_before(m, w, k - 1) {
            0
        } else {
            s[k - 1].mass
        }
    }
}

/// The whole tick: schedule merges and accumulate accelerations over the
/// tick-start snapshot, integrate every body, apply the merges in order,
/// then drop the absorbed bodies.
pub open spec fn tick_result(s: Seq<Planet>, t: int) -> Seq<Planet> {
    let m = schedule(s);
    let merged = apply_merges(integrated(s, t), m, m.len() as int);
    surv_upto(merged, m, s.len() as int)
}

/// A collection of bodies under mutual gravity, with a fixed timestep and
/// the total energy captured at construction for drift reporting.
pub struct PlanetSystem {
    /// The bodies, in insertion order. A body's index is its identity for
    /// merge bookkeeping within a tick.
    pub list: Vec<Planet>,
    /// Fixed timestep, fixed-point; constant for the system's lifetime.
    pub timestep: i64,
    /// Total energy at construction, for diagnostic drift reporting.
    pub initial_energy: i128,
}

impl PlanetSystem {
    /// Every admitted body is in-domain and the total mass is bounded, so
    /// that every merge and every force product stays representable; the
    /// captured baseline energy is in the range an energy sum can take.
    pub open spec fn valid(self) -> bool {
        &&& 1 <= self.timestep <= TIME_LIMIT
        &&& forall|i: int| 0 <= i < self.list@.len() ==> self.list@[i].valid()
        &&& total_mass(self.list@) <= MASS_LIMIT
        &&& -10_000_000_000_000_000_000_000_000_000 <= self.initial_energy
            <= 10_000_000_000_000_000_000_000_000_000
    }

    /// A system with no bodies.
    pub fn empty(timestep: i64) -> (s: PlanetSystem)
        requires
            1 <= timestep <= TIME_LIMIT,
        ensures
            s.timestep == timestep,
            s.list@.len() == 0,
            s.initial_energy == 0,
            s.valid(),
    {
        PlanetSystem { list: Vec::new(), timestep, initial_energy: 0 }
    }

    /// A system over the given bodies, capturing their total energy as the
    /// baseline for drift reporting.
    pub fn from_vec(timestep: i64, planet_list: Vec<Planet>) -> (s: PlanetSystem)
        requires
            1 <= timestep <= TIME_LIMIT,
            forall|i: int| 0 <= i < planet_list@.len() ==> planet_list@[i].valid(),
            total_mass(planet_list@) <= MASS_LIMIT,
        ensures
            s.timestep == timestep,
            s.list == planet_list,
            s.initial_energy == total_energy(planet_list@),
            0 <= s.initial_energy <= 10_000_000_000_000_000_000_000_000_000,
            s.valid(),
    {
        let energy: i128 = sum_energy(&planet_list);
        PlanetSystem { list: planet_list, timestep, initial_energy: energy }
    }

    /// Append a body. The caller keeps the total mass within bounds.
    pub fn add_planet(&mut self, planet: Planet)
        requires
            old(self).valid(),
            planet.valid(),
            total_mass(old(self).list@) + planet.mass <= MASS_LIMIT,
        ensures
            final(self).list@ == old(self).list@.push(planet),
            final(self).timestep == old(self).timestep,
            final(self).initial_energy == old(self).initial_energy,
            final(self).valid(),
    {
        let ghost s0 = self.list@;
        self.list.push(planet);
        proof {
            let n = s0.len() as int;
            lemma_total_mass_upto_ext(s0, self.list@, n);
            assert(total_mass(self.list@) == total_mass(s0) + planet.mass);
        }
    }

    /// Total kinetic energy of the current bodies, for diagnostics.
    pub fn calc_total_energy(&self) -> (e: i128)
        requires
            self.valid(),
        ensures
            e == total_energy(self.list@),
            0 <= e <= 10_000_000_000_000_000_000_000_000_000,
    {
        let e = sum_energy(&self.list);
        proof {
            lemma_total_mass_upto_mono(self.list@, self.list@.len() as int, self.list@.len() as int);
        }
        e
    }

    /// Drift of the total energy since construction: the captured initial
    /// total minus the current one.
    pub fn energy_drift(&self) -> (d: i128)
        requires
            self.valid(),
        ensures
            d == self.initial_energy - total_energy(self.list@),
    {
        let e = self.calc_total_energy();
        self.initial_energy - e
    }

    /// One simulation tick: accumulate accelerations and schedule merges
    /// over the tick-start snapshot, integrate every body, resolve the
    /// scheduled merges, and drop the absorbed bodies. The timestep and the
    /// captured initial energy never change; the collection shrinks by
    /// exactly the number of scheduled merges, and no body is absorbed by
    /// more than one of them.
    pub fn update_system(&mut self)
        requires
            old(self).valid(),
        ensures
            final(self).timestep == old(self).timestep,
            final(self).initial_energy == old(self).initial_energy,
            final(self).list@ == tick_result(old(self).list@, old(self).timestep as int),
            final(self).valid(),
            sched_wf(old(self).list@, schedule(old(self).list@)),
            final(self).list@.len() == old(self).list@.len() - schedule(old(self).list@).len(),
    {
        let ghost s0 = self.list@;
        let ghost ie0 = self.initial_energy;
        let ts = self.timestep;
        let n = self.list.len();

        // Phase 1: pair scan over the snapshot. Each body's acceleration is
        // summed against every other body (never itself), and overlapping
        // pairs are scheduled for merging under the conflict rule.
        let mut accel_list: Vec<Vec2> = Vec::new();
        let mut merge_list: Vec<(usize, usize)> = Vec::new();
        let mut i: usize = 0;
        while i < n
            invariant
                self.list@ == s0,
                self.timestep == ts,
                n == s0.len(),
                i <= n,
                forall|q: int| 0 <= q < n ==> s0[q].valid(),
                accel_list@.len() == i as int,
                forall|q: int|
                    0 <= q < i ==> accel_list@[q].x == net_accel_x(s0, q) && accel_list@[q].y
                        == net_accel_y(s0, q),
                schedule(s0) == schedule_from(s0, i as nat, 0nat, merge_list@),
            decreases n - i,
        {
            let mut ax: i128 = 0;
            let mut ay: i128 = 0;
            let mut j: usize = 0;
            while j < n
                invariant
                    self.list@ == s0,
                    self.timestep == ts,
                    n == s0.len(),
                    i < n,
                    j <= n,
                    forall|q: int| 0 <= q < n ==> s0[q].valid(),
                    ax == accel_sum_x(s0, i as int, j as int),
                    ay == accel_sum_y(s0, i as int, j as int),
                    -((j as int) * (ACC_LIMIT as int)) <= ax <= (j as int) * (ACC_LIMIT as int),
                    -((j as int) * (ACC_LIMIT as int)) <= ay <= (j as int) * (ACC_LIMIT as int),
                    schedule(s0) == schedule_from(s0, i as nat, j as nat, merge_list@),
                decreases n - j,
            {
                let ghost m_before = merge_list@;
                if j != i {
                    let collide = check_collision(&self.list[i], &self.list[j]);
                    if collide {
                        if self.list[i].mass >= self.list[j].mass {
                            if !has_conflict(&merge_list, i, j) {
                                merge_list.push((i, j));
                            }
                        }
                    }
                    let a = calc_accel(&self.list[i], &self.list[j]);
                    ax = ax + a.x as i128;
                    ay = ay + a.y as i128;
                }
                proof {
                    if j != i && sched_candidate(s0, m_before, i as int, j as int) {
                        assert(merge_list@ == m_before.push((i, j)));
                    } else {
                        assert(merge_list@ == m_before);
                    }
                    assert(schedule_from(s0, i as nat, j as nat, m_before) == schedule_from(
                        s0,
                        i as nat,
                        (j + 1) as nat,
                        merge_list@,
                    ));
                }
                j += 1;
            }
            let acc_i = Vec2 { x: clamp_to(ax, ACC_LIMIT), y: clamp_to(ay, ACC_LIMIT) };
            accel_list.push(acc_i);
            proof {
                assert(schedule_from(s0, i as nat, n as nat, merge_list@) == schedule_from(
                    s0,
                    (i + 1) as nat,
                    0nat,
                    merge_list@,
                ));
            }
            i += 1;
        }
        proof {
            assert(schedule(s0) == merge_list@);
            lemma_schedule_from_wf(s0, 0, 0, Seq::empty());
        }

        // Phase 2: integrate every body with its accumulated acceleration.
        let ghost integ = integrated(s0, ts as int);
        let mut new_list: Vec<Planet> = Vec::new();
        proof {
            assert(self.list@ =~= s0.subrange(0, n as int));
        }
        let mut k: usize = 0;
        while k < n
            invariant
                self.timestep == ts,
                self.initial_energy == ie0,
                1 <= ts <= TIME_LIMIT,
                n == s0.len(),
                k <= n,
                self.list@ == s0.subrange(k as int, n as int),
                integ == integrated(s0, ts as int),
                accel_list@.len() == n,
                forall|q: int|
                    0 <= q < n ==> accel_list@[q].x == net_accel_x(s0, q) && accel_list@[q].y
                        == net_accel_y(s0, q),
                forall|q: int| 0 <= q < n ==> s0[q].valid(),
                new_list@.len() == k as int,
                forall|q: int| 0 <= q < k ==> new_list@[q] == integ[q],
                forall|q: int| 0 <= q < k ==> new_list@[q].valid(),
            decreases n - k,
        {
            let mut pl = self.list.remove(0);
            proof {
                assert(self.list@ =~= s0.subrange(k as int + 1, n as int));
                assert(pl == s0[k as int]);
            }
            let acc = accel_list[k];
            proof {
                assert(acc.x == net_accel_x(s0, k as int) && acc.y == net_accel_y(s0, k as int));
                assert(-ACC_LIMIT <= acc.x <= ACC_LIMIT && -ACC_LIMIT <= acc.y <= ACC_LIMIT);
            }
            pl.update(ts, acc);
            proof {
                assert(pl == integ[k as int]);
            }
            new_list.push(pl);
            k += 1;
        }
        self.list = new_list;
        proof {
            assert(self.list@ =~= integ);
        }

        // Phase 3: apply the scheduled merges in scan order. Indices refer
        // to the pre-removal collection, which keeps every pending index
        // valid; absorbed bodies are dropped only afterwards.
        let ghost msched = merge_list@;
        let mlen = merge_list.len();
        proof {
            lemma_live_zero(self.list@, msched, n as int);
            lemma_total_mass_integrated(s0, ts as int, n as int);
        }
        let mut w: usize = 0;
        while w < mlen
            invariant
                self.timestep == ts,
                self.initial_energy == ie0,
                n == s0.len(),
                w <= mlen,
                msched == merge_list@,
                mlen == msched.len(),
                sched_wf(s0, msched),
                integ == integrated(s0, ts as int),
                self.list@.len() == n,
                self.list@ == apply_merges(integ, msched, w as int),
                forall|q: int| 0 <= q < n ==> self.list@[q].valid(),
                live_upto(self.list@, msched, w as int, n as int) == total_mass(s0),
                total_mass(s0) <= MASS_LIMIT,
            decreases mlen - w,
        {
            let ghost cur0 = self.list@;
            let pr = merge_list[w];
            let a = pr.0;
            let b = pr.1;
            proof {
                assert(msched[w as int] == pr);
                assert(a < n && b < n && a != b);
                assert(!absorbed_before(msched, w as int, a as int)) by {
                    if absorbed_before(msched, w as int, a as int) {
                        let q = choose|q: int| 0 <= q < w && msched[q].1 == a;
                        assert(msched[w as int].0 != msched[q].1);
                    }
                }
                assert(!absorbed_before(msched, w as int, b as int)) by {
                    if absorbed_before(msched, w as int, b as int) {
                        let q = choose|q: int| 0 <= q < w && msched[q].1 == b;
                        assert(msched[w as int].1 != msched[q].1);
                    }
                }
                if a < b {
                    lemma_live_two(cur0, msched, w as int, a as int, b as int, n as int);
                } else {
                    lemma_live_two(cur0, msched, w as int, b as int, a as int, n as int);
                }
            }
            let ms: u64 = self.list[a].mass;
            let vsx: i64 = self.list[a].vel.x;
            let vsy: i64 = self.list[a].vel.y;
            let mb: u64 = self.list[b].mass;
            let vbx: i64 = self.list[b].vel.x;
            let vby: i64 = self.list[b].vel.y;
            let cm: u64 = ms + mb;
            proof {
                assert(absi(ms as int * vsx as int) <= 10_000_000_000_000_000_000_000_000_000
                    && absi(mb as int * vbx as int) <= 10_000_000_000_000_000_000_000_000_000
                    && absi(ms as int * vsy as int) <= 10_000_000_000_000_000_000_000_000_000
                    && absi(mb as int * vby as int) <= 10_000_000_000_000_000_000_000_000_000
                    && absi(ms as int * vsx as int + mb as int * vbx as int)
                    <= 20_000_000_000_000_000_000_000_000_000 && absi(
                    ms as int * vsy as int + mb as int * vby as int,
                ) <= 20_000_000_000_000_000_000_000_000_000) by (nonlinear_arith)
                    requires
                        1 <= ms <= 10_000_000_000_000_000u64,
                        1 <= mb <= 10_000_000_000_000_000u64,
                        absi(vsx as int) <= 1_000_000_000_000,
                        absi(vsy as int) <= 1_000_000_000_000,
                        absi(vbx as int) <= 1_000_000_000_000,
                        absi(vby as int) <= 1_000_000_000_000;
                lemma_merge_vel_bounded(ms as int, vsx as int, mb as int, vbx as int);
                lemma_merge_vel_bounded(ms as int, vsy as int, mb as int, vby as int);
            }
            let numx: i128 = (ms as i128) * (vsx as i128) + (mb as i128) * (vbx as i128);
            let numy: i128 = (ms as i128) * (vsy as i128) + (mb as i128) * (vby as i128);
            let mvx: i128 = crate::vec2::tdiv_i128(numx, cm as u128);
            let mvy: i128 = crate::vec2::tdiv_i128(numy, cm as u128);
            let pl = self.list.remove(a);
            let merged = Planet { mass: cm, vel: Vec2 { x: mvx as i64, y: mvy as i64 }, ..pl };
            self.list.insert(a, merged);
            proof {
                assert(self.list@ =~= cur0.update(a as int, merged));
                assert(merged == apply_merge(cur0, msched[w as int])[a as int]);
                assert(self.list@ =~= apply_merge(cur0, msched[w as int]));
                assert(self.list@ == apply_merges(integ, msched, w as int + 1));
                lemma_live_merge(cur0, msched, w as int, n as int);
            }
            w += 1;
        }

        // Phase 4: drop the absorbed bodies, keeping the survivors in
        // order.
        let ghost merged_seq = self.list@;
        let mut kept: Vec<Planet> = Vec::new();
        proof {
            assert(self.list@ =~= merged_seq.subrange(0, n as int));
        }
        let mut r: usize = 0;
        while r < n
            invariant
                self.timestep == ts,
                self.initial_energy == ie0,
                n == merged_seq.len(),
                r <= n,
                msched == merge_list@,
                self.list@ == merged_seq.subrange(r as int, n as int),
                kept@ == surv_upto(merged_seq, msched, r as int),
                forall|q: int| 0 <= q < n ==> merged_seq[q].valid(),
                forall|q: int| 0 <= q < kept@.len() ==> kept@[q].valid(),
            decreases n - r,
        {
            let pl = self.list.remove(0);
            proof {
                assert(self.list@ =~= merged_seq.subrange(r as int + 1, n as int));
                assert(pl == merged_seq[r as int]);
            }
            if !absorbed_by(&merge_list, r) {
                kept.push(pl);
            }
            r += 1;
        }
        self.list = kept;

        proof {
            assert(self.list@ == surv_upto(merged_seq, msched, n as int));
            assert(self.list@ == tick_result(s0, ts as int));
            lemma_surv_mass(merged_seq, msched, n as int);
            lemma_surv_len(merged_seq, msched, n as int);
            lemma_absorbed_count_total(msched, n as int);
        }
    }
}

/// Momentum conservation on merge, per velocity component: the merged
/// body's momentum `(ms + ma) * merge_velocity(..)` equals the combined
/// momentum `ms * vs + ma * va` up to the single truncating division (an
/// error smaller than one unit of combined mass), and exactly whenever
/// the combined momentum is divisible by the combined mass.
pub proof fn lemma_merge_momentum(ms: int, vs: int, ma: int, va: int)
    requires
        1 <= ms,
        1 <= ma,
    ensures
        absi((ms + ma) * merge_velocity(ms, vs, ma, va) - (ms * vs + ma * va)) < ms + ma,
        (ms * vs + ma * va) % (ms + ma) == 0 ==> (ms + ma) * merge_velocity(ms, vs, ma, va) == ms
            * vs + ma * va,
{
    let num = ms * vs + ma * va;
    let d = ms + ma;
    let mv = merge_velocity(ms, vs, ma, va);
    if num >= 0 {
        vstd::arithmetic::div_mod::lemma_fundamental_div_mod(num, d);
        vstd::arithmetic::div_mod::lemma_mod_bound(num, d);
        assert(mv == num / d);
    } else {
        let q = (-num) / d;
        let r = (-num) % d;
        vstd::arithmetic::div_mod::lemma_fundamental_div_mod(-num, d);
        vstd::arithmetic::div_mod::lemma_mod_bound(-num, d);
        assert(mv == -q);
        assert(d * mv == -(d * q)) by (nonlinear_arith)
            requires
                mv == -q;
        assert(d * mv - num == r);
        if num % d == 0 {
            vstd::arithmetic::div_mod::lemma_fundamental_div_mod(num, d);
            assert(-num == d * (-(num / d)) + 0) by (nonlinear_arith)
                requires
                    num == d * (num / d);
            vstd::arithmetic::div_mod::lemma_fundamental_div_mod_converse(
                -num,
                d,
                -(num / d),
                0,
            );
        }
    }
}

/// A body is excluded from summing against itself and never contributes
/// to its own acceleration; and a body attracted only by bodies at its
/// own position (had duplicates of it been admitted) accumulates zero, by
/// the degenerate-distance policy. Together: the net acceleration over
/// such a prefix is zero.
pub proof fn lemma_zero_self_force(s: Seq<Planet>, i: int, k: int)
    requires
        0 <= i < s.len(),
        k <= s.len(),
        forall|j: int| 0 <= j < k ==> s[j].pos == s[i].pos,
    ensures
        accel_sum_x(s, i, k) == 0,
        accel_sum_y(s, i, k) == 0,
        k == s.len() ==> net_accel_x(s, i) == 0 && net_accel_y(s, i) == 0,
    decreases k,
{
    if k > 0 {
        lemma_zero_self_force(s, i, k - 1);
        if k - 1 != i {
            assert(dist_sq(s[i].pos, s[k - 1].pos) == 0) by (nonlinear_arith)
                requires
                    s[k - 1].pos == s[i].pos;
            assert(crate::vec2::sqrt_floor(0) == 0);
            assert(grav_accel_x(s[i], s[k - 1]) == 0);
            assert(grav_accel_y(s[i], s[k - 1]) == 0);
        }
    }
}

/// The scan's conflict rule yields a well-formed schedule.
proof fn lemma_schedule_from_wf(s: Seq<Planet>, i: nat, j: nat, acc: Seq<(usize, usize)>)
    requires
        s.len() <= usize::MAX,
        sched_wf(s, acc),
    ensures
        sched_wf(s, schedule_from(s, i, j, acc)),
    decreases s.len() - i, s.len() - j,
{
    if i >= s.len() {
    } else if j >= s.len() {
        lemma_schedule_from_wf(s, i + 1, 0, acc);
    } else {
        let acc2 = if sched_candidate(s, acc, i as int, j as int) {
            acc.push((i as usize, j as usize))
        } else {
            acc
        };
        assert(sched_wf(s, acc2)) by {
            if sched_candidate(s, acc, i as int, j as int) {
                let e = (i as usize, j as usize);
                assert forall|k: int| 0 <= k < acc2.len() implies acc2[k].0 < s.len()
                    && acc2[k].1 < s.len() && acc2[k].0 != acc2[k].1 by {
                    if k < acc.len() {
                        assert(acc2[k] == acc[k]);
                    } else {
                        assert(acc2[k] == e);
                    }
                }
                assert forall|k1: int, k2: int| 0 <= k1 < k2 < acc2.len() implies acc2[k2].1
                    != acc2[k1].1 && acc2[k2].0 != acc2[k1].1 by {
                    assert(acc2[k1] == acc[k1]);
                    if k2 < acc.len() {
                        assert(acc2[k2] == acc[k2]);
                    } else {
                        assert(acc2[k2] == e);
                        assert(!(acc[k1].1 == i || acc[k1].1 == j));
                    }
                }
            }
        }
        lemma_schedule_from_wf(s, i, j + 1, acc2);
    }
}

/// A schedule over an empty pair list absorbs nothing.
proof fn lemma_absorbed_count_empty(m: Seq<(usize, usize)>, k: int)
    requires
        m.len() == 0,
    ensures
        absorbed_count_upto(m, k) == 0,
    decreases k,
{
    if k > 0 {
        lemma_absorbed_count_empty(m, k - 1);
    }
}

/// Dropping the last pair of a schedule whose absorbed indices are
/// distinct lowers each absorbed count by exactly the last pair's share.
proof fn lemma_absorbed_count_drop(m: Seq<(usize, usize)>, k: int)
    requires
        m.len() > 0,
        forall|k1: int, k2: int| 0 <= k1 < k2 < m.len() ==> m[k2].1 != m[k1].1,
    ensures
        absorbed_count_upto(m, k) == absorbed_count_upto(m.drop_last(), k) + if m.last().1 < k {
            1int
        } else {
            0int
        },
    decreases k,
{
    let m2 = m.drop_last();
    if k > 0 {
        lemma_absorbed_count_drop(m, k - 1);
        let x = k - 1;
        if is_absorbed(m, x) {
            let q = choose|q: int| 0 <= q < m.len() && m[q].1 == x;
            if q < m2.len() {
                assert(m2[q] == m[q]);
                assert(is_absorbed(m2, x));
            } else {
                assert(m.last().1 == x);
                assert(!is_absorbed(m2, x));
            }
        } else {
            assert(!is_absorbed(m2, x)) by {
                if is_absorbed(m2, x) {
                    let q = choose|q: int| 0 <= q < m2.len() && m2[q].1 == x;
                    assert(m[q].1 == x);
                }
            }
            assert(m.last().1 != x) by {
                if m.last().1 == x {
                    assert(m[m.len() - 1].1 == x);
                }
            }
        }
    }
}

/// A schedule with distinct, in-range absorbed indices absorbs exactly as
/// many indices as it has pairs.
proof fn lemma_absorbed_count_total(m: Seq<(usize, usize)>, n: int)
    requires
        forall|k: int| 0 <= k < m.len() ==> m[k].1 < n,
        forall|k1: int, k2: int| 0 <= k1 < k2 < m.len() ==> m[k2].1 != m[k1].1,
    ensures
        absorbed_count_upto(m, n) == m.len(),
    decreases m.len(),
{
    if m.len() == 0 {
        lemma_absorbed_count_empty(m, n);
    } else {
        let m2 = m.drop_last();
        lemma_absorbed_count_total(m2, n);
        lemma_absorbed_count_drop(m, n);
    }
}

/// How many bodies survive: the prefix length minus the absorbed count.
proof fn lemma_surv_len(s: Seq<Planet>, m: Seq<(usize, usize)>, k: int)
    ensures
        surv_upto(s, m, k).len() == (if k <= 0 {
            0int
        } else {
            k
        }) - absorbed_count_upto(m, k),
    decreases k,
{
    if k > 0 {
        lemma_surv_len(s, m, k - 1);
    }
}

/// Before any merge has run, the live mass is the whole mass.
proof fn lemma_live_zero(s: Seq<Planet>, m: Seq<(usize, usize)>, k: int)
    ensures
        live_upto(s, m, 0, k) == total_mass_upto(s, k),
    decreases k,
{
    if k > 0 {
        lemma_live_zero(s, m, k - 1);
    }
}

/// The mass of the surviving bodies is the live mass after every merge.
proof fn lemma_surv_mass(s: Seq<Planet>, m: Seq<(usize, usize)>, k: int)
    ensures
        total_mass_upto(surv_upto(s, m, k), surv_upto(s, m, k).len() as int) == live_upto(
            s,
            m,
            m.len() as int,
            k,
        ),
    decreases k,
{
    if k > 0 {
        lemma_surv_mass(s, m, k - 1);
        let prev = surv_upto(s, m, k - 1);
        if !is_absorbed(m, k - 1) {
            lemma_total_mass_upto_ext(prev, prev.push(s[k - 1]), prev.len() as int);
        }
    }
}

/// A live body's mass is at most the live mass of any prefix containing it.
proof fn lemma_live_member(s: Seq<Planet>, m: Seq<(usize, usize)>, w: int, j: int, k: int)
    requires
        0 <= j < k,
        !absorbed_before(m, w, j),
    ensures
        s[j].mass <= live_upto(s, m, w, k),
    decreases k,
{
    lemma_live_nonneg(s, m, w, k);
    if j == k - 1 {
        lemma_live_nonneg(s, m, w, k - 1);
    } else {
        lemma_live_member(s, m, w, j, k - 1);
    }
}

/// Live mass is never negative.
proof fn lemma_live_nonneg(s: Seq<Planet>, m: Seq<(usize, usize)>, w: int, k: int)
    ensures
        live_upto(s, m, w, k) >= 0,
    decreases k,
{
    if k > 0 {
        lemma_live_nonneg(s, m, w, k - 1);
    }
}

/// Two distinct live bodies together weigh at most the live mass.
proof fn lemma_live_two(s: Seq<Planet>, m: Seq<(usize, usize)>, w: int, a: int, b: int, k: int)
    requires
        0 <= a < b < k,
        !absorbed_before(m, w, a),
        !absorbed_before(m, w, b),
    ensures
        s[a].mass + s[b].mass <= live_upto(s, m, w, k),
    decreases k,
{
    if b == k - 1 {
        lemma_live_member(s, m, w, a, k - 1);
    } else {
        lemma_live_two(s, m, w, a, b, k - 1);
    }
}

/// One merge moves the absorbed body's mass to the survivor and retires
/// the absorbed index, so prefixes containing both ends keep their live
/// mass; a prefix separating them shifts by that mass.
proof fn lemma_live_merge(s: Seq<Planet>, m: Seq<(usize, usize)>, w: int, k: int)
    requires
        0 <= w < m.len(),
        m[w].0 < s.len(),
        m[w].1 < s.len(),
        m[w].0 != m[w].1,
        !absorbed_before(m, w, m[w].0 as int),
        !absorbed_before(m, w, m[w].1 as int),
        s[m[w].0 as int].mass + s[m[w].1 as int].mass <= u64::MAX,
        k <= s.len(),
    ensures
        live_upto(apply_merge(s, m[w]), m, w + 1, k) == live_upto(s, m, w, k) + (if m[w].0 < k {
            s[m[w].1 as int].mass as int
        } else {
            0int
        }) - (if m[w].1 < k {
            s[m[w].1 as int].mass as int
        } else {
            0int
        }),
    decreases k,
{
    let a = m[w].0 as int;
    let b = m[w].1 as int;
    let s2 = apply_merge(s, m[w]);
    if k > 0 {
        lemma_live_merge(s, m, w, k - 1);
        let x = k - 1;
        assert(s2.len() == s.len());
        if x == a {
            assert(s2[x].mass == s[a].mass + s[b].mass);
            assert(!absorbed_before(m, w + 1, x)) by {
                if absorbed_before(m, w + 1, x) {
                    let q = choose|q: int| 0 <= q < w + 1 && m[q].1 == x;
                    if q < w {
                        assert(absorbed_before(m, w, x));
                    } else {
                        assert(m[w].1 == x && m[w].1 != m[w].0);
                    }
                }
            }
        } else if x == b {
            assert(s2[x] == s[x]);
            assert(absorbed_before(m, w + 1, x));
            assert(!absorbed_before(m, w, x));
        } else {
            assert(s2[x] == s[x]);
            assert(absorbed_before(m, w + 1, x) <==> absorbed_before(m, w, x)) by {
                if absorbed_before(m, w + 1, x) && !absorbed_before(m, w, x) {
                    let q = choose|q: int| 0 <= q < w + 1 && m[q].1 == x;
                    assert(q == w && m[w].1 == x);
                }
            }
        }
    }
}

/// Integration never changes a body's mass, so neither does the whole
/// integration pass.
proof fn lemma_total_mass_integrated(s: Seq<Planet>, t: int, k: int)
    requires
        k <= s.len(),
    ensures
        total_mass_upto(integrated(s, t), k) == total_mass_upto(s, k),
    decreases k,
{
    if k > 0 {
        lemma_total_mass_integrated(s, t, k - 1);
        assert(integrated(s, t)[k - 1].mass == s[k - 1].mass);
    }
}

/// The merged velocity of two in-domain bodies is in-domain: the combined
/// momentum is at most the combined mass times the speed bound.
proof fn lemma_merge_vel_bounded(ms: int, vs: int, ma: int, va: int)
    requires
        1 <= ms,
        1 <= ma,
        absi(vs) <= VEL_LIMIT,
        absi(va) <= VEL_LIMIT,
    ensures
        absi(merge_velocity(ms, vs, ma, va)) <= VEL_LIMIT,
{
    let num = ms * vs + ma * va;
    let d = ms + ma;
    assert(absi(num) <= d * (VEL_LIMIT as int)) by (nonlinear_arith)
        requires
            1 <= ms,
            1 <= ma,
            absi(vs) <= VEL_LIMIT,
            absi(va) <= VEL_LIMIT,
            num == ms * vs + ma * va,
            d == ms + ma;
    crate::vec2::lemma_tdiv_abs(num, d);
    vstd::arithmetic::div_mod::lemma_div_is_ordered(absi(num), d * (VEL_LIMIT as int), d);
    vstd::arithmetic::mul::lemma_mul_is_commutative(d, VEL_LIMIT as int);
    vstd::arithmetic::div_mod::lemma_div_by_multiple(VEL_LIMIT as int, d);
}

/// Whether `(i, j)` conflicts with the merges scheduled so far.
fn has_conflict(acc: &Vec<(usize, usize)>, i: usize, j: usize) -> (r: bool)
    ensures
        r == sched_conflict(acc@, i as int, j as int),
{
    let n = acc.len();
    let mut k: usize = 0;
    while k < n
        invariant
            n == acc@.len(),
            k <= n,
            forall|q: int| 0 <= q < k ==> !(acc@[q].1 == i || acc@[q].1 == j),
        decreases n - k,
    {
        let p = acc[k];
        if p.1 == i || p.1 == j {
            proof {
                assert(0 <= k < acc@.len() && (acc@[k as int].1 == i || acc@[k as int].1 == j));
            }
            return true;
        }
        k += 1;
    }
    false
}

/// Whether the schedule absorbs index `x`.
fn absorbed_by(m: &Vec<(usize, usize)>, x: usize) -> (r: bool)
    ensures
        r == is_absorbed(m@, x as int),
{
    let n = m.len();
    let mut k: usize = 0;
    while k < n
        invariant
            n == m@.len(),
            k <= n,
            forall|q: int| 0 <= q < k ==> m@[q].1 != x,
        decreases n - k,
    {
        let p = m[k];
        if p.1 == x {
            proof {
                assert(0 <= k < m@.len() && m@[k as int].1 == x);
            }
            return true;
        }
        k += 1;
    }
    false
}

/// Kinetic energy summed over a list of in-domain bodies.
fn sum_energy(list: &Vec<Planet>) -> (e: i128)
    requires
        forall|i: int| 0 <= i < list@.len() ==> list@[i].valid(),
        total_mass(list@) <= MASS_LIMIT,
    ensures
        e == total_energy(list@),
        0 <= e <= 10_000_000_000_000_000_000_000_000_000,
{
    let n = list.len();
    let mut e: i128 = 0;
    let mut k: usize = 0;
    while k < n
        invariant
            n == list@.len(),
            k <= n,
            forall|i: int| 0 <= i < list@.len() ==> list@[i].valid(),
            total_mass(list@) <= MASS_LIMIT,
            e == energy_upto(list@, k as int),
            0 <= e <= total_mass_upto(list@, k as int) * 1_000_000_000_000,
        decreases n - k,
    {
        let ek = list[k].calc_energy();
        proof {
            lemma_total_mass_upto_mono(list@, k as int + 1, n as int);
        }
        e = e + ek;
        k = k + 1;
    }
    proof {
        lemma_total_mass_upto_mono(list@, n as int, n as int);
    }
    e
}

} // verus!
