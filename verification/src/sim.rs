//! The simulation state: per-particle arrays, the species attraction
//! matrix, and the substep integrator that advances them in time.

use rayon::iter::IndexedParallelIterator;
use rayon::iter::IntoParallelRefMutIterator;
use rayon::iter::ParallelIterator;
use vstd::prelude::*;

use crate::fixed::{
    ATTR_LIMIT, DT_MAX, FORCE_LIMIT, MAX_PARTICLES, MAX_SPECIES, RADIUS_LIMIT, SCALE, VEL_LIMIT,
    clamp64, clamp_spec, friction_factor, friction_factor_spec, iabs, lemma_sdiv_at_most,
    mul_div_trunc, sdiv,
};
use crate::kernel::{
    Vec2, attr_rows, force_on, force_on_particle, in_box, lemma_force_on_bounds, snapshot_wf,
};
use crate::rng::rand_i64_inclusive;

verus! {

/// Tunable integration parameters, read-only during a step.
#[derive(Clone, Copy, Debug)]
pub struct SimSettings {
    /// How many fixed substeps each frame is split into.
    pub substep_n: usize,
    /// Interaction cutoff radius, in SCALE units.
    pub local_radius: i64,
    /// Time for a velocity to halve under zero force, in SCALE units of seconds.
    pub friction_half_life: i64,
}

impl SimSettings {
    /// The settings lie inside the integrator's supported ranges.
    pub open spec fn wf(&self) -> bool {
        &&& 1 <= self.substep_n
        &&& 0 <= self.local_radius <= RADIUS_LIMIT
        &&& 1 <= self.friction_half_life
    }

    /// Default parameters: eight substeps, a cutoff of 0.1 and a friction
    /// half-life of 0.04 seconds, both in SCALE units.
    pub fn new() -> (s: SimSettings)
        ensures
            s.wf(),
            s == (SimSettings { substep_n: 8usize, local_radius: 6554i64, friction_half_life: 2621i64 }),
    {
        SimSettings { substep_n: 8, local_radius: 6554, friction_half_life: 2621 }
    }
}

/// The whole simulation state at one instant, as mathematical values.
#[verifier::ext_equal]
pub ghost struct SimView {
    pub poses: Seq<Vec2>,
    pub vels: Seq<Vec2>,
    pub forces: Seq<Vec2>,
    pub species: Seq<u32>,
    pub attractions: Seq<Seq<i64>>,
}

impl SimView {
    /// Consistent lengths, a square bounded attraction matrix, species
    /// inside the matrix, positions inside the tile, and bounded
    /// velocities and forces.
    pub open spec fn wf(&self) -> bool {
        &&& snapshot_wf(self.poses, self.species, self.attractions)
        &&& self.vels.len() == self.poses.len()
        &&& self.forces.len() == self.poses.len()
        &&& forall|i: int|
            0 <= i < self.vels.len() ==> iabs((#[trigger] self.vels[i]).x as int) <= VEL_LIMIT
                && iabs(self.vels[i].y as int) <= VEL_LIMIT
        &&& forall|i: int|
            0 <= i < self.forces.len() ==> iabs((#[trigger] self.forces[i]).x as int)
                <= FORCE_LIMIT && iabs(self.forces[i].y as int) <= FORCE_LIMIT
    }
}

/// The net force on particle `i` of the snapshot, as a stored vector.
pub open spec fn force_vec_spec(s: SimView, st: SimSettings, i: int) -> Vec2 {
    Vec2 {
        x: force_on(s.poses, s.species, s.attractions, st.local_radius as int, i).0 as i64,
        y: force_on(s.poses, s.species, s.attractions, st.local_radius as int, i).1 as i64,
    }
}

/// The force field recomputed over the whole snapshot.
pub open spec fn forces_of(s: SimView, st: SimSettings) -> Seq<Vec2> {
    Seq::new(s.poses.len(), |i: int| force_vec_spec(s, st, i))
}

/// Velocity component after one substep: damped by the friction factor,
/// accelerated by the net force, saturated at the velocity limit.
pub open spec fn integrate_vel_spec(v: int, force: int, f: int, dt: int) -> int {
    clamp_spec(
        sdiv(v * f, SCALE as int) + sdiv(force * dt, SCALE as int),
        -(VEL_LIMIT as int),
        VEL_LIMIT as int,
    )
}

/// The boundary rule: a coordinate past an edge restarts at the opposite
/// edge.  This is a hard reset, not a modulo wrap of the overshoot: the
/// reference behavior, kept deliberately.
pub open spec fn wrap_pos_spec(p: int) -> int {
    if p > SCALE {
        0
    } else if p < 0 {
        SCALE as int
    } else {
        p
    }
}

/// Position component after one substep: advanced by the new velocity,
/// then snapped by the boundary rule.
pub open spec fn integrate_pos_spec(p: int, v: int, dt: int) -> int {
    wrap_pos_spec(p + sdiv(v * dt, SCALE as int))
}

/// One substep of length `dt`: all forces from the current snapshot,
/// then per particle the friction, velocity and position updates.
pub open spec fn substep_spec(s: SimView, st: SimSettings, dt: int) -> SimView {
    let forces = forces_of(s, st);
    let f = friction_factor_spec(dt, st.friction_half_life as int);
    let vels = Seq::new(
        s.vels.len(),
        |i: int|
            Vec2 {
                x: integrate_vel_spec(s.vels[i].x as int, forces[i].x as int, f, dt) as i64,
                y: integrate_vel_spec(s.vels[i].y as int, forces[i].y as int, f, dt) as i64,
            },
    );
    let poses = Seq::new(
        s.poses.len(),
        |i: int|
            Vec2 {
                x: integrate_pos_spec(s.poses[i].x as int, vels[i].x as int, dt) as i64,
                y: integrate_pos_spec(s.poses[i].y as int, vels[i].y as int, dt) as i64,
            },
    );
    SimView { poses, vels, forces, species: s.species, attractions: s.attractions }
}

/// `k` substeps of length `dt`, in sequence.
pub open spec fn substeps_spec(s: SimView, st: SimSettings, dt: int, k: nat) -> SimView
    decreases k,
{
    if k == 0 {
        s
    } else {
        substep_spec(substeps_spec(s, st, dt, (k - 1) as nat), st, dt)
    }
}

/// One full frame of length `frame_dt`: the frame time is clamped to
/// DT_MAX, split evenly into the configured substeps, and integrated.
pub open spec fn step_spec(s: SimView, st: SimSettings, frame_dt: int) -> SimView {
    let clamped = if frame_dt > DT_MAX { DT_MAX as int } else { frame_dt };
    let dt = clamped / (st.substep_n as int);
    substeps_spec(s, st, dt, st.substep_n as nat)
}

/// The caller-supplied arrays make a valid state: matching lengths and
/// every value inside the supported ranges.
pub open spec fn parts_ok(
    poses: Seq<Vec2>,
    vels: Seq<Vec2>,
    species: Seq<u32>,
    attr: Seq<Seq<i64>>,
) -> bool {
    &&& snapshot_wf(poses, species, attr)
    &&& vels.len() == poses.len()
    &&& forall|i: int|
        0 <= i < vels.len() ==> iabs((#[trigger] vels[i]).x as int) <= VEL_LIMIT && iabs(
            vels[i].y as int,
        ) <= VEL_LIMIT
}

/// A force field of `n` zero vectors.
pub open spec fn zero_forces(n: nat) -> Seq<Vec2> {
    Seq::new(n, |i: int| Vec2 { x: 0, y: 0 })
}

/// The authoritative simulation state: particle arrays and the species
/// attraction matrix.  The arrays are only reachable through methods
/// that keep the state well formed.
pub struct SimData {
    poses: Vec<Vec2>,
    vels: Vec<Vec2>,
    forces: Vec<Vec2>,
    species: Vec<u32>,
    attractions: Vec<Vec<i64>>,
}

impl View for SimData {
    type V = SimView;

    closed spec fn view(&self) -> SimView {
        SimView {
            poses: self.poses@,
            vels: self.vels@,
            forces: self.forces@,
            species: self.species@,
            attractions: attr_rows(self.attractions@),
        }
    }
}

/// Relies on rayon's par_iter_mut, enumerate and for_each: each slot of
/// the buffer is written exactly once, slot `i` by the closure call with
/// index `i`; the closure only calls the verified force kernel.  The
/// result is therefore the same as a sequential map over the indices.
#[verifier::external_body]
fn par_forces(
    poses: &Vec<Vec2>,
    species: &Vec<u32>,
    attractions: &Vec<Vec<i64>>,
    local_radius: i64,
) -> (r: Vec<Vec2>)
    requires
        snapshot_wf(poses@, species@, attr_rows(attractions@)),
        0 <= local_radius <= RADIUS_LIMIT,
    ensures
        r@.len() == poses@.len(),
        forall|i: int|
            0 <= i < r@.len() ==> (#[trigger] r@[i]).x == force_on(
                poses@,
                species@,
                attr_rows(attractions@),
                local_radius as int,
                i,
            ).0 && r@[i].y == force_on(
                poses@,
                species@,
                attr_rows(attractions@),
                local_radius as int,
                i,
            ).1,
{
    let mut forces = vec![Vec2 { x: 0, y: 0 }; poses.len()];
    forces.par_iter_mut().enumerate().for_each(
        |(i, slot): (usize, &mut Vec2)|
            {
                *slot = force_on_particle(poses, species, attractions, local_radius, i);
            },
    );
    forces
}

/// The boundary rule on one coordinate.
fn wrap_pos(p: i64) -> (r: i64)
    ensures
        r == wrap_pos_spec(p as int),
        0 <= r <= SCALE,
{
    if p > SCALE {
        0
    } else if p < 0 {
        SCALE
    } else {
        p
    }
}

impl SimData {
    /// The state is well formed.
    pub open spec fn wf(&self) -> bool {
        self@.wf()
    }

    /// A fresh simulation: positions uniform in [0, 1), velocities
    /// uniform in [-0.1, 0.1] per axis, uniform-random species, and an
    /// attraction matrix uniform in [-1, 1] (all in SCALE units).
    pub fn new(specie_n: usize, particle_n: usize) -> (d: SimData)
        requires
            1 <= specie_n <= MAX_SPECIES,
            particle_n <= MAX_PARTICLES,
        ensures
            d.wf(),
            d@.poses.len() == particle_n,
            d@.vels.len() == particle_n,
            d@.species.len() == particle_n,
            d@.forces == zero_forces(particle_n as nat),
            d@.attractions.len() == specie_n,
            forall|i: int|
                0 <= i < particle_n ==> 0 <= (#[trigger] d@.poses[i]).x < SCALE && 0
                    <= d@.poses[i].y < SCALE,
            forall|i: int|
                0 <= i < particle_n ==> -6554 <= (#[trigger] d@.vels[i]).x <= 6554 && -6554
                    <= d@.vels[i].y <= 6554,
            forall|i: int| 0 <= i < particle_n ==> (#[trigger] d@.species[i]) < specie_n,
            forall|s: int|
                0 <= s < specie_n ==> (#[trigger] d@.attractions[s]).len() == specie_n,
            forall|s: int, t: int|
                0 <= s < specie_n && 0 <= t < specie_n ==> -SCALE
                    <= #[trigger] d@.attractions[s][t] <= SCALE,
    {
        let mut poses: Vec<Vec2> = Vec::new();
        let mut i: usize = 0;
        while i < particle_n
            invariant
                i <= particle_n,
                poses@.len() == i,
                forall|j: int|
                    0 <= j < i ==> 0 <= (#[trigger] poses@[j]).x < SCALE && 0 <= poses@[j].y
                        < SCALE,
            decreases particle_n - i,
        {
            let x = rand_i64_inclusive(0, SCALE - 1);
            let y = rand_i64_inclusive(0, SCALE - 1);
            poses.push(Vec2 { x, y });
            i = i + 1;
        }
        let mut vels: Vec<Vec2> = Vec::new();
        let mut i: usize = 0;
        while i < particle_n
            invariant
                i <= particle_n,
                vels@.len() == i,
                forall|j: int|
                    0 <= j < i ==> -6554 <= (#[trigger] vels@[j]).x <= 6554 && -6554
                        <= vels@[j].y <= 6554,
            decreases particle_n - i,
        {
            let x = rand_i64_inclusive(-6554, 6554);
            let y = rand_i64_inclusive(-6554, 6554);
            vels.push(Vec2 { x, y });
            i = i + 1;
        }
        let mut species: Vec<u32> = Vec::new();
        let mut i: usize = 0;
        while i < particle_n
            invariant
                i <= particle_n,
                species@.len() == i,
                1 <= specie_n <= MAX_SPECIES,
                forall|j: int| 0 <= j < i ==> (#[trigger] species@[j]) < specie_n,
            decreases particle_n - i,
        {
            let sp = rand_i64_inclusive(0, (specie_n as i64) - 1);
            species.push(sp as u32);
            i = i + 1;
        }
        let mut attractions: Vec<Vec<i64>> = Vec::new();
        let mut s: usize = 0;
        while s < specie_n
            invariant
                s <= specie_n,
                attractions@.len() == s,
                forall|j: int|
                    0 <= j < s ==> (#[trigger] attractions@[j])@.len() == specie_n,
                forall|j: int, t: int|
                    0 <= j < s && 0 <= t < specie_n ==> -SCALE
                        <= #[trigger] attractions@[j]@[t] <= SCALE,
            decreases specie_n - s,
        {
            let mut row: Vec<i64> = Vec::new();
            let mut t: usize = 0;
            while t < specie_n
                invariant
                    t <= specie_n,
                    row@.len() == t,
                    forall|u: int| 0 <= u < t ==> -SCALE <= #[trigger] row@[u] <= SCALE,
                decreases specie_n - t,
            {
                row.push(rand_i64_inclusive(-SCALE, SCALE));
                t = t + 1;
            }
            attractions.push(row);
            s = s + 1;
        }
        let mut forces: Vec<Vec2> = Vec::new();
        let mut i: usize = 0;
        while i < particle_n
            invariant
                i <= particle_n,
                forces@ =~= zero_forces(i as nat),
            decreases particle_n - i,
        {
            forces.push(Vec2 { x: 0, y: 0 });
            i = i + 1;
        }
        let d = SimData { poses, vels, forces, species, attractions };
        proof {
            assert(d@.forces =~= zero_forces(particle_n as nat));
            assert forall|s2: int| 0 <= s2 < specie_n implies (#[trigger] d@.attractions[s2]).len()
                == specie_n by {
                assert(d@.attractions[s2] == attractions@[s2]@);
            }
            assert forall|s2: int, t2: int|
                0 <= s2 < specie_n && 0 <= t2 < specie_n implies -SCALE
                    <= #[trigger] d@.attractions[s2][t2] <= SCALE by {
                assert(d@.attractions[s2] == attractions@[s2]@);
            }
        }
        d
    }

    /// Number of particles.
    pub fn particle_n(&self) -> (n: usize)
        ensures
            n == self@.poses.len(),
    {
        self.poses.len()
    }

    /// Number of species.
    pub fn specie_n(&self) -> (n: usize)
        ensures
            n == self@.attractions.len(),
    {
        self.attractions.len()
    }

    /// Read-only view of the particle positions.
    pub fn poses(&self) -> (r: &Vec<Vec2>)
        ensures
            r@ == self@.poses,
    {
        &self.poses
    }

    /// Read-only view of the particle velocities.
    pub fn vels(&self) -> (r: &Vec<Vec2>)
        ensures
            r@ == self@.vels,
    {
        &self.vels
    }

    /// Read-only view of the force field of the latest substep.
    pub fn forces(&self) -> (r: &Vec<Vec2>)
        ensures
            r@ == self@.forces,
    {
        &self.forces
    }

    /// Read-only view of the species assignment.
    pub fn species(&self) -> (r: &Vec<u32>)
        ensures
            r@ == self@.species,
    {
        &self.species
    }

    /// Read-only view of the attraction matrix.
    pub fn attractions(&self) -> (r: &Vec<Vec<i64>>)
        ensures
            attr_rows(r@) == self@.attractions,
    {
        &self.attractions
    }

    /// Overwrite one attraction coefficient at runtime.
    pub fn set_attraction(&mut self, s: usize, t: usize, value: i64)
        requires
            old(self).wf(),
            s < old(self)@.attractions.len(),
            t < old(self)@.attractions.len(),
            -ATTR_LIMIT <= value <= ATTR_LIMIT,
        ensures
            final(self).wf(),
            final(self)@ == (SimView {
                attractions: old(self)@.attractions.update(
                    s as int,
                    old(self)@.attractions[s as int].update(t as int, value),
                ),
                ..old(self)@
            }),
    {
        self.attractions[s][t] = value;
        proof {
            assert(attr_rows(self.attractions@) =~= old(self)@.attractions.update(
                s as int,
                old(self)@.attractions[s as int].update(t as int, value),
            ));
            assert(self@ =~= (SimView {
                attractions: old(self)@.attractions.update(
                    s as int,
                    old(self)@.attractions[s as int].update(t as int, value),
                ),
                ..old(self)@
            }));
        }
    }

    /// Build a state from caller-supplied arrays, validating the whole
    /// configuration once at entry: `None` exactly when the arrays
    /// mismatch in length or some value is out of the supported range.
    pub fn from_parts(
        poses: Vec<Vec2>,
        vels: Vec<Vec2>,
        species: Vec<u32>,
        attractions: Vec<Vec<i64>>,
    ) -> (r: Option<SimData>)
        ensures
            r is Some <==> parts_ok(poses@, vels@, species@, attr_rows(attractions@)),
            r is Some ==> r->Some_0.wf(),
            r is Some ==> r->Some_0@ == (SimView {
                poses: poses@,
                vels: vels@,
                forces: zero_forces(poses@.len()),
                species: species@,
                attractions: attr_rows(attractions@),
            }),
    {
        let n = poses.len();
        if n > MAX_PARTICLES || vels.len() != n || species.len() != n {
            return None;
        }
        let ns = attractions.len();
        let mut i: usize = 0;
        while i < n
            invariant
                i <= n,
                n == poses@.len(),
                forall|j: int| 0 <= j < i ==> in_box(#[trigger] poses@[j]),
            decreases n - i,
        {
            let p = poses[i];
            if p.x < 0 || p.x > SCALE || p.y < 0 || p.y > SCALE {
                return None;
            }
            i = i + 1;
        }
        let mut i: usize = 0;
        while i < n
            invariant
                i <= n,
                n == vels@.len(),
                forall|j: int|
                    0 <= j < i ==> iabs((#[trigger] vels@[j]).x as int) <= VEL_LIMIT && iabs(
                        vels@[j].y as int,
                    ) <= VEL_LIMIT,
            decreases n - i,
        {
            let v = vels[i];
            if v.x < -VEL_LIMIT || v.x > VEL_LIMIT || v.y < -VEL_LIMIT || v.y > VEL_LIMIT {
                return None;
            }
            i = i + 1;
        }
        let mut i: usize = 0;
        while i < n
            invariant
                i <= n,
                n == species@.len(),
                ns == attractions@.len(),
                forall|j: int| 0 <= j < i ==> (#[trigger] species@[j]) < ns,
            decreases n - i,
        {
            if species[i] as usize >= ns {
                proof {
                    assert(attr_rows(attractions@).len() == ns);
                    assert(!((species@[i as int]) < attr_rows(attractions@).len()));
                }
                return None;
            }
            i = i + 1;
        }
        let mut s: usize = 0;
        while s < ns
            invariant
                s <= ns,
                ns == attractions@.len(),
                forall|j: int| 0 <= j < s ==> (#[trigger] attr_rows(attractions@)[j]).len() == ns,
                forall|j: int, t: int|
                    0 <= j < s && 0 <= t < ns ==> iabs(
                        #[trigger] attr_rows(attractions@)[j][t] as int,
                    ) <= ATTR_LIMIT,
            decreases ns - s,
        {
            if attractions[s].len() != ns {
                proof {
                    assert(attr_rows(attractions@)[s as int].len() == attractions@[s as int]@.len());
                }
                return None;
            }
            let mut t: usize = 0;
            while t < ns
                invariant
                    t <= ns,
                    s < ns == attractions@.len(),
                    attractions@[s as int]@.len() == ns,
                    forall|u: int|
                        0 <= u < t ==> iabs(#[trigger] attractions@[s as int]@[u] as int)
                            <= ATTR_LIMIT,
                decreases ns - t,
            {
                let a = attractions[s][t];
                if a < -ATTR_LIMIT || a > ATTR_LIMIT {
                    proof {
                        assert(attr_rows(attractions@)[s as int][t as int] == a);
                        assert(iabs(a as int) > ATTR_LIMIT);
                    }
                    return None;
                }
                t = t + 1;
            }
            s = s + 1;
        }
        let mut forces: Vec<Vec2> = Vec::new();
        let mut i: usize = 0;
        while i < n
            invariant
                i <= n,
                forces@ =~= zero_forces(i as nat),
            decreases n - i,
        {
            forces.push(Vec2 { x: 0, y: 0 });
            i = i + 1;
        }
        proof {
            assert(forces@ =~= zero_forces(n as nat));
        }
        Some(SimData { poses, vels, forces, species, attractions })
    }

    /// Fill the force field from the current snapshot, one particle at a
    /// time, in parallel across particles.
    pub fn populate_forces(&mut self, sim_settings: &SimSettings)
        requires
            old(self).wf(),
            sim_settings.wf(),
        ensures
            final(self).wf(),
            final(self)@ == (SimView {
                forces: forces_of(old(self)@, *sim_settings),
                ..old(self)@
            }),
    {
        let f = par_forces(
            &self.poses,
            &self.species,
            &self.attractions,
            sim_settings.local_radius,
        );
        self.forces = f;
        proof {
            assert(self@.forces =~= forces_of(old(self)@, *sim_settings));
            assert(self@ =~= (SimView {
                forces: forces_of(old(self)@, *sim_settings),
                ..old(self)@
            }));
            assert forall|i: int| 0 <= i < self@.forces.len() implies iabs(
                (#[trigger] self@.forces[i]).x as int,
            ) <= FORCE_LIMIT && iabs(self@.forces[i].y as int) <= FORCE_LIMIT by {
                lemma_force_on_bounds(
                    old(self)@.poses,
                    old(self)@.species,
                    old(self)@.attractions,
                    sim_settings.local_radius as int,
                    i,
                );
            }
        }
    }

    /// Net force on particle `i` from the current snapshot, written into
    /// `force`.
    pub fn compute_force(&self, i: usize, sim_settings: &SimSettings, force: &mut Vec2)
        requires
            self.wf(),
            sim_settings.wf(),
            i < self@.poses.len(),
        ensures
            *final(force) == force_vec_spec(self@, *sim_settings, i as int),
    {
        *force = force_on_particle(
            &self.poses,
            &self.species,
            &self.attractions,
            sim_settings.local_radius,
            i,
        );
    }

    /// One substep of length `dt_sub`: all forces from the current
    /// snapshot, then per particle the friction damping, the velocity
    /// update and the position update with the boundary rule.
    fn substep(&mut self, dt_sub: i64, sim_settings: &SimSettings)
        requires
            old(self).wf(),
            sim_settings.wf(),
            0 <= dt_sub <= DT_MAX,
        ensures
            final(self).wf(),
            final(self)@ == substep_spec(old(self)@, *sim_settings, dt_sub as int),
    {
        let ghost s0 = self@;
        let ghost target = substep_spec(s0, *sim_settings, dt_sub as int);
        self.populate_forces(sim_settings);
        let f = friction_factor(dt_sub, sim_settings.friction_half_life);
        let n = self.poses.len();
        let mut i: usize = 0;
        while i < n
            invariant
                i <= n,
                n == self@.poses.len(),
                s0.wf(),
                sim_settings.wf(),
                0 <= dt_sub <= DT_MAX,
                0 <= f <= SCALE,
                f == friction_factor_spec(dt_sub as int, sim_settings.friction_half_life as int),
                target == substep_spec(s0, *sim_settings, dt_sub as int),
                self@.poses.len() == s0.poses.len(),
                self@.vels.len() == s0.vels.len(),
                s0.vels.len() == s0.poses.len(),
                self@.forces == target.forces,
                self@.species == s0.species,
                self@.attractions == s0.attractions,
                forall|j: int|
                    0 <= j < self@.forces.len() ==> iabs((#[trigger] self@.forces[j]).x as int)
                        <= FORCE_LIMIT && iabs(self@.forces[j].y as int) <= FORCE_LIMIT,
                self@.forces.len() == s0.poses.len(),
                forall|j: int|
                    0 <= j < i ==> (#[trigger] self@.vels[j]) == target.vels[j]
                        && self@.poses[j] == target.poses[j],
                forall|j: int|
                    i <= j < n ==> (#[trigger] self@.vels[j]) == s0.vels[j] && self@.poses[j]
                        == s0.poses[j],
            decreases n - i,
        {
            let v = self.vels[i];
            let force = self.forces[i];
            proof {
                assert(iabs(v.x as int) <= VEL_LIMIT && iabs(v.y as int) <= VEL_LIMIT);
                assert(-VEL_LIMIT * 65536 <= v.x * f <= VEL_LIMIT * 65536 && -VEL_LIMIT * 65536
                    <= v.y * f <= VEL_LIMIT * 65536) by (nonlinear_arith)
                    requires
                        -VEL_LIMIT <= v.x <= VEL_LIMIT,
                        -VEL_LIMIT <= v.y <= VEL_LIMIT,
                        0 <= f <= 65536,
                        VEL_LIMIT == 0x100_0000_0000,
                ;
                assert(-FORCE_LIMIT * 65536 <= force.x * dt_sub <= FORCE_LIMIT * 65536
                    && -FORCE_LIMIT * 65536 <= force.y * dt_sub <= FORCE_LIMIT * 65536)
                    by (nonlinear_arith)
                    requires
                        -FORCE_LIMIT <= force.x <= FORCE_LIMIT,
                        -FORCE_LIMIT <= force.y <= FORCE_LIMIT,
                        0 <= dt_sub <= 6554,
                        FORCE_LIMIT == 0x1000_0000_0000,
                ;
                lemma_sdiv_at_most(v.x * f, VEL_LIMIT as int, SCALE as int);
                lemma_sdiv_at_most(v.y * f, VEL_LIMIT as int, SCALE as int);
                lemma_sdiv_at_most(force.x * dt_sub, FORCE_LIMIT as int, SCALE as int);
                lemma_sdiv_at_most(force.y * dt_sub, FORCE_LIMIT as int, SCALE as int);
            }
            let vx = clamp64(
                mul_div_trunc(v.x, f, SCALE) + mul_div_trunc(force.x, dt_sub, SCALE),
                -VEL_LIMIT,
                VEL_LIMIT,
            );
            let vy = clamp64(
                mul_div_trunc(v.y, f, SCALE) + mul_div_trunc(force.y, dt_sub, SCALE),
                -VEL_LIMIT,
                VEL_LIMIT,
            );
            self.vels[i] = Vec2 { x: vx, y: vy };
            let p = self.poses[i];
            proof {
                assert(-VEL_LIMIT * 65536 <= vx * dt_sub <= VEL_LIMIT * 65536 && -VEL_LIMIT
                    * 65536 <= vy * dt_sub <= VEL_LIMIT * 65536) by (nonlinear_arith)
                    requires
                        -VEL_LIMIT <= vx <= VEL_LIMIT,
                        -VEL_LIMIT <= vy <= VEL_LIMIT,
                        0 <= dt_sub <= 6554,
                        VEL_LIMIT == 0x100_0000_0000,
                ;
                lemma_sdiv_at_most(vx * dt_sub, VEL_LIMIT as int, SCALE as int);
                lemma_sdiv_at_most(vy * dt_sub, VEL_LIMIT as int, SCALE as int);
            }
            let px = wrap_pos(p.x + mul_div_trunc(vx, dt_sub, SCALE));
            let py = wrap_pos(p.y + mul_div_trunc(vy, dt_sub, SCALE));
            self.poses[i] = Vec2 { x: px, y: py };
            proof {
                assert(self@.vels[i as int] == target.vels[i as int]);
                assert(self@.poses[i as int] == target.poses[i as int]);
                assert forall|j: int|
                    i + 1 <= j < n implies (#[trigger] self@.vels[j]) == s0.vels[j]
                    && self@.poses[j] == s0.poses[j] by {}
            }
            i = i + 1;
        }
        proof {
            assert(self@.vels =~= target.vels);
            assert(self@.poses =~= target.poses);
            assert(self@ =~= target);
            assert forall|j: int| 0 <= j < self@.poses.len() implies in_box(
                #[trigger] self@.poses[j],
            ) by {
                assert(self@.poses[j] == target.poses[j]);
            }
            assert forall|j: int|
                0 <= j < self@.vels.len() implies iabs((#[trigger] self@.vels[j]).x as int)
                <= VEL_LIMIT && iabs(self@.vels[j].y as int) <= VEL_LIMIT by {
                assert(self@.vels[j] == target.vels[j]);
            }
        }
    }

    /// Advance the simulation by one frame of `frame_dt` elapsed time
    /// (SCALE units of seconds).  The frame time is clamped to DT_MAX,
    /// split evenly into the configured substeps, and integrated
    /// substep by substep; particle count and species assignment are
    /// preserved and every position ends inside the unit tile.
    pub fn tick_with_substeps(&mut self, frame_dt: i64, sim_settings: &SimSettings)
        requires
            old(self).wf(),
            sim_settings.wf(),
            0 <= frame_dt,
        ensures
            final(self).wf(),
            final(self)@ == step_spec(old(self)@, *sim_settings, frame_dt as int),
            final(self)@.poses.len() == old(self)@.poses.len(),
            final(self)@.vels.len() == old(self)@.vels.len(),
            final(self)@.species == old(self)@.species,
            final(self)@.attractions == old(self)@.attractions,
            forall|i: int|
                0 <= i < final(self)@.poses.len() ==> in_box(#[trigger] final(self)@.poses[i]),
    {
        let ghost s0 = self@;
        let dt_c: i64 = if frame_dt > DT_MAX {
            DT_MAX
        } else {
            frame_dt
        };
        let dt_sub: i64 = ((dt_c as u64) / (sim_settings.substep_n as u64)) as i64;
        proof {
            vstd::arithmetic::div_mod::lemma_div_pos_is_pos(
                dt_c as int,
                sim_settings.substep_n as int,
            );
            vstd::arithmetic::div_mod::lemma_div_nonincreasing(
                dt_c as int,
                sim_settings.substep_n as int,
            );
        }
        let mut k: usize = 0;
        while k < sim_settings.substep_n
            invariant
                k <= sim_settings.substep_n,
                s0.wf(),
                sim_settings.wf(),
                0 <= dt_sub <= DT_MAX,
                self.wf(),
                self@ == substeps_spec(s0, *sim_settings, dt_sub as int, k as nat),
            decreases sim_settings.substep_n - k,
        {
            self.substep(dt_sub, sim_settings);
            k = k + 1;
        }
        proof {
            lemma_substeps_shape(s0, *sim_settings, dt_sub as int, sim_settings.substep_n as nat);
        }
    }
}

/// Substeps keep the particle count, the species assignment and the
/// attraction matrix: stepping never creates or destroys a particle.
pub proof fn lemma_substeps_shape(s: SimView, st: SimSettings, dt: int, k: nat)
    ensures
        substeps_spec(s, st, dt, k).poses.len() == s.poses.len(),
        substeps_spec(s, st, dt, k).vels.len() == s.vels.len(),
        substeps_spec(s, st, dt, k).species == s.species,
        substeps_spec(s, st, dt, k).attractions == s.attractions,
    decreases k,
{
    if k > 0 {
        lemma_substeps_shape(s, st, dt, (k - 1) as nat);
    }
}

/// One substep keeps the state well formed.
pub proof fn lemma_substep_wf(s: SimView, st: SimSettings, dt: int)
    requires
        s.wf(),
        st.wf(),
        0 <= dt <= DT_MAX,
    ensures
        substep_spec(s, st, dt).wf(),
{
    let t = substep_spec(s, st, dt);
    assert forall|i: int| 0 <= i < t.forces.len() implies iabs((#[trigger] t.forces[i]).x as int)
        <= FORCE_LIMIT && iabs(t.forces[i].y as int) <= FORCE_LIMIT by {
        lemma_force_on_bounds(s.poses, s.species, s.attractions, st.local_radius as int, i);
    }
    assert forall|i: int| 0 <= i < t.poses.len() implies in_box(#[trigger] t.poses[i]) by {
        assert(t.poses[i].x == integrate_pos_spec(s.poses[i].x as int, t.vels[i].x as int, dt) as i64);
    }
    assert forall|i: int| 0 <= i < t.vels.len() implies iabs((#[trigger] t.vels[i]).x as int)
        <= VEL_LIMIT && iabs(t.vels[i].y as int) <= VEL_LIMIT by {
        assert(t.vels[i].x == integrate_vel_spec(
            s.vels[i].x as int,
            t.forces[i].x as int,
            friction_factor_spec(dt, st.friction_half_life as int),
            dt,
        ) as i64);
    }
}

/// Any number of substeps keeps the state well formed.
pub proof fn lemma_substeps_wf(s: SimView, st: SimSettings, dt: int, k: nat)
    requires
        s.wf(),
        st.wf(),
        0 <= dt <= DT_MAX,
    ensures
        substeps_spec(s, st, dt, k).wf(),
    decreases k,
{
    if k > 0 {
        lemma_substeps_wf(s, st, dt, (k - 1) as nat);
        lemma_substep_wf(substeps_spec(s, st, dt, (k - 1) as nat), st, dt);
    }
}

/// A full frame keeps the state well formed.
pub proof fn lemma_step_wf(s: SimView, st: SimSettings, dt: int)
    requires
        s.wf(),
        st.wf(),
        0 <= dt,
    ensures
        step_spec(s, st, dt).wf(),
{
    let clamped = if dt > DT_MAX { DT_MAX as int } else { dt };
    let dt_sub = clamped / (st.substep_n as int);
    vstd::arithmetic::div_mod::lemma_div_pos_is_pos(clamped, st.substep_n as int);
    vstd::arithmetic::div_mod::lemma_div_nonincreasing(clamped, st.substep_n as int);
    lemma_substeps_wf(s, st, dt_sub, st.substep_n as nat);
}

/// After any frame, every particle's position lies inside the unit tile.
pub proof fn law_boundary_invariant(s: SimView, st: SimSettings, dt: int)
    requires
        s.wf(),
        st.wf(),
        0 <= dt,
    ensures
        forall|i: int|
            0 <= i < step_spec(s, st, dt).poses.len() ==> in_box(
                #[trigger] step_spec(s, st, dt).poses[i],
            ),
{
    lemma_step_wf(s, st, dt);
}

/// A run: one frame per entry of `dts`, in order.
pub open spec fn run_spec(s: SimView, st: SimSettings, dts: Seq<int>) -> SimView
    decreases dts.len(),
{
    if dts.len() == 0 {
        s
    } else {
        run_spec(step_spec(s, st, dts[0]), st, dts.drop_first())
    }
}

/// Conservation of count: however many frames are run, the three
/// per-particle arrays keep their common length, and the species
/// assignment and attraction matrix are untouched.
pub proof fn law_count_conserved(s: SimView, st: SimSettings, dts: Seq<int>)
    ensures
        run_spec(s, st, dts).poses.len() == s.poses.len(),
        run_spec(s, st, dts).vels.len() == s.vels.len(),
        run_spec(s, st, dts).species == s.species,
        run_spec(s, st, dts).attractions == s.attractions,
    decreases dts.len(),
{
    if dts.len() > 0 {
        let clamped = if dts[0] > DT_MAX { DT_MAX as int } else { dts[0] };
        let dt_sub = clamped / (st.substep_n as int);
        lemma_substeps_shape(s, st, dt_sub, st.substep_n as nat);
        law_count_conserved(step_spec(s, st, dts[0]), st, dts.drop_first());
    }
}

/// Friction decay: under zero interaction (radius zero) a frame equal to
/// the friction half-life, taken as a single substep, halves every
/// velocity component exactly, rounding toward zero.
pub proof fn law_friction_halves_velocity(s: SimView, st: SimSettings)
    requires
        s.wf(),
        st.wf(),
        st.local_radius == 0,
        st.substep_n == 1,
        st.friction_half_life <= DT_MAX,
    ensures
        forall|i: int|
            0 <= i < s.vels.len() ==> (#[trigger] step_spec(
                s,
                st,
                st.friction_half_life as int,
            ).vels[i]).x == sdiv(s.vels[i].x as int, 2) && step_spec(
                s,
                st,
                st.friction_half_life as int,
            ).vels[i].y == sdiv(s.vels[i].y as int, 2),
{
    let hl = st.friction_half_life as int;
    let t = step_spec(s, st, hl);
    assert(hl / 1 == hl) by {
        vstd::arithmetic::div_mod::lemma_div_by_multiple(hl, 1);
    }
    assert(t == substep_spec(s, st, hl)) by {
        reveal_with_fuel(substeps_spec, 2);
    }
    crate::fixed::lemma_friction_half(hl);
    assert forall|i: int|
        0 <= i < s.vels.len() implies (#[trigger] t.vels[i]).x == sdiv(s.vels[i].x as int, 2)
        && t.vels[i].y == sdiv(s.vels[i].y as int, 2) by {
        crate::kernel::lemma_zero_radius_force(s.poses, s.species, s.attractions, i);
        let fs = forces_of(s, st);
        assert(fs[i].x == 0 && fs[i].y == 0);
        crate::fixed::lemma_sdiv_half(s.vels[i].x as int);
        crate::fixed::lemma_sdiv_half(s.vels[i].y as int);
        crate::fixed::lemma_sdiv_abs(s.vels[i].x as int, 2);
        crate::fixed::lemma_sdiv_abs(s.vels[i].y as int, 2);
        assert(t.vels[i].x == integrate_vel_spec(
            s.vels[i].x as int,
            0,
            crate::fixed::HALF_SCALE as int,
            hl,
        ) as i64);
    }
}

/// Determinism: the step is a function of the state and the frame time
/// alone, so equal states stepped with equal times stay equal.
pub proof fn law_step_deterministic(a: SimView, b: SimView, st: SimSettings, dt: int)
    requires
        a == b,
    ensures
        step_spec(a, st, dt) == step_spec(b, st, dt),
{
}

} // verus!
