use particle_life::fixed::SCALE;
use particle_life::{SimData, SimSettings, Vec2};

fn v2(x: i64, y: i64) -> Vec2 {
    Vec2 { x, y }
}

fn settings(substep_n: usize, local_radius: i64, friction_half_life: i64) -> SimSettings {
    SimSettings { substep_n, local_radius, friction_half_life }
}

fn three_body() -> SimData {
    let poses = vec![v2(6554, 6554), v2(13107, 6554), v2(32768, 49152)];
    let vels = vec![v2(300, -200), v2(0, 0), v2(-4000, 4000)];
    let species = vec![0u32, 1u32, 0u32];
    let attr = vec![vec![SCALE / 2, -SCALE], vec![SCALE, 0]];
    SimData::from_parts(poses, vels, species, attr).unwrap()
}

#[test]
fn settings_defaults() {
    let st = SimSettings::new();
    assert_eq!(st.substep_n, 8);
    assert_eq!(st.local_radius, 6554);
    assert_eq!(st.friction_half_life, 2621);
}

#[test]
fn from_parts_accepts_consistent_arrays() {
    let sim = three_body();
    assert_eq!(sim.particle_n(), 3);
    assert_eq!(sim.specie_n(), 2);
    assert_eq!(sim.poses().len(), 3);
    assert_eq!(sim.vels().len(), 3);
    assert_eq!(sim.species().as_slice(), &[0, 1, 0]);
    assert_eq!(sim.forces().as_slice(), &[v2(0, 0), v2(0, 0), v2(0, 0)]);
    assert_eq!(sim.attractions()[0][1], -SCALE);
}

#[test]
fn from_parts_rejects_mismatched_lengths() {
    let r = SimData::from_parts(
        vec![v2(0, 0), v2(1, 1)],
        vec![v2(0, 0)],
        vec![0, 0],
        vec![vec![0]],
    );
    assert!(r.is_none());
}

#[test]
fn from_parts_rejects_species_outside_matrix() {
    let r = SimData::from_parts(vec![v2(0, 0)], vec![v2(0, 0)], vec![1], vec![vec![0]]);
    assert!(r.is_none());
}

#[test]
fn from_parts_rejects_ragged_matrix() {
    let r = SimData::from_parts(
        vec![v2(0, 0)],
        vec![v2(0, 0)],
        vec![0],
        vec![vec![0, 0], vec![0]],
    );
    assert!(r.is_none());
}

#[test]
fn from_parts_rejects_position_outside_tile() {
    let r = SimData::from_parts(vec![v2(-1, 0)], vec![v2(0, 0)], vec![0], vec![vec![0]]);
    assert!(r.is_none());
    let r = SimData::from_parts(vec![v2(0, SCALE + 1)], vec![v2(0, 0)], vec![0], vec![vec![0]]);
    assert!(r.is_none());
}

#[test]
fn from_parts_rejects_oversized_attraction() {
    let r = SimData::from_parts(
        vec![v2(0, 0)],
        vec![v2(0, 0)],
        vec![0],
        vec![vec![0x10_0001]],
    );
    assert!(r.is_none());
}

#[test]
fn set_attraction_updates_matrix() {
    let mut sim = three_body();
    sim.set_attraction(1, 0, -12345);
    assert_eq!(sim.attractions()[1][0], -12345);
    assert_eq!(sim.attractions()[0][1], -SCALE);
}

#[test]
fn counts_conserved_across_steps() {
    let mut sim = three_body();
    let st = SimSettings::new();
    for _ in 0..5 {
        sim.tick_with_substeps(655, &st);
        assert_eq!(sim.poses().len(), 3);
        assert_eq!(sim.vels().len(), 3);
        assert_eq!(sim.species().as_slice(), &[0, 1, 0]);
    }
}

#[test]
fn positions_stay_inside_tile() {
    let mut sim = three_body();
    let st = SimSettings::new();
    for _ in 0..20 {
        sim.tick_with_substeps(6554, &st);
        for p in sim.poses() {
            assert!(0 <= p.x && p.x <= SCALE);
            assert!(0 <= p.y && p.y <= SCALE);
        }
    }
}

#[test]
fn crossing_an_edge_resets_to_the_opposite_edge() {
    // One particle, no interaction: it overshoots the high x edge and
    // the low y edge in one substep, and snaps to the opposite edges
    // exactly (not to the modulo-wrapped overshoot).
    let sim = SimData::from_parts(
        vec![v2(65000, 500)],
        vec![v2(100000, -100000)],
        vec![0],
        vec![vec![0]],
    );
    let mut sim = sim.unwrap();
    let st = settings(1, 0, SCALE);
    sim.tick_with_substeps(6554, &st);
    assert_eq!(sim.poses()[0], v2(0, SCALE));
    assert_eq!(sim.vels()[0], v2(93298, -93298));
}

#[test]
fn friction_halves_velocity_in_one_half_life() {
    // Zero radius suppresses every force; one substep over exactly one
    // half-life halves each velocity component, rounding toward zero.
    let sim = SimData::from_parts(
        vec![v2(32768, 32768)],
        vec![v2(1048576, -262144)],
        vec![0],
        vec![vec![0]],
    );
    let mut sim = sim.unwrap();
    let st = settings(1, 0, 2621);
    sim.tick_with_substeps(2621, &st);
    assert_eq!(sim.vels()[0], v2(524288, -131072));
}

#[test]
fn friction_half_life_is_substep_count_invariant() {
    // The damping factor is computed per substep, so splitting the same
    // half-life frame into more substeps changes the result only by
    // fixed-point rounding: it stays within 0.4% of an exact half.
    for n in [4usize, 16usize] {
        let sim = SimData::from_parts(
            vec![v2(32768, 32768)],
            vec![v2(1048576, -262144)],
            vec![0],
            vec![vec![0]],
        );
        let mut sim = sim.unwrap();
        let st = settings(n, 0, 2621);
        sim.tick_with_substeps(2621, &st);
        let v = sim.vels()[0];
        assert!((v.x - 524288).abs() <= 2048, "x: {} at n={}", v.x, n);
        assert!((v.y + 131072).abs() <= 512, "y: {} at n={}", v.y, n);
    }
}

#[test]
fn identical_runs_are_bit_identical() {
    let mut a = three_body();
    let mut b = three_body();
    let st = SimSettings::new();
    for dt in [655i64, 6554, 0, 123, 6554] {
        a.tick_with_substeps(dt, &st);
        b.tick_with_substeps(dt, &st);
    }
    assert_eq!(a.poses().as_slice(), b.poses().as_slice());
    assert_eq!(a.vels().as_slice(), b.vels().as_slice());
}

#[test]
fn end_to_end_two_particle_scenario() {
    // Two mutually attracting particles 0.2 apart with radius 0.5: the
    // normalized distance is 0.4, past BETA, so the tent function gives
    // each a force of 18729 toward the other; with a frame clamped to
    // DT_MAX the closed-form displacement is 187 per particle.
    let sim = SimData::from_parts(
        vec![v2(26214, 32768), v2(39322, 32768)],
        vec![v2(0, 0), v2(0, 0)],
        vec![0, 1],
        vec![vec![0, SCALE], vec![SCALE, 0]],
    );
    let mut sim = sim.unwrap();
    let st = settings(1, 32768, SCALE);
    sim.tick_with_substeps(SCALE, &st);
    assert_eq!(sim.forces().as_slice(), &[v2(18729, 0), v2(-18729, 0)]);
    assert_eq!(sim.vels().as_slice(), &[v2(1873, 0), v2(-1873, 0)]);
    assert_eq!(sim.poses().as_slice(), &[v2(26401, 32768), v2(39135, 32768)]);
}

#[test]
fn populate_forces_matches_compute_force() {
    let mut sim = three_body();
    let st = settings(1, 32768, 2621);
    sim.populate_forces(&st);
    let mut any_nonzero = false;
    for i in 0..sim.particle_n() {
        let mut f = v2(0, 0);
        sim.compute_force(i, &st, &mut f);
        assert_eq!(sim.forces()[i], f);
        if f != v2(0, 0) {
            any_nonzero = true;
        }
    }
    assert!(any_nonzero);
}

#[test]
fn new_simulation_respects_ranges() {
    let sim = SimData::new(3, 50);
    assert_eq!(sim.particle_n(), 50);
    assert_eq!(sim.specie_n(), 3);
    for p in sim.poses() {
        assert!(0 <= p.x && p.x < SCALE);
        assert!(0 <= p.y && p.y < SCALE);
    }
    for v in sim.vels() {
        assert!(-6554 <= v.x && v.x <= 6554);
        assert!(-6554 <= v.y && v.y <= 6554);
    }
    for s in sim.species() {
        assert!(*s < 3);
    }
    assert_eq!(sim.attractions().len(), 3);
    for row in sim.attractions() {
        assert_eq!(row.len(), 3);
        for a in row {
            assert!(-SCALE <= *a && *a <= SCALE);
        }
    }
    for f in sim.forces() {
        assert_eq!(*f, v2(0, 0));
    }
}

#[test]
fn long_frames_are_clamped_to_a_tenth_of_a_second() {
    let mut slow = three_body();
    let mut hitch = three_body();
    let st = SimSettings::new();
    slow.tick_with_substeps(6554, &st);
    hitch.tick_with_substeps(50 * SCALE, &st);
    assert_eq!(slow.poses().as_slice(), hitch.poses().as_slice());
    assert_eq!(slow.vels().as_slice(), hitch.vels().as_slice());
}

#[test]
fn zero_frame_time_changes_nothing() {
    let mut sim = three_body();
    let st = SimSettings::new();
    let poses_before = sim.poses().clone();
    let vels_before = sim.vels().clone();
    sim.tick_with_substeps(0, &st);
    assert_eq!(sim.poses().as_slice(), poses_before.as_slice());
    assert_eq!(sim.vels().as_slice(), vels_before.as_slice());
}
