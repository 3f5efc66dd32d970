use particle_life::fixed::SCALE;
use particle_life::{SimData, SimSettings, Vec2, get_attraction_force};

fn v2(x: i64, y: i64) -> Vec2 {
    Vec2 { x, y }
}

fn settings(substep_n: usize, local_radius: i64, friction_half_life: i64) -> SimSettings {
    SimSettings { substep_n, local_radius, friction_half_life }
}

fn force(sim: &SimData, i: usize, st: &SimSettings) -> Vec2 {
    let mut f = v2(0, 0);
    sim.compute_force(i, st, &mut f);
    f
}

#[test]
fn curve_is_repulsive_near_contact() {
    assert_eq!(get_attraction_force(1, SCALE), -65533);
    assert_eq!(get_attraction_force(1, -SCALE), -65533);
    assert_eq!(get_attraction_force(0, 123), -SCALE);
}

#[test]
fn curve_exact_values() {
    // 0.2 of the radius: repulsion ramp, independent of the coefficient sign.
    assert_eq!(get_attraction_force(13107, SCALE), -21847);
    assert_eq!(get_attraction_force(13107, -SCALE), -21847);
    // 0.4 of the radius with full attraction: the tent function.
    assert_eq!(get_attraction_force(26216, SCALE), 18729);
    // The tent is zero exactly at BETA and at the cutoff.
    assert_eq!(get_attraction_force(19661, SCALE), 0);
    assert_eq!(get_attraction_force(SCALE, SCALE), 0);
}

#[test]
fn repulsion_floor_for_any_coefficient() {
    let mut nd: i64 = 1;
    while nd < 19661 {
        for a in [-SCALE, -1, 0, 1, SCALE] {
            assert!(get_attraction_force(nd, a) < 0);
        }
        nd += 997;
    }
}

#[test]
fn wrap_around_interaction_is_nonzero() {
    // Particles at (0.01, 0.5) and (0.99, 0.5), radius 0.1: the naive
    // offset 0.98 is far outside the radius, but the wrap-around path is
    // 0.02, well inside it, so the interaction must not vanish.
    let poses = vec![v2(655, 32768), v2(64881, 32768)];
    let vels = vec![v2(0, 0), v2(0, 0)];
    let species = vec![0u32, 0u32];
    let attr = vec![vec![SCALE]];
    let sim = SimData::from_parts(poses, vels, species, attr).unwrap();
    let st = settings(1, 6554, 2621);
    let f0 = force(&sim, 0, &st);
    let f1 = force(&sim, 1, &st);
    assert_ne!(f0, v2(0, 0));
    // At 0.2 of the radius the curve is repulsive, so the force on the
    // first particle points away from its wrap-side neighbor: along
    // increasing x, and exactly opposite on the second particle.
    assert_eq!(f0, v2(21874, 0));
    assert_eq!(f1, v2(-21874, 0));
}

#[test]
fn wrap_around_attraction_points_through_the_wrap() {
    // Particles at (0.2, 0.5) and (0.9, 0.5), radius 0.5, attraction 1:
    // the shortest path from the first to the second runs through the
    // left edge, so the attractive force points toward decreasing x.
    let poses = vec![v2(13107, 32768), v2(58982, 32768)];
    let vels = vec![v2(0, 0), v2(0, 0)];
    let species = vec![0u32, 0u32];
    let attr = vec![vec![SCALE]];
    let sim = SimData::from_parts(poses, vels, species, attr).unwrap();
    let st = settings(1, 32768, 2621);
    let f0 = force(&sim, 0, &st);
    let f1 = force(&sim, 1, &st);
    assert_eq!(f0, v2(-56175, 0));
    assert_eq!(f1, v2(56175, 0));
}

#[test]
fn isolated_particle_feels_no_force() {
    // Shortest-path distance between (0.1, 0.1) and (0.9, 0.9) is about
    // 0.28 on both axes, far beyond a radius of 0.1.
    let poses = vec![v2(6554, 6554), v2(58982, 58982)];
    let vels = vec![v2(0, 0), v2(0, 0)];
    let species = vec![0u32, 0u32];
    let attr = vec![vec![SCALE]];
    let sim = SimData::from_parts(poses, vels, species, attr).unwrap();
    let st = settings(1, 6554, 2621);
    assert_eq!(force(&sim, 0, &st), v2(0, 0));
    assert_eq!(force(&sim, 1, &st), v2(0, 0));
}

#[test]
fn coincident_particles_are_skipped() {
    let poses = vec![v2(32768, 32768), v2(32768, 32768)];
    let vels = vec![v2(0, 0), v2(0, 0)];
    let species = vec![0u32, 0u32];
    let attr = vec![vec![SCALE]];
    let sim = SimData::from_parts(poses, vels, species, attr).unwrap();
    let st = settings(1, 6554, 2621);
    assert_eq!(force(&sim, 0, &st), v2(0, 0));
}
