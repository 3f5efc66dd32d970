//! The pairwise force kernel: toroidal shortest-path offsets, the
//! attraction response curve, and the net force on one particle from a
//! read-only snapshot of all the others.

use vstd::prelude::*;

use crate::fixed::{
    ATTR_LIMIT, HALF_SCALE, MAX_PARTICLES, RADIUS_LIMIT, SCALE, iabs, isqrt64, isqrt_spec,
    lemma_div_at_most, lemma_div_below, lemma_isqrt_bracket, lemma_isqrt_ordered,
    lemma_isqrt_unique, lemma_sdiv_at_most, mul_div_trunc, mul_div_uu, sdiv,
};

verus! {

/// Normalized distance below which every interaction is repulsive,
/// whatever the attraction coefficient: 0.3 in SCALE units.
pub const BETA: i64 = 19661;

/// A two-dimensional fixed-point vector: SCALE units stand for 1.0.
#[derive(Clone, Copy, PartialEq, Eq, Structural, Debug)]
pub struct Vec2 {
    pub x: i64,
    pub y: i64,
}

impl Vec2 {
    pub fn new(x: i64, y: i64) -> (r: Vec2)
        ensures
            r == (Vec2 { x, y }),
    {
        Vec2 { x, y }
    }
}

/// Position coordinates stay inside one torus tile.
pub open spec fn in_box(p: Vec2) -> bool {
    &&& 0 <= p.x <= SCALE
    &&& 0 <= p.y <= SCALE
}

/// The read-only per-substep snapshot is consistent: matching lengths, a
/// square attraction matrix with bounded entries, species indices inside
/// the matrix, and positions inside the tile.
pub open spec fn snapshot_wf(poses: Seq<Vec2>, species: Seq<u32>, attr: Seq<Seq<i64>>) -> bool {
    &&& poses.len() <= MAX_PARTICLES
    &&& species.len() == poses.len()
    &&& forall|j: int| 0 <= j < poses.len() ==> in_box(#[trigger] poses[j])
    &&& forall|j: int| 0 <= j < species.len() ==> (#[trigger] species[j]) < attr.len()
    &&& forall|s: int| 0 <= s < attr.len() ==> (#[trigger] attr[s]).len() == attr.len()
    &&& forall|s: int, t: int|
        0 <= s < attr.len() && 0 <= t < attr.len() ==> iabs(#[trigger] attr[s][t] as int)
            <= ATTR_LIMIT
}

/// Offset along one axis corrected to the shortest way around the torus.
pub open spec fn wrap_delta_spec(d: int) -> int {
    if d > HALF_SCALE {
        d - SCALE
    } else if d < -HALF_SCALE {
        d + SCALE
    } else {
        d
    }
}

pub fn wrap_delta(d: i64) -> (r: i64)
    requires
        -SCALE <= d <= SCALE,
    ensures
        r == wrap_delta_spec(d as int),
        -HALF_SCALE <= r <= HALF_SCALE,
{
    if d > HALF_SCALE {
        d - SCALE
    } else if d < -HALF_SCALE {
        d + SCALE
    } else {
        d
    }
}

/// The corrected offset never exceeds half the torus side, and it reaches
/// the same point: it differs from the raw offset by a whole torus side.
pub proof fn law_wrap_shortest_path(d: int)
    requires
        -SCALE <= d <= SCALE,
    ensures
        -HALF_SCALE <= wrap_delta_spec(d) <= HALF_SCALE,
        (wrap_delta_spec(d) - d) % (SCALE as int) == 0,
{
}

/// Squared shortest-path distance between two points of the torus.
pub open spec fn torus_dist_sq(p: Vec2, q: Vec2) -> int {
    let dx = wrap_delta_spec(q.x - p.x);
    let dy = wrap_delta_spec(q.y - p.y);
    dx * dx + dy * dy
}

/// The attraction response curve at normalized distance `nd` (SCALE units)
/// for attraction coefficient `a`: a universal repulsion ramp below BETA,
/// then a tent peaking at `a` and falling to zero at BETA and at the cutoff.
pub open spec fn mag_spec(nd: int, a: int) -> int {
    if nd < BETA {
        sdiv(nd * SCALE, BETA as int) - SCALE
    } else {
        let t = SCALE - sdiv(iabs(2 * nd - SCALE - BETA) * SCALE, SCALE - BETA);
        sdiv(a * t, SCALE as int)
    }
}

/// The curve never exceeds the attraction coefficient's scale.
pub proof fn lemma_mag_bounds(nd: int, a: int)
    requires
        0 <= nd <= SCALE,
        iabs(a) <= ATTR_LIMIT,
    ensures
        iabs(mag_spec(nd, a)) <= ATTR_LIMIT,
{
    if nd < BETA {
        vstd::arithmetic::div_mod::lemma_div_pos_is_pos(nd * SCALE, BETA as int);
        lemma_div_below(nd * SCALE, SCALE as int, BETA as int);
    } else {
        let dev = iabs(2 * nd - SCALE - BETA);
        vstd::arithmetic::div_mod::lemma_div_pos_is_pos(dev * SCALE, SCALE - BETA);
        lemma_div_at_most(dev * SCALE, SCALE as int, SCALE - BETA);
        let t = SCALE - sdiv(dev * SCALE, SCALE - BETA);
        assert(0 <= t <= SCALE);
        assert(-ATTR_LIMIT * 65536 <= a * t <= ATTR_LIMIT * 65536) by (nonlinear_arith)
            requires
                -ATTR_LIMIT <= a <= ATTR_LIMIT,
                0 <= t <= 65536,
                ATTR_LIMIT == 0x10_0000,
        ;
        lemma_sdiv_at_most(a * t, ATTR_LIMIT as int, SCALE as int);
    }
}

/// Below BETA the curve is strictly repulsive, whatever the coefficient.
pub proof fn law_repulsion_floor(nd: int, a: int)
    requires
        0 <= nd < BETA,
    ensures
        mag_spec(nd, a) < 0,
{
    vstd::arithmetic::div_mod::lemma_div_pos_is_pos(nd * SCALE, BETA as int);
    lemma_div_below(nd * SCALE, SCALE as int, BETA as int);
}

/// Force exerted on a particle at `p` by one at `q`, for attraction `a`
/// and interaction radius `r`: zero beyond the cutoff and for coincident
/// points, otherwise the offset direction scaled by the response curve.
pub open spec fn pair_force_spec(p: Vec2, q: Vec2, a: int, r: int) -> (int, int) {
    let dx = wrap_delta_spec(q.x - p.x);
    let dy = wrap_delta_spec(q.y - p.y);
    let d2 = dx * dx + dy * dy;
    if d2 > r * r || d2 == 0 {
        (0, 0)
    } else {
        let dist = isqrt_spec(d2);
        let nd = (dist * SCALE) / r;
        let m = mag_spec(nd, a);
        (sdiv(dx * m, dist), sdiv(dy * m, dist))
    }
}

/// Geometry facts shared by the kernel: inside the cutoff the distance is
/// at least one, at most `r`, dominates each axis offset, and normalizes
/// to at most SCALE.
pub proof fn lemma_pair_geometry(dx: int, dy: int, r: int)
    requires
        -HALF_SCALE <= dx <= HALF_SCALE,
        -HALF_SCALE <= dy <= HALF_SCALE,
        0 <= r,
        1 <= dx * dx + dy * dy <= r * r,
    ensures
        1 <= r,
        1 <= isqrt_spec(dx * dx + dy * dy) <= r,
        iabs(dx) <= isqrt_spec(dx * dx + dy * dy),
        iabs(dy) <= isqrt_spec(dx * dx + dy * dy),
        0 <= (isqrt_spec(dx * dx + dy * dy) * SCALE) / r <= SCALE,
{
    let d2 = dx * dx + dy * dy;
    let dist = isqrt_spec(d2);
    assert(r >= 1) by (nonlinear_arith)
        requires
            0 <= r,
            1 <= r * r,
    ;
    lemma_isqrt_bracket(d2);
    assert(dist >= 1) by (nonlinear_arith)
        requires
            0 <= dist,
            1 <= d2,
            d2 < (dist + 1) * (dist + 1),
    ;
    assert(iabs(dx) * iabs(dx) <= d2 && iabs(dy) * iabs(dy) <= d2) by (nonlinear_arith)
        requires
            d2 == dx * dx + dy * dy,
            iabs(dx) == if dx < 0 { -dx } else { dx },
            iabs(dy) == if dy < 0 { -dy } else { dy },
    ;
    assert(forall|x: int| x >= 0 ==> #[trigger] (x * x) < (x + 1) * (x + 1)) by (nonlinear_arith);
    lemma_isqrt_unique(iabs(dx) * iabs(dx), iabs(dx));
    lemma_isqrt_unique(iabs(dy) * iabs(dy), iabs(dy));
    lemma_isqrt_ordered(iabs(dx) * iabs(dx), d2);
    lemma_isqrt_ordered(iabs(dy) * iabs(dy), d2);
    lemma_isqrt_unique(r * r, r);
    lemma_isqrt_ordered(d2, r * r);
    vstd::arithmetic::div_mod::lemma_div_pos_is_pos(dist * SCALE, r);
    assert(dist * SCALE <= SCALE * r) by (nonlinear_arith)
        requires
            dist <= r,
            0 <= dist,
    ;
    lemma_div_at_most(dist * SCALE, SCALE as int, r);
}

/// One pair's contribution is bounded by the attraction scale per axis.
pub proof fn lemma_pair_force_bounds(p: Vec2, q: Vec2, a: int, r: int)
    requires
        in_box(p),
        in_box(q),
        iabs(a) <= ATTR_LIMIT,
        0 <= r <= RADIUS_LIMIT,
    ensures
        iabs(pair_force_spec(p, q, a, r).0) <= ATTR_LIMIT,
        iabs(pair_force_spec(p, q, a, r).1) <= ATTR_LIMIT,
{
    let dx = wrap_delta_spec(q.x - p.x);
    let dy = wrap_delta_spec(q.y - p.y);
    let d2 = dx * dx + dy * dy;
    if d2 > r * r || d2 == 0 {
    } else {
        assert(d2 >= 1) by (nonlinear_arith)
            requires
                d2 == dx * dx + dy * dy,
                d2 != 0,
        ;
        lemma_pair_geometry(dx, dy, r);
        let dist = isqrt_spec(d2);
        let nd = (dist * SCALE) / r;
        let m = mag_spec(nd, a);
        lemma_mag_bounds(nd, a);
        assert(iabs(dx * m) <= iabs(m) * dist && iabs(dy * m) <= iabs(m) * dist)
            by (nonlinear_arith)
            requires
                iabs(dx) <= dist,
                iabs(dy) <= dist,
                iabs(dx) == if dx < 0 { -dx } else { dx },
                iabs(dy) == if dy < 0 { -dy } else { dy },
                iabs(m) == if m < 0 { -m } else { m },
                iabs(dx * m) == if dx * m < 0 { -(dx * m) } else { dx * m },
                iabs(dy * m) == if dy * m < 0 { -(dy * m) } else { dy * m },
    ;
        lemma_sdiv_at_most(dx * m, iabs(m), dist);
        lemma_sdiv_at_most(dy * m, iabs(m), dist);
    }
}

/// Net force on particle `i`, accumulated over the neighbors `j < k`.
pub open spec fn force_on_upto(
    poses: Seq<Vec2>,
    species: Seq<u32>,
    attr: Seq<Seq<i64>>,
    r: int,
    i: int,
    k: int,
) -> (int, int)
    decreases k,
{
    if k <= 0 {
        (0, 0)
    } else {
        let prev = force_on_upto(poses, species, attr, r, i, k - 1);
        if k - 1 == i {
            prev
        } else {
            let pf = pair_force_spec(
                poses[i],
                poses[k - 1],
                attr[species[i] as int][species[k - 1] as int] as int,
                r,
            );
            (prev.0 + pf.0, prev.1 + pf.1)
        }
    }
}

/// Net force on particle `i` from every other particle of the snapshot.
pub open spec fn force_on(
    poses: Seq<Vec2>,
    species: Seq<u32>,
    attr: Seq<Seq<i64>>,
    r: int,
    i: int,
) -> (int, int) {
    force_on_upto(poses, species, attr, r, i, poses.len() as int)
}

pub proof fn lemma_force_on_upto_bounds(
    poses: Seq<Vec2>,
    species: Seq<u32>,
    attr: Seq<Seq<i64>>,
    r: int,
    i: int,
    k: int,
)
    requires
        snapshot_wf(poses, species, attr),
        0 <= r <= RADIUS_LIMIT,
        0 <= i < poses.len(),
        0 <= k <= poses.len(),
    ensures
        iabs(force_on_upto(poses, species, attr, r, i, k).0) <= k * ATTR_LIMIT,
        iabs(force_on_upto(poses, species, attr, r, i, k).1) <= k * ATTR_LIMIT,
    decreases k,
{
    if k > 0 {
        lemma_force_on_upto_bounds(poses, species, attr, r, i, k - 1);
        if k - 1 != i {
            lemma_pair_force_bounds(
                poses[i],
                poses[k - 1],
                attr[species[i] as int][species[k - 1] as int] as int,
                r,
            );
        }
    }
}

/// The net force fits the force field's range.
pub proof fn lemma_force_on_bounds(
    poses: Seq<Vec2>,
    species: Seq<u32>,
    attr: Seq<Seq<i64>>,
    r: int,
    i: int,
)
    requires
        snapshot_wf(poses, species, attr),
        0 <= r <= RADIUS_LIMIT,
        0 <= i < poses.len(),
    ensures
        iabs(force_on(poses, species, attr, r, i).0) <= crate::fixed::FORCE_LIMIT,
        iabs(force_on(poses, species, attr, r, i).1) <= crate::fixed::FORCE_LIMIT,
{
    lemma_force_on_upto_bounds(poses, species, attr, r, i, poses.len() as int);
    assert(poses.len() * ATTR_LIMIT <= MAX_PARTICLES * ATTR_LIMIT) by (nonlinear_arith)
        requires
            poses.len() <= MAX_PARTICLES,
    ;
}

/// A particle with every other particle strictly beyond the interaction
/// radius feels exactly zero net force.
pub proof fn law_isolated_particle(
    poses: Seq<Vec2>,
    species: Seq<u32>,
    attr: Seq<Seq<i64>>,
    r: int,
    i: int,
)
    requires
        0 <= i < poses.len(),
        forall|j: int|
            0 <= j < poses.len() && j != i ==> torus_dist_sq(poses[i], #[trigger] poses[j]) > r
                * r,
    ensures
        force_on(poses, species, attr, r, i) == (0int, 0int),
{
    lemma_isolated_upto(poses, species, attr, r, i, poses.len() as int);
}

proof fn lemma_isolated_upto(
    poses: Seq<Vec2>,
    species: Seq<u32>,
    attr: Seq<Seq<i64>>,
    r: int,
    i: int,
    k: int,
)
    requires
        0 <= i < poses.len(),
        k <= poses.len(),
        forall|j: int|
            0 <= j < poses.len() && j != i ==> torus_dist_sq(poses[i], #[trigger] poses[j]) > r
                * r,
    ensures
        force_on_upto(poses, species, attr, r, i, k) == (0int, 0int),
    decreases k,
{
    if k > 0 {
        lemma_isolated_upto(poses, species, attr, r, i, k - 1);
    }
}

/// With a zero interaction radius every interaction is suppressed.
pub proof fn lemma_zero_radius_force(
    poses: Seq<Vec2>,
    species: Seq<u32>,
    attr: Seq<Seq<i64>>,
    i: int,
)
    requires
        0 <= i < poses.len(),
    ensures
        force_on(poses, species, attr, 0, i) == (0int, 0int),
{
    lemma_zero_radius_upto(poses, species, attr, i, poses.len() as int);
}

proof fn lemma_zero_radius_upto(
    poses: Seq<Vec2>,
    species: Seq<u32>,
    attr: Seq<Seq<i64>>,
    i: int,
    k: int,
)
    requires
        0 <= i < poses.len(),
        k <= poses.len(),
    ensures
        force_on_upto(poses, species, attr, 0, i, k) == (0int, 0int),
    decreases k,
{
    if k > 0 {
        lemma_zero_radius_upto(poses, species, attr, i, k - 1);
        if k - 1 != i {
            let dx = wrap_delta_spec(poses[k - 1].x - poses[i].x);
            let dy = wrap_delta_spec(poses[k - 1].y - poses[i].y);
            assert(dx * dx + dy * dy >= 0) by (nonlinear_arith);
        }
    }
}

/// Interaction magnitude of the response curve at normalized distance
/// `distance` (SCALE units, at most SCALE) for coefficient `attraction`.
pub fn get_attraction_force(distance: i64, attraction: i64) -> (m: i64)
    requires
        0 <= distance <= SCALE,
        -ATTR_LIMIT <= attraction <= ATTR_LIMIT,
    ensures
        m == mag_spec(distance as int, attraction as int),
        -ATTR_LIMIT <= m <= ATTR_LIMIT,
{
    proof {
        lemma_mag_bounds(distance as int, attraction as int);
    }
    if distance < BETA {
        let scaled = mul_div_trunc(distance, SCALE, BETA);
        proof {
            vstd::arithmetic::div_mod::lemma_div_pos_is_pos(distance * SCALE, BETA as int);
            lemma_div_below(distance * SCALE, SCALE as int, BETA as int);
        }
        scaled - SCALE
    } else {
        let dev = 2 * distance - SCALE - BETA;
        let adev = if dev < 0 {
            -dev
        } else {
            dev
        };
        let term = mul_div_trunc(adev, SCALE, SCALE - BETA);
        proof {
            vstd::arithmetic::div_mod::lemma_div_pos_is_pos(adev * SCALE, SCALE - BETA);
            lemma_div_at_most(adev * SCALE, SCALE as int, SCALE - BETA);
        }
        let t = SCALE - term;
        mul_div_trunc(attraction, t, SCALE)
    }
}

/// Rows of the attraction matrix as mathematical sequences.
pub open spec fn attr_rows(attr: Seq<Vec<i64>>) -> Seq<Seq<i64>> {
    attr.map_values(|row: Vec<i64>| row@)
}

/// Net force on particle `i`, by brute force over every other particle of
/// the snapshot.
pub fn force_on_particle(
    poses: &Vec<Vec2>,
    species: &Vec<u32>,
    attractions: &Vec<Vec<i64>>,
    local_radius: i64,
    i: usize,
) -> (f: Vec2)
    requires
        snapshot_wf(poses@, species@, attr_rows(attractions@)),
        0 <= local_radius <= RADIUS_LIMIT,
        i < poses@.len(),
    ensures
        f.x == force_on(poses@, species@, attr_rows(attractions@), local_radius as int, i as int).0,
        f.y == force_on(poses@, species@, attr_rows(attractions@), local_radius as int, i as int).1,
{
    let ghost attr = attr_rows(attractions@);
    let ghost rad = local_radius as int;
    let n = poses.len();
    let position = poses[i];
    let mut fx: i64 = 0;
    let mut fy: i64 = 0;
    let mut j: usize = 0;
    proof {
        assert(local_radius * local_radius <= 0x4000_0000 * 0x4000_0000) by (nonlinear_arith)
            requires
                0 <= local_radius <= 0x4000_0000,
        ;
    }
    let r2: i64 = local_radius * local_radius;
    while j < n
        invariant
            snapshot_wf(poses@, species@, attr),
            attr == attr_rows(attractions@),
            0 <= local_radius <= RADIUS_LIMIT,
            rad == local_radius as int,
            r2 == rad * rad,
            i < n == poses@.len(),
            position == poses@[i as int],
            j <= n,
            fx == force_on_upto(poses@, species@, attr, rad, i as int, j as int).0,
            fy == force_on_upto(poses@, species@, attr, rad, i as int, j as int).1,
            iabs(fx as int) <= j * ATTR_LIMIT,
            iabs(fy as int) <= j * ATTR_LIMIT,
        decreases n - j,
    {
        proof {
            lemma_force_on_upto_bounds(poses@, species@, attr, rad, i as int, j + 1);
        }
        if j != i {
            let neighbor = poses[j];
            let dx = wrap_delta(neighbor.x - position.x);
            let dy = wrap_delta(neighbor.y - position.y);
            proof {
                assert(dx * dx <= 32768 * 32768 && dy * dy <= 32768 * 32768) by (nonlinear_arith)
                    requires
                        -32768 <= dx <= 32768,
                        -32768 <= dy <= 32768,
                ;
                assert(dx * dx >= 0 && dy * dy >= 0) by (nonlinear_arith);
            }
            let d2: i64 = dx * dx + dy * dy;
            if d2 <= r2 && d2 != 0 {
                proof {
                    lemma_pair_geometry(dx as int, dy as int, rad);
                }
                let dist = isqrt64(d2 as u64) as i64;
                let nd = mul_div_uu(dist as u64, 65536, local_radius as u64) as i64;
                let species_i = species[i];
                let species_j = species[j];
                let a = attractions[species_i as usize][species_j as usize];
                let m = get_attraction_force(nd, a);
                proof {
                    assert(-32768 * 0x10_0000 <= dx * m <= 32768 * 0x10_0000
                        && -32768 * 0x10_0000 <= dy * m <= 32768 * 0x10_0000) by (nonlinear_arith)
                        requires
                            -32768 <= dx <= 32768,
                            -32768 <= dy <= 32768,
                            -0x10_0000 <= m <= 0x10_0000,
                    ;
                }
                let cx = mul_div_trunc(dx, m, dist);
                let cy = mul_div_trunc(dy, m, dist);
                proof {
                    lemma_pair_force_bounds(
                        poses@[i as int],
                        poses@[j as int],
                        a as int,
                        rad,
                    );
                }
                fx = fx + cx;
                fy = fy + cy;
            }
        }
        j = j + 1;
    }
    proof {
        lemma_force_on_bounds(poses@, species@, attr, rad, i as int);
    }
    Vec2 { x: fx, y: fy }
}

} // verus!
