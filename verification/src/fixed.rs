//! Fixed-point scalar arithmetic for the simulation.
//!
//! A coordinate of `SCALE` stands for 1.0: the side length of the torus.
//! All helpers state their result exactly, as a function of the integer
//! inputs, so the rest of the crate can be specified without any rounding
//! slack.

use vstd::prelude::*;

verus! {

/// One torus side length; the fixed-point representation of 1.0.
pub const SCALE: i64 = 65536;

/// Half a side length: the largest possible shortest-path offset on one axis.
pub const HALF_SCALE: i64 = 32768;

/// Largest frame time accepted by a step, about a tenth of a second.
/// Longer frame hitches are clamped here to bound integration error.
pub const DT_MAX: i64 = 6554;

/// Velocities are saturated at this magnitude per axis when integrating,
/// standing in for the unbounded range of the underlying reals.
pub const VEL_LIMIT: i64 = 0x100_0000_0000;

/// Largest accepted magnitude of an attraction coefficient (16.0); the
/// nominal range of the model is [-SCALE, SCALE].
pub const ATTR_LIMIT: i64 = 0x10_0000;

/// Largest net force magnitude per axis: `MAX_PARTICLES * ATTR_LIMIT`.
pub const FORCE_LIMIT: i64 = 0x1000_0000_0000;

/// Largest supported particle count.
pub const MAX_PARTICLES: usize = 0x100_0000;

/// Largest accepted interaction radius.
pub const RADIUS_LIMIT: i64 = 0x4000_0000;

/// Largest supported species count.
pub const MAX_SPECIES: usize = 4096;

/// Magnitude of an integer.
pub open spec fn iabs(a: int) -> int {
    if a < 0 {
        -a
    } else {
        a
    }
}

/// Quotient rounded toward zero, the rounding of all fixed-point scaling
/// in this crate (`/` on `int` alone would round toward negative infinity).
pub open spec fn sdiv(a: int, d: int) -> int
    recommends
        d >= 1,
{
    if a >= 0 {
        a / d
    } else {
        -((-a) / d)
    }
}

/// `a` forced into `[lo, hi]`.
pub open spec fn clamp_spec(a: int, lo: int, hi: int) -> int {
    if a < lo {
        lo
    } else if a > hi {
        hi
    } else {
        a
    }
}

/// The magnitude of a truncating quotient is the floor of the magnitudes' quotient.
pub proof fn lemma_sdiv_abs(a: int, d: int)
    requires
        d >= 1,
    ensures
        iabs(sdiv(a, d)) == iabs(a) / d,
        iabs(sdiv(a, d)) <= iabs(a),
{
    if a >= 0 {
        vstd::arithmetic::div_mod::lemma_div_pos_is_pos(a, d);
        vstd::arithmetic::div_mod::lemma_div_nonincreasing(a, d);
    } else {
        vstd::arithmetic::div_mod::lemma_div_pos_is_pos(-a, d);
        vstd::arithmetic::div_mod::lemma_div_nonincreasing(-a, d);
    }
}

/// A nonnegative numerator below `m * d` divides to a quotient below `m`.
pub proof fn lemma_div_below(a: int, m: int, d: int)
    requires
        d >= 1,
        0 <= a,
        a < m * d,
    ensures
        a / d < m,
{
    vstd::arithmetic::mul::lemma_mul_is_commutative(m, d);
    vstd::arithmetic::div_mod::lemma_multiply_divide_lt(a, d, m);
}

/// A nonnegative numerator of at most `m * d` divides to at most `m`.
pub proof fn lemma_div_at_most(a: int, m: int, d: int)
    requires
        d >= 1,
        0 <= a,
        0 <= m,
        a <= m * d,
    ensures
        a / d <= m,
{
    if a < m * d {
        lemma_div_below(a, m, d);
    } else {
        vstd::arithmetic::div_mod::lemma_div_by_multiple(m, d);
    }
}

/// Bound on a truncating quotient from a bound on the numerator's magnitude.
pub proof fn lemma_sdiv_at_most(a: int, m: int, d: int)
    requires
        d >= 1,
        0 <= m,
        iabs(a) <= m * d,
    ensures
        iabs(sdiv(a, d)) <= m,
{
    lemma_sdiv_abs(a, d);
    lemma_div_at_most(iabs(a), m, d);
}

/// `a` forced into `[lo, hi]`.
pub fn clamp64(a: i64, lo: i64, hi: i64) -> (r: i64)
    requires
        lo <= hi,
    ensures
        r == clamp_spec(a as int, lo as int, hi as int),
{
    if a < lo {
        lo
    } else if a > hi {
        hi
    } else {
        a
    }
}

/// `a * b / d` on moderate unsigned operands, stated exactly.
pub fn mul_div_uu(a: u64, b: u64, d: u64) -> (r: u64)
    requires
        a <= 0xFFFF_FFFF,
        b <= 0xFFFF_FFFF,
        d >= 1,
    ensures
        r == a * b / (d as int),
{
    proof {
        assert(a * b <= 0xFFFF_FFFF * 0xFFFF_FFFF) by (nonlinear_arith)
            requires
                a <= 0xFFFF_FFFF,
                b <= 0xFFFF_FFFF,
        ;
        vstd::arithmetic::div_mod::lemma_div_nonincreasing((a * b) as int, d as int);
        vstd::arithmetic::div_mod::lemma_div_pos_is_pos((a * b) as int, d as int);
    }
    a * b / d
}

/// Truncating fixed-point scaling: `a * b / d`, rounded toward zero.
pub fn mul_div_trunc(a: i64, b: i64, d: i64) -> (r: i64)
    requires
        d >= 1,
        -0x2000_0000_0000_0000 <= a * b <= 0x2000_0000_0000_0000,
    ensures
        r == sdiv(a * b, d as int),
{
    let prod: i128 = (a as i128) * (b as i128);
    if prod >= 0 {
        let q: u128 = (prod as u128) / (d as u128);
        proof {
            vstd::arithmetic::div_mod::lemma_div_nonincreasing(prod as int, d as int);
            vstd::arithmetic::div_mod::lemma_div_pos_is_pos(prod as int, d as int);
        }
        q as i64
    } else {
        let mag: u128 = (-prod) as u128;
        let q: u128 = mag / (d as u128);
        proof {
            vstd::arithmetic::div_mod::lemma_div_nonincreasing(mag as int, d as int);
            vstd::arithmetic::div_mod::lemma_div_pos_is_pos(mag as int, d as int);
        }
        -(q as i64)
    }
}

/// Integer square root: the largest `r` with `r * r <= n`, defined by
/// stepping `n` up from zero.
pub open spec fn isqrt_spec(n: int) -> int
    decreases n,
{
    if n <= 0 {
        0
    } else {
        let r = isqrt_spec(n - 1);
        if (r + 1) * (r + 1) <= n {
            r + 1
        } else {
            r
        }
    }
}

/// `isqrt_spec(n)` squares to at most `n`, and is the largest such value.
pub proof fn lemma_isqrt_bracket(n: int)
    requires
        n >= 0,
    ensures
        0 <= isqrt_spec(n),
        isqrt_spec(n) * isqrt_spec(n) <= n,
        n < (isqrt_spec(n) + 1) * (isqrt_spec(n) + 1),
    decreases n,
{
    if n == 0 {
        assert(isqrt_spec(0) == 0);
    } else {
        lemma_isqrt_bracket(n - 1);
        let r = isqrt_spec(n - 1);
        if (r + 1) * (r + 1) <= n {
            assert(n < (r + 1 + 1) * (r + 1 + 1)) by (nonlinear_arith)
                requires
                    0 <= r,
                    n - 1 < (r + 1) * (r + 1),
                    (r + 1) * (r + 1) <= n,
            ;
        }
    }
}

/// Any bracket witness equals the integer square root.
pub proof fn lemma_isqrt_unique(n: int, r: int)
    requires
        n >= 0,
        r >= 0,
        r * r <= n,
        n < (r + 1) * (r + 1),
    ensures
        r == isqrt_spec(n),
{
    lemma_isqrt_bracket(n);
    let s = isqrt_spec(n);
    if r < s {
        assert((r + 1) * (r + 1) <= s * s) by (nonlinear_arith)
            requires
                0 <= r,
                r + 1 <= s,
        ;
    }
    if s < r {
        assert((s + 1) * (s + 1) <= r * r) by (nonlinear_arith)
            requires
                0 <= s,
                s + 1 <= r,
        ;
    }
}

/// Monotonicity of the integer square root.
pub proof fn lemma_isqrt_ordered(a: int, b: int)
    requires
        0 <= a <= b,
    ensures
        isqrt_spec(a) <= isqrt_spec(b),
{
    lemma_isqrt_bracket(a);
    lemma_isqrt_bracket(b);
    let ra = isqrt_spec(a);
    let rb = isqrt_spec(b);
    if rb < ra {
        assert((rb + 1) * (rb + 1) <= ra * ra) by (nonlinear_arith)
            requires
                0 <= rb,
                rb + 1 <= ra,
        ;
    }
}

/// Integer square root by bisection.
pub fn isqrt64(n: u64) -> (r: u64)
    ensures
        r == isqrt_spec(n as int),
        r * r <= n,
        n < (r + 1) * (r + 1),
{
    let mut lo: u64 = 0;
    let mut hi: u64 = 0x1_0000_0000;
    proof {
        assert((0x1_0000_0000u64 as int) * (0x1_0000_0000u64 as int) > n as int);
    }
    while lo + 1 < hi
        invariant
            0 <= lo < hi <= 0x1_0000_0000,
            lo * lo <= n,
            (n as int) < (hi as int) * (hi as int),
        decreases hi - lo,
    {
        let mid: u64 = lo + (hi - lo) / 2;
        proof {
            assert(lo < mid < hi);
            assert(mid * mid <= 0xFFFF_FFFF * 0xFFFF_FFFF) by (nonlinear_arith)
                requires
                    mid <= 0xFFFF_FFFF,
            ;
        }
        if mid * mid <= n {
            lo = mid;
        } else {
            hi = mid;
        }
    }
    proof {
        assert(hi == lo + 1);
        lemma_isqrt_unique(n as int, lo as int);
    }
    lo
}

/// Scaling by HALF_SCALE over SCALE is exact halving, toward zero.
pub proof fn lemma_sdiv_half(v: int)
    ensures
        sdiv(v * HALF_SCALE, SCALE as int) == sdiv(v, 2),
{
    if v >= 0 {
        vstd::arithmetic::div_mod::lemma_div_denominator(v * 32768, 32768, 2);
        vstd::arithmetic::div_mod::lemma_div_by_multiple(v, 32768);
    } else {
        vstd::arithmetic::div_mod::lemma_div_denominator((-v) * 32768, 32768, 2);
        vstd::arithmetic::div_mod::lemma_div_by_multiple(-v, 32768);
        assert((-v) * 32768 == -(v * 32768));
    }
}

/// Bit value and multiplier for one step of the fractional half-power:
/// step `i` handles bit `2^(15 - i)` of the exponent's fraction, and its
/// multiplier is `SCALE * 0.5^(bit / SCALE)` rounded to nearest.
pub open spec fn pow_step_spec(i: int) -> (int, int) {
    if i == 0 {
        (32768, 46341)
    } else if i == 1 {
        (16384, 55109)
    } else if i == 2 {
        (8192, 60097)
    } else if i == 3 {
        (4096, 62757)
    } else if i == 4 {
        (2048, 64132)
    } else if i == 5 {
        (1024, 64830)
    } else if i == 6 {
        (512, 65182)
    } else if i == 7 {
        (256, 65359)
    } else if i == 8 {
        (128, 65447)
    } else if i == 9 {
        (64, 65492)
    } else if i == 10 {
        (32, 65514)
    } else if i == 11 {
        (16, 65525)
    } else if i == 12 {
        (8, 65530)
    } else if i == 13 {
        (4, 65533)
    } else if i == 14 {
        (2, 65535)
    } else {
        (1, 65535)
    }
}

fn pow_step(i: usize) -> (r: (u64, u64))
    requires
        i < 16,
    ensures
        r.0 == pow_step_spec(i as int).0,
        r.1 == pow_step_spec(i as int).1,
        1 <= r.0 <= 32768,
        r.1 <= 65536,
{
    match i {
        0 => (32768, 46341),
        1 => (16384, 55109),
        2 => (8192, 60097),
        3 => (4096, 62757),
        4 => (2048, 64132),
        5 => (1024, 64830),
        6 => (512, 65182),
        7 => (256, 65359),
        8 => (128, 65447),
        9 => (64, 65492),
        10 => (32, 65514),
        11 => (16, 65525),
        12 => (8, 65530),
        13 => (4, 65533),
        14 => (2, 65535),
        _ => (1, 65535),
    }
}

/// Accumulator and remaining exponent after the first `n` steps of the
/// fractional half-power of `x / SCALE`.
pub open spec fn frac_pow_state(x: int, n: nat) -> (int, int)
    decreases n,
{
    if n == 0 {
        (SCALE as int, x)
    } else {
        let prev = frac_pow_state(x, (n - 1) as nat);
        let step = pow_step_spec(n - 1);
        if prev.1 >= step.0 {
            ((prev.0 * step.1) / (SCALE as int), prev.1 - step.0)
        } else {
            prev
        }
    }
}

/// `0.5` raised to `x / SCALE`, in SCALE units, for a fractional exponent.
pub open spec fn frac_pow_spec(x: int) -> int {
    frac_pow_state(x, 16).0
}


/// Fractional part of the half-power, by one pass over the exponent's bits.
pub fn frac_pow(x: u64) -> (r: u64)
    requires
        x < 65536,
    ensures
        r == frac_pow_spec(x as int),
        r <= 65536,
{
    let mut acc: u64 = 65536;
    let mut rem: u64 = x;
    let mut i: usize = 0;
    while i < 16
        invariant
            i <= 16,
            acc == frac_pow_state(x as int, i as nat).0,
            rem == frac_pow_state(x as int, i as nat).1,
            acc <= 65536,
            rem <= x < 65536,
        decreases 16 - i,
    {
        let (b, c) = pow_step(i);
        if rem >= b {
            rem = rem - b;
            let next = mul_div_uu(acc, c, 65536);
            proof {
                assert(acc * c <= 65536 * 65536) by (nonlinear_arith)
                    requires
                        acc <= 65536,
                        c <= 65536,
                ;
                lemma_div_at_most(acc * c, 65536, 65536);
            }
            acc = next;
        }
        i = i + 1;
    }
    acc
}

/// `a` halved, rounding down, `k` times over.
pub open spec fn halve_n(a: int, k: nat) -> int
    decreases k,
{
    if k == 0 {
        a
    } else {
        halve_n(a, (k - 1) as nat) / 2
    }
}

pub proof fn lemma_halve_le(a: int, k: nat)
    requires
        0 <= a,
    ensures
        0 <= halve_n(a, k) <= a,
    decreases k,
{
    if k > 0 {
        lemma_halve_le(a, (k - 1) as nat);
        vstd::arithmetic::div_mod::lemma_div_pos_is_pos(halve_n(a, (k - 1) as nat), 2);
        vstd::arithmetic::div_mod::lemma_div_nonincreasing(halve_n(a, (k - 1) as nat), 2);
    }
}

pub proof fn lemma_halve_mono(a: int, b: int, k: nat)
    requires
        0 <= a <= b,
    ensures
        halve_n(a, k) <= halve_n(b, k),
    decreases k,
{
    if k > 0 {
        lemma_halve_mono(a, b, (k - 1) as nat);
        vstd::arithmetic::div_mod::lemma_div_is_ordered(
            halve_n(a, (k - 1) as nat),
            halve_n(b, (k - 1) as nat),
            2,
        );
    }
}

/// Seventeen halvings flush any value of at most SCALE to zero.
pub proof fn lemma_halve_zero(a: int, k: nat)
    requires
        0 <= a <= SCALE,
        k >= 17,
    ensures
        halve_n(a, k) == 0,
    decreases k,
{
    if k == 17 {
        lemma_halve_mono(a, 65536, 17);
        lemma_halve_le(a, 17);
        assert(halve_n(65536, 17) == 0) by {
            reveal_with_fuel(halve_n, 18);
        }
    } else {
        lemma_halve_zero(a, (k - 1) as nat);
    }
}

/// `0.5` raised to `q / SCALE`, in SCALE units.
pub open spec fn pow_half_spec(q: int) -> int
    recommends
        0 <= q,
{
    halve_n(frac_pow_spec(q % (SCALE as int)), (q / (SCALE as int)) as nat)
}

/// Exponential decay `0.5^(q / SCALE)` by a bit pass and whole halvings.
pub fn pow_half(q: u64) -> (r: u64)
    ensures
        r == pow_half_spec(q as int),
        r <= 65536,
{
    let k: u64 = q / 65536;
    let x: u64 = q % 65536;
    let frac: u64 = frac_pow(x);
    let steps: u64 = if k > 17 {
        17
    } else {
        k
    };
    let mut acc: u64 = frac;
    let mut j: u64 = 0;
    while j < steps
        invariant
            j <= steps <= 17,
            acc == halve_n(frac as int, j as nat),
            acc <= frac <= 65536,
        decreases steps - j,
    {
        proof {
            lemma_halve_le(frac as int, (j + 1) as nat);
        }
        acc = acc / 2;
        j = j + 1;
    }
    proof {
        if k > 17 {
            lemma_halve_zero(frac as int, 17);
            lemma_halve_zero(frac as int, k as nat);
        }
        lemma_halve_le(frac as int, k as nat);
    }
    acc
}

/// Per-substep damping factor `0.5^(dt / half_life)`, in SCALE units: the
/// factor that produces the configured velocity half-life under zero force.
pub open spec fn friction_factor_spec(dt: int, hl: int) -> int
    recommends
        0 <= dt,
        1 <= hl,
{
    pow_half_spec((dt * (SCALE as int)) / hl)
}

pub fn friction_factor(dt: i64, hl: i64) -> (f: i64)
    requires
        0 <= dt <= DT_MAX,
        1 <= hl,
    ensures
        f == friction_factor_spec(dt as int, hl as int),
        0 <= f <= SCALE,
{
    let q: u64 = mul_div_uu(dt as u64, 65536, hl as u64);
    pow_half(q) as i64
}

/// A frame time equal to the half-life damps by exactly one half.
pub proof fn lemma_friction_half(hl: int)
    requires
        1 <= hl,
    ensures
        friction_factor_spec(hl, hl) == HALF_SCALE,
{
    vstd::arithmetic::div_mod::lemma_div_multiples_vanish(65536, hl);
    vstd::arithmetic::mul::lemma_mul_is_commutative(hl, 65536);
    assert((hl * 65536) / hl == 65536);
    assert(frac_pow_spec(0) == 65536) by {
        reveal_with_fuel(frac_pow_state, 17);
    }
    assert(pow_half_spec(65536) == 32768) by {
        reveal_with_fuel(halve_n, 2);
    }
}

} // verus!
