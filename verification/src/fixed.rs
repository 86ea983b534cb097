//! Fixed-point arithmetic primitives and the staleness decay curve.
//!
//! A real quantity `x` is represented by the integer `x * SCALE`, rounded
//! toward negative infinity. The decay curve models `exp(-elapsed / 3)` for a
//! whole number of elapsed time units: each unit multiplies the factor by the
//! fixed-point constant `exp(-1/3) * SCALE`, so the curve agrees with the
//! exponential at every whole unit up to fixed-point rounding (the iterated
//! floor only ever rounds down, never above the true exponential).

use vstd::prelude::*;
use vstd::arithmetic::div_mod::*;
use vstd::arithmetic::mul::*;

verus! {

/// Fixed-point scale: one stored unit represents 1 / 1_000_000.
pub const SCALE: i64 = 1_000_000;

/// `exp(-1/3) * SCALE`, rounded down: the attenuation per elapsed time unit,
/// for the standard decay weight of three time units.
pub const UNIT_DECAY: i64 = 716_531;

/// Saturation of an unbounded integer into the `i64` range.
pub open spec fn clamp_to_i64(x: int) -> int {
    if x > i64::MAX as int {
        i64::MAX as int
    } else if x < i64::MIN as int {
        i64::MIN as int
    } else {
        x
    }
}

/// Narrows a 128-bit intermediate result to 64 bits, saturating at the range
/// ends instead of wrapping.
pub fn saturate_i64(x: i128) -> (r: i64)
    ensures
        r as int == clamp_to_i64(x as int),
{
    if x > i64::MAX as i128 {
        i64::MAX
    } else if x < i64::MIN as i128 {
        i64::MIN
    } else {
        x as i64
    }
}

/// Floor division of a 128-bit intermediate by `SCALE`.
pub fn div_scale(num: i128) -> (r: i128)
    requires
        i128::MIN < num,
    ensures
        r as int == num as int / SCALE as int,
{
    if num >= 0 {
        let q: u128 = (num as u128) / (SCALE as u128);
        q as i128
    } else {
        let m: u128 = (-num) as u128;
        let q: u128 = (m + (SCALE as u128) - 1) / (SCALE as u128);
        proof {
            let mi = m as int;
            let s = SCALE as int;
            let qi = (mi + s - 1) / s;
            lemma_fundamental_div_mod(mi + s - 1, s);
            lemma_mod_bound(mi + s - 1, s);
            let r0 = (mi + s - 1) % s;
            assert(s * qi == mi + s - 1 - r0);
            let rr = s * qi - mi;
            assert(0 <= rr < s);
            assert(-mi == (-qi) * s + rr) by {
                lemma_mul_is_commutative(s, qi);
                lemma_mul_unary_negation(qi, s);
            }
            lemma_fundamental_div_mod_converse_div(-mi, s, -qi, rr);
            assert(num as int / s == -qi);
        }
        -(q as i128)
    }
}

/// The decay factor left after `q` elapsed time units: the fixed-point power
/// `(UNIT_DECAY / SCALE)^q`, i.e. `exp(-q / 3)` up to fixed-point rounding.
pub open spec fn spec_pow_decay(q: nat) -> int
    decreases q,
{
    if q == 0 {
        SCALE as int
    } else {
        (spec_pow_decay((q - 1) as nat) * (UNIT_DECAY as int)) / (SCALE as int)
    }
}

pub proof fn lemma_pow_decay_bounds(q: nat)
    ensures
        0 <= spec_pow_decay(q) <= SCALE as int,
    decreases q,
{
    if q > 0 {
        lemma_pow_decay_bounds((q - 1) as nat);
        let p = spec_pow_decay((q - 1) as nat);
        let s = SCALE as int;
        assert(0 <= p * (UNIT_DECAY as int) <= s * s) by (nonlinear_arith)
            requires
                0 <= p <= s,
                s == 1_000_000,
        ;
        lemma_div_is_ordered(0, p * (UNIT_DECAY as int), s);
        lemma_div_is_ordered(p * (UNIT_DECAY as int), s * s, s);
        lemma_div_multiples_vanish(s, s);
    }
}

/// One more elapsed time unit never increases the remaining decay.
pub proof fn lemma_pow_decay_step(q: nat)
    ensures
        spec_pow_decay(q + 1) <= spec_pow_decay(q),
{
    lemma_pow_decay_bounds(q);
    let p = spec_pow_decay(q);
    let s = SCALE as int;
    assert(p * (UNIT_DECAY as int) <= p * s) by (nonlinear_arith)
        requires
            0 <= p,
            (UNIT_DECAY as int) <= s,
    ;
    lemma_div_is_ordered(p * (UNIT_DECAY as int), p * s, s);
    lemma_mul_is_commutative(p, s);
    lemma_div_multiples_vanish(p, s);
}

pub proof fn lemma_pow_decay_monotone(q1: nat, q2: nat)
    requires
        q1 <= q2,
    ensures
        spec_pow_decay(q2) <= spec_pow_decay(q1),
    decreases q2 - q1,
{
    if q1 < q2 {
        lemma_pow_decay_monotone(q1, (q2 - 1) as nat);
        lemma_pow_decay_step((q2 - 1) as nat);
    }
}

/// Once the remaining decay hits zero it stays zero.
pub proof fn lemma_pow_decay_zero(q1: nat, q2: nat)
    requires
        q1 <= q2,
        spec_pow_decay(q1) == 0,
    ensures
        spec_pow_decay(q2) == 0,
{
    lemma_pow_decay_monotone(q1, q2);
    lemma_pow_decay_bounds(q2);
}

/// While positive, the power loses at least one fixed-point unit per elapsed
/// unit, so it is zero from `SCALE` elapsed units on at the latest.
proof fn lemma_pow_decay_drops(q: nat)
    ensures
        spec_pow_decay(q) == 0 || spec_pow_decay(q) <= SCALE as int - q,
    decreases q,
{
    let s = SCALE as int;
    if q > 0 {
        lemma_pow_decay_drops((q - 1) as nat);
        lemma_pow_decay_bounds((q - 1) as nat);
        let p = spec_pow_decay((q - 1) as nat);
        if p == 0 {
            assert(spec_pow_decay(q) == 0 * (UNIT_DECAY as int) / s);
            lemma_div_of0(s);
        } else {
            assert(1 <= p <= s);
            lemma_mul_inequality(UNIT_DECAY as int, s - 1, p);
            lemma_mul_is_commutative(UNIT_DECAY as int, p);
            lemma_mul_is_commutative(s - 1, p);
            assert(p * (s - 1) == s * (p - 1) + (s - p)) by (nonlinear_arith);
            lemma_fundamental_div_mod_converse_div(p * (s - 1), s, p - 1, s - p);
            assert(p * (s - 1) / s == p - 1) by {
                lemma_mul_is_commutative(p - 1, s);
            }
            lemma_div_is_ordered(p * (UNIT_DECAY as int), p * (s - 1), s);
        }
    }
}

/// Computes `spec_pow_decay(q)`.
pub fn pow_decay(q: u64) -> (r: u64)
    ensures
        r as int == spec_pow_decay(q as nat),
        r <= SCALE as u64,
{
    let mut p: u64 = SCALE as u64;
    let mut i: u64 = 0;
    while i < q
        invariant
            i <= q,
            p as int == spec_pow_decay(i as nat),
            p <= SCALE as u64,
        decreases q - i,
    {
        if p == 0 {
            proof {
                lemma_pow_decay_zero(i as nat, q as nat);
            }
            return 0;
        }
        assert(p * (UNIT_DECAY as u64) <= 1_000_000_000_000) by (nonlinear_arith)
            requires
                p <= 1_000_000,
        ;
        let next: u64 = p * (UNIT_DECAY as u64) / (SCALE as u64);
        proof {
            lemma_pow_decay_bounds((i + 1) as nat);
        }
        p = next;
        i = i + 1;
    }
    p
}

/// Decay remaining after `elapsed` whole time units: `exp(-elapsed / 3)` in
/// fixed point, up to rounding. At zero elapsed time nothing has decayed.
pub open spec fn spec_decay(elapsed: int) -> int {
    if elapsed >= 0 {
        spec_pow_decay(elapsed as nat)
    } else {
        SCALE as int
    }
}

pub proof fn lemma_decay_bounds(elapsed: int)
    ensures
        0 <= spec_decay(elapsed) <= SCALE as int,
{
    if elapsed >= 0 {
        lemma_pow_decay_bounds(elapsed as nat);
    }
}

/// More elapsed time never leaves more decayed weight behind: the decay
/// curve is monotonically non-increasing in the elapsed time.
pub proof fn lemma_decay_monotone(e1: int, e2: int)
    requires
        e1 <= e2,
    ensures
        spec_decay(e2) <= spec_decay(e1),
{
    lemma_decay_bounds(e2);
    if 0 <= e1 {
        lemma_pow_decay_monotone(e1 as nat, e2 as nat);
    }
}

/// After `SCALE` elapsed time units nothing at all is left: the factor is
/// exactly zero, so estimates fade to zero as time grows without bound.
pub proof fn lemma_decay_vanishes(elapsed: int)
    requires
        SCALE as int <= elapsed,
    ensures
        spec_decay(elapsed) == 0,
{
    lemma_pow_decay_drops(elapsed as nat);
    lemma_pow_decay_bounds(elapsed as nat);
}

/// Computes `spec_decay(elapsed)`.
pub fn decay_factor(elapsed: u64) -> (r: i64)
    ensures
        r as int == spec_decay(elapsed as int),
        0 <= r <= SCALE,
{
    let p: u64 = pow_decay(elapsed);
    p as i64
}

} // verus!
