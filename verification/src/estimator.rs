//! The smoothed estimator: Holt-style double-exponential smoothing of a noisy
//! sample series, with a hard ceiling and time-based staleness decay.

use vstd::prelude::*;
use vstd::arithmetic::div_mod::*;
use vstd::arithmetic::mul::*;
use crate::fixed::{
    SCALE, clamp_to_i64, saturate_i64, div_scale, spec_decay, decay_factor, lemma_decay_bounds,
    lemma_decay_monotone, lemma_decay_vanishes,
};

verus! {

/// Decay weight applied by every estimator, in time units. The per-unit
/// attenuation constant `UNIT_DECAY` is `exp(-1 / DECAY_WEIGHT)` in fixed
/// point.
pub const DECAY_WEIGHT: u64 = 3;

/// A smoothed, trend-aware, time-decaying estimate of one metric.
///
/// `estimate`, `trend`, `maximum` and the sample values are fixed-point
/// numbers scaled by `SCALE`; `alpha` and `beta` are fixed-point fractions in
/// `[0, SCALE]`; `last_seen` is the caller-supplied monotonic timestamp of
/// the latest update.
#[derive(Clone, Copy, Debug)]
pub struct ExponentialWeightedAverage {
    estimate: i64,
    trend: i64,
    alpha: i64,
    beta: i64,
    decay: u64,
    last_seen: u64,
    maximum: i64,
}

impl ExponentialWeightedAverage {
    pub closed spec fn spec_estimate(self) -> int {
        self.estimate as int
    }

    pub closed spec fn spec_trend(self) -> int {
        self.trend as int
    }

    pub closed spec fn spec_alpha(self) -> int {
        self.alpha as int
    }

    pub closed spec fn spec_beta(self) -> int {
        self.beta as int
    }

    pub closed spec fn spec_decay_weight(self) -> int {
        self.decay as int
    }

    pub closed spec fn spec_last_seen(self) -> int {
        self.last_seen as int
    }

    pub closed spec fn spec_maximum(self) -> int {
        self.maximum as int
    }

    /// Well-formedness: smoothing factors are fractions, the decay weight is
    /// positive, the ceiling is non-negative and the estimate never exceeds it.
    pub open spec fn inv(self) -> bool {
        &&& 0 <= self.spec_alpha() <= SCALE as int
        &&& 0 <= self.spec_beta() <= SCALE as int
        &&& self.spec_decay_weight() == DECAY_WEIGHT as int
        &&& 0 <= self.spec_maximum()
        &&& self.spec_estimate() <= self.spec_maximum()
    }

    /// The smoothed level proposed by a new sample, before the ceiling is
    /// applied: `alpha * value + (1 - alpha) * (estimate + trend)`, saturated
    /// into the representable range.
    pub open spec fn spec_level(self, value: int) -> int {
        clamp_to_i64(
            (self.spec_alpha() * value + (SCALE as int - self.spec_alpha()) * (self.spec_estimate()
                + self.spec_trend())) / (SCALE as int),
        )
    }

    /// The estimate after an update with `value`: the proposed level, clamped
    /// to the ceiling.
    pub open spec fn spec_next_estimate(self, value: int) -> int {
        if self.spec_level(value) <= self.spec_maximum() {
            self.spec_level(value)
        } else {
            self.spec_maximum()
        }
    }

    /// The trend after an update with `value`:
    /// `beta * (new_estimate - estimate) + (1 - beta) * trend`, saturated.
    pub open spec fn spec_next_trend(self, value: int) -> int {
        clamp_to_i64(
            (self.spec_beta() * (self.spec_next_estimate(value) - self.spec_estimate()) + (
            SCALE as int - self.spec_beta()) * self.spec_trend()) / (SCALE as int),
        )
    }

    /// The estimator value that `new` returns: level zero, no trend.
    pub closed spec fn spec_fresh(alpha: i64, beta: i64, maximum: i64, now: u64) -> Self {
        ExponentialWeightedAverage {
            estimate: 0,
            trend: 0,
            alpha,
            beta,
            decay: DECAY_WEIGHT,
            last_seen: now,
            maximum,
        }
    }

    /// The estimator value that `update` leaves behind.
    pub closed spec fn spec_updated(self, value: i64, now: u64) -> Self {
        ExponentialWeightedAverage {
            estimate: self.spec_next_estimate(value as int) as i64,
            trend: self.spec_next_trend(value as int) as i64,
            last_seen: now,
            ..self
        }
    }

    /// Creates an estimator at level zero with no trend.
    pub fn new(alpha: i64, beta: i64, maximum: i64, now: u64) -> (r: Self)
        requires
            0 <= alpha <= SCALE,
            0 <= beta <= SCALE,
            0 <= maximum,
        ensures
            r == Self::spec_fresh(alpha, beta, maximum, now),
            r.inv(),
            r.spec_estimate() == 0,
            r.spec_trend() == 0,
            r.spec_alpha() == alpha as int,
            r.spec_beta() == beta as int,
            r.spec_decay_weight() == DECAY_WEIGHT as int,
            r.spec_last_seen() == now as int,
            r.spec_maximum() == maximum as int,
    {
        ExponentialWeightedAverage {
            estimate: 0,
            trend: 0,
            alpha,
            beta,
            decay: DECAY_WEIGHT,
            last_seen: now,
            maximum,
        }
    }

    /// Folds a new raw sample into the estimate and trend, and remembers
    /// `now` as the time of the observation. Any sample value is accepted;
    /// the result is clamped to the ceiling from above and saturates at the
    /// range ends.
    pub fn update(&mut self, value: i64, now: u64)
        requires
            old(self).inv(),
        ensures
            *final(self) == old(self).spec_updated(value, now),
            final(self).inv(),
            final(self).spec_estimate() == old(self).spec_next_estimate(value as int),
            final(self).spec_trend() == old(self).spec_next_trend(value as int),
            final(self).spec_last_seen() == now as int,
            final(self).spec_alpha() == old(self).spec_alpha(),
            final(self).spec_beta() == old(self).spec_beta(),
            final(self).spec_decay_weight() == old(self).spec_decay_weight(),
            final(self).spec_maximum() == old(self).spec_maximum(),
    {
        let prev: i64 = self.estimate;
        proof {
            let a = self.alpha as int;
            let v = value as int;
            let et = self.estimate as int + self.trend as int;
            assert(-(0x4000_0000_0000_0000_0000_0000i128 as int) <= a * v
                <= 0x4000_0000_0000_0000_0000_0000i128 as int) by (nonlinear_arith)
                requires
                    0 <= a <= 1_000_000,
                    -(0x8000_0000_0000_0000i128 as int) <= v <= 0x8000_0000_0000_0000i128 as int,
            ;
            assert(-(0x4000_0000_0000_0000_0000_0000i128 as int) <= (1_000_000 - a) * et
                <= 0x4000_0000_0000_0000_0000_0000i128 as int) by (nonlinear_arith)
                requires
                    0 <= 1_000_000 - a <= 1_000_000,
                    -(0x1_0000_0000_0000_0000i128 as int) <= et <= 0x1_0000_0000_0000_0000i128
                        as int,
            ;
        }
        let level_num: i128 = (self.alpha as i128) * (value as i128) + ((SCALE - self.alpha)
            as i128) * ((prev as i128) + (self.trend as i128));
        let level: i64 = saturate_i64(div_scale(level_num));
        self.estimate = if level <= self.maximum {
            level
        } else {
            self.maximum
        };
        proof {
            let b = self.beta as int;
            let de = self.estimate as int - prev as int;
            let t = self.trend as int;
            assert(-(0x4000_0000_0000_0000_0000_0000i128 as int) <= b * de
                <= 0x4000_0000_0000_0000_0000_0000i128 as int) by (nonlinear_arith)
                requires
                    0 <= b <= 1_000_000,
                    -(0x1_0000_0000_0000_0000i128 as int) <= de <= 0x1_0000_0000_0000_0000i128
                        as int,
            ;
            assert(-(0x4000_0000_0000_0000_0000_0000i128 as int) <= (1_000_000 - b) * t
                <= 0x4000_0000_0000_0000_0000_0000i128 as int) by (nonlinear_arith)
                requires
                    0 <= 1_000_000 - b <= 1_000_000,
                    -(0x8000_0000_0000_0000i128 as int) <= t <= 0x8000_0000_0000_0000i128 as int,
            ;
        }
        let trend_num: i128 = (self.beta as i128) * ((self.estimate as i128) - (prev as i128)) + ((
        SCALE - self.beta) as i128) * (self.trend as i128);
        self.trend = saturate_i64(div_scale(trend_num));
        self.last_seen = now;
    }

    /// The undecayed smoothed level, as last computed by `update`.
    pub fn raw_estimate(&self) -> (r: i64)
        ensures
            r as int == self.spec_estimate(),
    {
        self.estimate
    }

    /// The current trend term.
    pub fn raw_trend(&self) -> (r: i64)
        ensures
            r as int == self.spec_trend(),
    {
        self.trend
    }

    /// The elapsed time used for decay: the time since the last observation,
    /// floored at one time unit so that even a fresh estimate carries a
    /// minimum staleness penalty.
    pub open spec fn spec_elapsed(self, now: int) -> int {
        let raw = if now >= self.spec_last_seen() {
            now - self.spec_last_seen()
        } else {
            0
        };
        if raw >= 1 {
            raw
        } else {
            1
        }
    }

    /// The decayed estimate read at time `now`:
    /// `estimate * decay(elapsed) / SCALE`.
    pub open spec fn spec_get_estimate(self, now: int) -> int {
        (self.spec_estimate() * spec_decay(self.spec_elapsed(now))) / (SCALE as int)
    }

    /// Reads the current decayed estimate. Read-only: the observation
    /// timestamp is not touched.
    pub fn get_estimate(&self, now: u64) -> (r: i64)
        requires
            self.inv(),
        ensures
            r as int == self.spec_get_estimate(now as int),
    {
        let raw: u64 = if now >= self.last_seen {
            now - self.last_seen
        } else {
            0
        };
        let elapsed: u64 = if raw >= 1 {
            raw
        } else {
            1
        };
        let d: i64 = decay_factor(elapsed);
        proof {
            let e = self.estimate as int;
            let di = d as int;
            let s = SCALE as int;
            assert(-(0x4000_0000_0000_0000_0000_0000i128 as int) <= e * di
                <= 0x4000_0000_0000_0000_0000_0000i128 as int) by (nonlinear_arith)
                requires
                    0 <= di <= 1_000_000,
                    -(0x8000_0000_0000_0000i128 as int) <= e <= 0x8000_0000_0000_0000i128 as int,
            ;
            if e >= 0 {
                assert(0 <= e * di <= e * s) by (nonlinear_arith)
                    requires
                        0 <= e,
                        0 <= di <= s,
                ;
                lemma_div_is_ordered(0, e * di, s);
                lemma_div_is_ordered(e * di, e * s, s);
                lemma_mul_is_commutative(e, s);
                lemma_div_multiples_vanish(e, s);
            } else {
                assert(e * s <= e * di <= 0) by (nonlinear_arith)
                    requires
                        e < 0,
                        0 <= di <= s,
                ;
                lemma_div_is_ordered(e * s, e * di, s);
                lemma_div_is_ordered(e * di, 0, s);
                lemma_mul_is_commutative(e, s);
                lemma_div_multiples_vanish(e, s);
            }
        }
        let prod: i128 = (self.estimate as i128) * (d as i128);
        let q: i128 = div_scale(prod);
        q as i64
    }
}

/// Exposes the components of the value `new` returns: a fresh estimator
/// starts at level zero with no trend, keeps the given smoothing factors and
/// ceiling, carries the standard decay weight, and is stamped with its
/// creation time.
pub proof fn lemma_fresh_components(alpha: i64, beta: i64, maximum: i64, now: u64)
    ensures
        ({
            let e = ExponentialWeightedAverage::spec_fresh(alpha, beta, maximum, now);
            &&& e.spec_estimate() == 0
            &&& e.spec_trend() == 0
            &&& e.spec_alpha() == alpha as int
            &&& e.spec_beta() == beta as int
            &&& e.spec_decay_weight() == DECAY_WEIGHT as int
            &&& e.spec_last_seen() == now as int
            &&& e.spec_maximum() == maximum as int
        }),
{
}

/// Exposes the components of the value `update` leaves behind: the estimate
/// and trend follow the smoothing formulas, the smoothing factors, decay
/// weight and ceiling are untouched, and the observation time becomes `now`.
pub proof fn lemma_updated_components(e: ExponentialWeightedAverage, value: i64, now: u64)
    ensures
        ({
            let u = e.spec_updated(value, now);
            &&& u.spec_estimate() == e.spec_next_estimate(value as int)
            &&& u.spec_trend() == e.spec_next_trend(value as int)
            &&& u.spec_alpha() == e.spec_alpha()
            &&& u.spec_beta() == e.spec_beta()
            &&& u.spec_decay_weight() == e.spec_decay_weight()
            &&& u.spec_last_seen() == now as int
            &&& u.spec_maximum() == e.spec_maximum()
        }),
{
}

/// An estimator fades to exactly zero once `SCALE` time units have passed
/// without an observation.
pub proof fn lemma_reads_vanish(e: ExponentialWeightedAverage, now: int)
    requires
        e.inv(),
        e.spec_last_seen() + (SCALE as int) <= now,
    ensures
        e.spec_get_estimate(now) == 0,
{
    let el = e.spec_elapsed(now);
    assert((SCALE as int) <= el);
    lemma_decay_vanishes(el);
    lemma_div_of0(SCALE as int);
}

/// However large the samples were, a read of a well-formed estimator never
/// exceeds the ceiling attenuated by the minimum one-unit decay.
pub proof fn lemma_estimate_clamped(e: ExponentialWeightedAverage, now: int)
    requires
        e.inv(),
    ensures
        e.spec_get_estimate(now) <= (e.spec_maximum() * spec_decay(1)) / (SCALE as int),
{
    let s = SCALE as int;
    let el = e.spec_elapsed(now);
    lemma_decay_monotone(1, el);
    lemma_decay_bounds(el);
    lemma_decay_bounds(1);
    let d = spec_decay(el);
    let d1 = spec_decay(1);
    lemma_mul_inequality(e.spec_estimate(), e.spec_maximum(), d);
    lemma_mul_inequality(d, d1, e.spec_maximum());
    lemma_mul_is_commutative(e.spec_estimate(), d);
    lemma_mul_is_commutative(e.spec_maximum(), d);
    lemma_mul_is_commutative(e.spec_maximum(), d1);
    lemma_div_is_ordered(e.spec_estimate() * d, e.spec_maximum() * d, s);
    lemma_div_is_ordered(e.spec_maximum() * d, e.spec_maximum() * d1, s);
}

/// For a fixed estimator state with a non-negative estimate, reads at two
/// times `t1 <= t2` with no intervening update never grow: the estimate only
/// fades as it goes stale.
pub proof fn lemma_reads_nonincreasing(e: ExponentialWeightedAverage, t1: int, t2: int)
    requires
        e.inv(),
        0 <= e.spec_estimate(),
        t1 <= t2,
    ensures
        e.spec_get_estimate(t2) <= e.spec_get_estimate(t1),
{
    let s = SCALE as int;
    let el1 = e.spec_elapsed(t1);
    let el2 = e.spec_elapsed(t2);
    assert(1 <= el1 <= el2);
    lemma_decay_monotone(el1, el2);
    lemma_decay_bounds(el1);
    lemma_decay_bounds(el2);
    lemma_mul_inequality(spec_decay(el2), spec_decay(el1), e.spec_estimate());
    lemma_mul_is_commutative(spec_decay(el2), e.spec_estimate());
    lemma_mul_is_commutative(spec_decay(el1), e.spec_estimate());
    lemma_div_is_ordered(
        e.spec_estimate() * spec_decay(el2),
        e.spec_estimate() * spec_decay(el1),
        s,
    );
}

/// A sample at or above the current estimate, arriving while the trend is
/// non-negative, keeps the trend non-negative and never lowers the estimate.
/// In particular a rising sample series that stays ahead of the estimate
/// keeps the trend at or above zero.
pub proof fn lemma_trend_nonnegative(e: ExponentialWeightedAverage, value: i64)
    requires
        e.inv(),
        0 <= e.spec_trend(),
        e.spec_estimate() <= value as int,
    ensures
        0 <= e.spec_next_trend(value as int),
        e.spec_estimate() <= e.spec_next_estimate(value as int),
{
    let s = SCALE as int;
    let a = e.spec_alpha();
    let b = e.spec_beta();
    let est = e.spec_estimate();
    let t = e.spec_trend();
    let v = value as int;
    let level_num = a * v + (s - a) * (est + t);
    lemma_mul_inequality(est, v, a);
    lemma_mul_is_commutative(est, a);
    lemma_mul_is_commutative(v, a);
    lemma_mul_inequality(est, est + t, s - a);
    lemma_mul_is_commutative(est, s - a);
    lemma_mul_is_commutative(est + t, s - a);
    assert(a * est + (s - a) * est == s * est) by (nonlinear_arith);
    assert(level_num >= s * est);
    lemma_div_multiples_vanish(est, s);
    lemma_div_is_ordered(s * est, level_num, s);
    assert(level_num / s >= est);
    assert(e.spec_level(v) >= est);
    assert(e.spec_next_estimate(v) >= est);
    let next = e.spec_next_estimate(v);
    let trend_num = b * (next - est) + (s - b) * t;
    lemma_mul_nonnegative(b, next - est);
    lemma_mul_nonnegative(s - b, t);
    lemma_div_is_ordered(0, trend_num, s);
    assert(trend_num / s >= 0);
}

} // verus!
