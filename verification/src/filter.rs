//! The local-linear-trend model: its Kalman recursion and the likelihood
//! objective built on it.

use vstd::prelude::*;
use crate::arith::{
    Arithmetic, answers_difference, answers_exponential, answers_fused, answers_natural_log,
    answers_product, answers_quotient, answers_sum,
};
use crate::ieee::Double;
use crate::stats::{are_first_differences, copy_of, first_differences, is_stddev, stddev};
use crate::weights::{clamp_weight, max_weight, min_weight};

verus! {

/// `1e-6`: the floor of every noise deviation.
pub const MIN_SIGMA_BITS: u64 = 0x3EB0_C6F7_A0B5_ED8D;

/// `1e30`: the cost an objective answers with where it cannot be evaluated.
pub const LARGE_COST_BITS: u64 = 0x4629_3E59_39A0_8CEA;

/// `0.5`.
pub const HALF_BITS: u64 = 0x3FE0_0000_0000_0000;

/// `2.0`.
pub const TWO_BITS: u64 = 0x4000_0000_0000_0000;

/// Twice pi.
pub const TWO_PI_BITS: u64 = 0x4019_21FB_5444_2D18;

/// `1e4`: the variance the level starts with.
pub const INITIAL_LEVEL_VARIANCE_BITS: u64 = 0x40C3_8800_0000_0000;

/// `1e2`: the variance the slope starts with.
pub const INITIAL_SLOPE_VARIANCE_BITS: u64 = 0x4059_0000_0000_0000;

/// `1e-4`: the relative step of the finite differences.
pub const GRADIENT_STEP_BITS: u64 = 0x3F1A_36E2_EB1C_432D;

/// `1e-3`: the least first-difference deviation the initial guess is derived from.
pub const MIN_INITIAL_DEVIATION_BITS: u64 = 0x3F50_624D_D2F1_A9FC;

/// `0.1`.
pub const TENTH_BITS: u64 = 0x3FB9_9999_9999_999A;

/// The floor of a noise deviation, `1e-6`.
pub open spec fn min_sigma() -> Double {
    Double { bits: MIN_SIGMA_BITS }
}

/// The sentinel cost, `1e30`.
pub open spec fn large_cost() -> Double {
    Double { bits: LARGE_COST_BITS }
}

/// The three noise deviations of the model.
#[derive(Clone, Copy, Debug)]
pub struct Sigmas {
    pub level: Double,
    pub trend: Double,
    pub obs: Double,
}

impl Sigmas {
    /// Each deviation is a number at or above the floor, hence above zero.
    pub open spec fn floored(self) -> bool {
        &&& min_sigma().le_spec(self.level) && self.level.positive()
        &&& min_sigma().le_spec(self.trend) && self.trend.positive()
        &&& min_sigma().le_spec(self.obs) && self.obs.positive()
    }

    /// All three are finite.
    pub open spec fn all_finite(self) -> bool {
        self.level.finite() && self.trend.finite() && self.obs.finite()
    }

    /// The three deviations, each at the floor.
    pub open spec fn at_floor() -> Sigmas {
        Sigmas { level: min_sigma(), trend: min_sigma(), obs: min_sigma() }
    }

    /// Each deviation raised to the floor where it lies under it or is NaN.
    pub open spec fn raised(self) -> Sigmas {
        Sigmas {
            level: self.level.max_spec(min_sigma()),
            trend: self.trend.max_spec(min_sigma()),
            obs: self.obs.max_spec(min_sigma()),
        }
    }

    /// Raises each deviation to the floor.
    pub fn raise(self) -> (s: Sigmas)
        ensures
            s == self.raised(),
            s.floored(),
    {
        let floor = Double::from_bits(MIN_SIGMA_BITS);
        Sigmas {
            level: self.level.max(floor),
            trend: self.trend.max(floor),
            obs: self.obs.max(floor),
        }
    }

    /// Decides whether all three are finite.
    pub fn are_finite(&self) -> (b: bool)
        ensures
            b == self.all_finite(),
    {
        self.level.is_finite() && self.trend.is_finite() && self.obs.is_finite()
    }
}

/// `s` holds the deviations that the parameter vector `param` stands for:
/// the arithmetic's answer for the exponential of each of its first three
/// entries, raised to the floor; the floor three times for a vector with
/// fewer entries.
pub open spec fn is_unpacked<A: Arithmetic>(ar: &A, param: Seq<Double>, s: Sigmas) -> bool {
    if param.len() < 3 {
        s == Sigmas::at_floor()
    } else {
        exists|level: Double, trend: Double, obs: Double|
            answers_exponential(ar, param[0], level) && answers_exponential(ar, param[1], trend)
                && answers_exponential(ar, param[2], obs) && s == (Sigmas {
                level,
                trend,
                obs,
            }).raised()
    }
}

/// The deviations a parameter vector stands for: the exponential of each of
/// its first three entries, raised to the floor. A vector with fewer entries
/// stands for the floor three times. Whatever the arithmetic answers, each
/// deviation is a number above zero.
pub fn unpack_params<A: Arithmetic>(ar: &A, param: &Vec<Double>) -> (s: Sigmas)
    ensures
        is_unpacked(ar, param@, s),
        s.floored(),
        param.len() < 3 ==> s == Sigmas::at_floor(),
{
    if param.len() < 3 {
        let floor = Double::from_bits(MIN_SIGMA_BITS);
        return Sigmas { level: floor, trend: floor, obs: floor };
    }
    let level = ar.exponential(param[0]);
    let trend = ar.exponential(param[1]);
    let obs = ar.exponential(param[2]);
    let raw = Sigmas { level, trend, obs };
    assert(answers_exponential(ar, param[0], level) && answers_exponential(ar, param[1], trend)
        && answers_exponential(ar, param[2], obs) && raw.raised() == (Sigmas {
        level,
        trend,
        obs,
    }).raised());
    raw.raise()
}

/// The hidden state: where the series stands and how fast it moves.
#[derive(Clone, Copy, Debug)]
pub struct TrendState {
    pub level: Double,
    pub slope: Double,
}

/// The covariance of the state, entry by entry.
#[derive(Clone, Copy, Debug)]
pub struct Covariance {
    pub level_var: Double,
    pub level_slope: Double,
    pub slope_level: Double,
    pub slope_var: Double,
}

impl Covariance {
    /// The two off-diagonal entries are the same number.
    pub open spec fn symmetric(self) -> bool {
        self.level_slope == self.slope_level
    }
}

/// What a filter pass leaves behind.
#[derive(Clone, Copy, Debug)]
pub struct FilterResult {
    pub nll: Double,
    pub state: TrendState,
    pub cov: Covariance,
}

/// Whether a filter step can go on with this innovation variance: it must
/// be a finite number above zero.
pub open spec fn innovation_usable(s: Double) -> bool {
    s.finite() && s.positive()
}

/// Decides whether a filter step can go on.
pub fn is_innovation_usable(s: Double) -> (b: bool)
    ensures
        b == innovation_usable(s),
{
    s.is_finite() && s.is_positive()
}

/// The cost reported to the optimiser for an accumulated one.
pub open spec fn guarded(cost: Double) -> Double {
    if cost.finite() {
        cost
    } else {
        large_cost()
    }
}

/// Replaces a cost that is not finite by the sentinel.
pub fn guard_cost(cost: Double) -> (r: Double)
    ensures
        r == guarded(cost),
        r.finite(),
{
    if cost.is_finite() {
        cost
    } else {
        Double::from_bits(LARGE_COST_BITS)
    }
}

/// The number `2.0`.
pub open spec fn two() -> Double {
    Double { bits: TWO_BITS }
}

/// `level_var` is the variance of the level after a prediction step: the
/// arithmetic's answer for `2 * level_slope + level_var`, plus the variance
/// of the slope, plus the noise of the level.
pub open spec fn is_predicted_level_variance<A: Arithmetic>(
    ar: &A,
    cov: Covariance,
    q_level: Double,
    level_var: Double,
) -> bool {
    exists|twice: Double, both: Double|
        answers_fused(ar, two(), cov.level_slope, cov.level_var, twice) && answers_sum(
            ar,
            twice,
            cov.slope_var,
            both,
        ) && answers_sum(ar, both, q_level, level_var)
}

/// `next` is one prediction step on from `state` and `cov`: the level moves
/// on by the slope, the slope stays, and the covariance grows by the
/// process noise.
pub open spec fn is_prediction<A: Arithmetic>(
    ar: &A,
    state: TrendState,
    cov: Covariance,
    q_level: Double,
    q_trend: Double,
    next: (TrendState, Covariance),
) -> bool {
    &&& answers_sum(ar, state.level, state.slope, next.0.level)
    &&& next.0.slope == state.slope
    &&& is_predicted_level_variance(ar, cov, q_level, next.1.level_var)
    &&& answers_sum(ar, cov.level_slope, cov.slope_var, next.1.level_slope)
    &&& next.1.slope_level == next.1.level_slope
    &&& answers_sum(ar, cov.slope_var, q_trend, next.1.slope_var)
}

/// One prediction step: the level moves on by the slope, and the
/// covariance grows by the process noise.
pub fn predict_state<A: Arithmetic>(
    ar: &A,
    state: TrendState,
    cov: Covariance,
    q_level: Double,
    q_trend: Double,
) -> (next: (TrendState, Covariance))
    ensures
        is_prediction(ar, state, cov, q_level, q_trend, next),
        next.0.slope == state.slope,
        next.1.symmetric(),
{
    let level = ar.sum(state.level, state.slope);
    let twice = ar.fused(Double::from_bits(TWO_BITS), cov.level_slope, cov.level_var);
    let both = ar.sum(twice, cov.slope_var);
    let level_var = ar.sum(both, q_level);
    assert(answers_fused(ar, two(), cov.level_slope, cov.level_var, twice) && answers_sum(
        ar,
        twice,
        cov.slope_var,
        both,
    ) && answers_sum(ar, both, q_level, level_var));
    let level_slope = ar.sum(cov.level_slope, cov.slope_var);
    let slope_var = ar.sum(cov.slope_var, q_trend);
    (
        TrendState { level, slope: state.slope },
        Covariance { level_var, level_slope, slope_level: level_slope, slope_var },
    )
}

/// The weight of observation `idx`: the one given for it, or one, held to the band.
pub fn step_weight(weights: Option<&Vec<Double>>, idx: usize) -> (w: Double)
    ensures
        w == (match weights {
            Some(ws) => if idx < ws.len() {
                ws[idx as int]
            } else {
                Double::one_spec()
            },
            None => Double::one_spec(),
        }).clamp_spec(crate::weights::min_weight(), crate::weights::max_weight()),
{
    let raw = match weights {
        Some(ws) => if idx < ws.len() {
            ws[idx]
        } else {
            Double::one()
        },
        None => Double::one(),
    };
    clamp_weight(raw)
}

/// The weight of observation `idx` among `weights`: the one given for it,
/// or one, held to the band.
pub open spec fn step_weight_of(weights: Option<Seq<Double>>, idx: int) -> Double {
    (match weights {
        Some(ws) => if 0 <= idx < ws.len() {
            ws[idx]
        } else {
            Double::one_spec()
        },
        None => Double::one_spec(),
    }).clamp_spec(min_weight(), max_weight())
}

/// The weights of a pass as a sequence, where there are any.
pub open spec fn weights_view(weights: Option<&Vec<Double>>) -> Option<Seq<Double>> {
    match weights {
        Some(ws) => Some(ws@),
        None => None,
    }
}

/// A noise variance scaled by the square of a weight.
pub(crate) fn scaled_noise<A: Arithmetic>(ar: &A, q: Double, weight: Double) -> (r: Double)
    ensures
        is_scaled_noise(ar, q, weight, r),
{
    let once = ar.product(q, weight);
    let r = ar.product(once, weight);
    assert(answers_product(ar, q, weight, once) && answers_product(ar, once, weight, r));
    r
}

/// `r` is the noise variance `q` scaled by the square of `weight`: the
/// arithmetic's answer for `q * weight`, multiplied by `weight` once more.
pub open spec fn is_scaled_noise<A: Arithmetic>(
    ar: &A,
    q: Double,
    weight: Double,
    r: Double,
) -> bool {
    exists|once: Double| #[trigger]
        answers_product(ar, q, weight, once) && answers_product(ar, once, weight, r)
}

/// The three noise variances of a pass.
#[derive(Clone, Copy, Debug)]
pub struct Noise {
    pub level: Double,
    pub trend: Double,
    pub obs: Double,
}

/// How far a pass has come: its state, covariance and accumulated
/// likelihood, and whether it has ended on an unusable innovation variance.
pub struct Pass {
    pub stopped: bool,
    pub nll: Double,
    pub state: TrendState,
    pub cov: Covariance,
}

/// What a step predicts and finds: the predicted state and covariance, the
/// innovation, and the innovation variance.
#[derive(Clone, Copy, Debug)]
pub struct Innovation {
    pub state: TrendState,
    pub cov: Covariance,
    pub innovation: Double,
    pub variance: Double,
}

/// The number `0.5`.
pub open spec fn half() -> Double {
    Double { bits: HALF_BITS }
}

/// Twice pi.
pub open spec fn two_pi() -> Double {
    Double { bits: TWO_PI_BITS }
}

/// The covariance a pass starts with: `1e4` for the level, `1e2` for the slope.
pub open spec fn initial_covariance() -> Covariance {
    Covariance {
        level_var: Double { bits: INITIAL_LEVEL_VARIANCE_BITS },
        level_slope: Double::zero_spec(),
        slope_level: Double::zero_spec(),
        slope_var: Double { bits: INITIAL_SLOPE_VARIANCE_BITS },
    }
}

/// What a pass over no observations answers: the sentinel cost, and zeros.
pub open spec fn empty_pass() -> FilterResult {
    FilterResult {
        nll: large_cost(),
        state: TrendState { level: Double::zero_spec(), slope: Double::zero_spec() },
        cov: Covariance {
            level_var: Double::zero_spec(),
            level_slope: Double::zero_spec(),
            slope_level: Double::zero_spec(),
            slope_var: Double::zero_spec(),
        },
    }
}

/// `q` holds the variances of the deviations `s`: each the arithmetic's
/// answer for the deviation times itself.
pub open spec fn is_noise<A: Arithmetic>(ar: &A, s: Sigmas, q: Noise) -> bool {
    &&& answers_product(ar, s.level, s.level, q.level)
    &&& answers_product(ar, s.trend, s.trend, q.trend)
    &&& answers_product(ar, s.obs, s.obs, q.obs)
}

/// `found` is what a step predicts and finds for the observation `obs`
/// under `weight`: the prediction with the process noises scaled by the
/// weight, the innovation `obs - level`, and the innovation variance, the
/// predicted variance of the level plus the scaled observation noise.
pub open spec fn is_innovation<A: Arithmetic>(
    ar: &A,
    state: TrendState,
    cov: Covariance,
    obs: Double,
    weight: Double,
    q: Noise,
    found: Innovation,
) -> bool {
    exists|q_level: Double, q_trend: Double, r: Double|
        is_scaled_noise(ar, q.level, weight, q_level) && is_scaled_noise(
            ar,
            q.trend,
            weight,
            q_trend,
        ) && is_scaled_noise(ar, q.obs, weight, r) && is_prediction(
            ar,
            state,
            cov,
            q_level,
            q_trend,
            (found.state, found.cov),
        ) && answers_difference(ar, obs, found.state.level, found.innovation) && answers_sum(
            ar,
            found.cov.level_var,
            r,
            found.variance,
        )
}

/// `state` is the predicted state corrected by the innovation: each entry
/// moved by its gain times the innovation, the gains being the covariance
/// column over the innovation variance.
pub open spec fn is_corrected_state<A: Arithmetic>(
    ar: &A,
    found: Innovation,
    k0: Double,
    k1: Double,
    state: TrendState,
) -> bool {
    exists|by_level: Double, by_slope: Double|
        answers_product(ar, k0, found.innovation, by_level) && answers_sum(
            ar,
            found.state.level,
            by_level,
            state.level,
        ) && answers_product(ar, k1, found.innovation, by_slope) && answers_sum(
            ar,
            found.state.slope,
            by_slope,
            state.slope,
        )
}

/// `cov` is the predicted covariance after the update: level entries
/// scaled by `1 - k0`, the slope variance less `k1` times the predicted
/// cross term.
pub open spec fn is_corrected_covariance<A: Arithmetic>(
    ar: &A,
    found: Innovation,
    k0: Double,
    k1: Double,
    cov: Covariance,
) -> bool {
    exists|kept: Double, taken: Double|
        answers_difference(ar, Double::one_spec(), k0, kept) && answers_product(
            ar,
            kept,
            found.cov.level_var,
            cov.level_var,
        ) && answers_product(ar, kept, found.cov.level_slope, cov.level_slope)
            && cov.slope_level == cov.level_slope && answers_product(
            ar,
            k1,
            found.cov.level_slope,
            taken,
        ) && answers_difference(ar, found.cov.slope_var, taken, cov.slope_var)
}

/// `state` and `cov` are the state and covariance after the update of a step.
pub open spec fn is_update<A: Arithmetic>(
    ar: &A,
    found: Innovation,
    state: TrendState,
    cov: Covariance,
) -> bool {
    exists|k0: Double, k1: Double|
        #![trigger is_corrected_state(ar, found, k0, k1, state)]
        answers_quotient(ar, found.cov.level_var, found.variance, k0) && answers_quotient(
            ar,
            found.cov.slope_level,
            found.variance,
            k1,
        ) && is_corrected_state(ar, found, k0, k1, state) && is_corrected_covariance(
            ar,
            found,
            k0,
            k1,
            cov,
        )
}

/// `fit` is what a step adds to twice the likelihood: the logarithm of
/// `2 * pi * s` plus the squared innovation over `s`.
pub open spec fn is_fit<A: Arithmetic>(ar: &A, innovation: Double, s: Double, fit: Double) -> bool {
    exists|scaled: Double, log: Double, square: Double, ratio: Double|
        answers_product(ar, two_pi(), s, scaled) && answers_natural_log(ar, scaled, log)
            && answers_product(ar, innovation, innovation, square) && answers_quotient(
            ar,
            square,
            s,
            ratio,
        ) && answers_sum(ar, log, ratio, fit)
}

/// `after` is the accumulated likelihood `before` with one step added:
/// `before + 0.5 * fit`.
pub open spec fn is_accumulated<A: Arithmetic>(
    ar: &A,
    innovation: Double,
    s: Double,
    before: Double,
    after: Double,
) -> bool {
    exists|fit: Double, halved: Double|
        is_fit(ar, innovation, s, fit) && answers_product(ar, half(), fit, halved) && answers_sum(
            ar,
            before,
            halved,
            after,
        )
}

/// `next` is the pass `prev` taken one observation further. A pass that has
/// stopped stays as it is. Otherwise the step predicts and finds its
/// innovation variance; where that is not a finite number above zero the
/// pass stops with the sentinel cost and the predicted state and
/// covariance; else the state and covariance are updated and the
/// likelihood accumulated.
pub open spec fn is_next_pass<A: Arithmetic>(
    ar: &A,
    prev: Pass,
    obs: Double,
    weight: Double,
    q: Noise,
    next: Pass,
) -> bool {
    if prev.stopped {
        next == prev
    } else {
        exists|found: Innovation| #[trigger]
            is_innovation(ar, prev.state, prev.cov, obs, weight, q, found) && (
            if !innovation_usable(found.variance) {
                next == (Pass {
                    stopped: true,
                    nll: large_cost(),
                    state: found.state,
                    cov: found.cov,
                })
            } else {
                !next.stopped && is_update(ar, found, next.state, next.cov) && is_accumulated(
                    ar,
                    found.innovation,
                    found.variance,
                    prev.nll,
                    next.nll,
                )
            })
    }
}

/// `p` is the pass over the first `k` observations of `y`: it starts at
/// the first observation with no slope, the initial covariance and no
/// likelihood, and goes on one observation at a time.
pub open spec fn is_pass_prefix<A: Arithmetic>(
    ar: &A,
    y: Seq<Double>,
    weights: Option<Seq<Double>>,
    q: Noise,
    k: int,
    p: Pass,
) -> bool
    decreases k,
{
    if k <= 0 {
        p == (Pass {
            stopped: false,
            nll: Double::zero_spec(),
            state: TrendState { level: y[0], slope: Double::zero_spec() },
            cov: initial_covariance(),
        })
    } else {
        exists|prev: Pass|
            is_pass_prefix(ar, y, weights, q, k - 1, prev) && #[trigger] is_next_pass(
                ar,
                prev,
                y[k - 1],
                step_weight_of(weights, k - 1),
                q,
                p,
            )
    }
}

/// `r` is what the filter pass over `y` leaves behind, at the given
/// deviations, each raised to the floor, and under the given weights. A
/// pass over no observations is the empty one. A pass that stopped on an
/// unusable innovation variance has the sentinel cost.
pub open spec fn is_filter_pass<A: Arithmetic>(
    ar: &A,
    y: Seq<Double>,
    sigmas: Sigmas,
    weights: Option<Seq<Double>>,
    r: FilterResult,
) -> bool {
    if y.len() == 0 {
        r == empty_pass()
    } else {
        exists|q: Noise, p: Pass|
            is_noise(ar, sigmas.raised(), q) && #[trigger] is_pass_prefix(
                ar,
                y,
                weights,
                q,
                y.len() as int,
                p,
            ) && r == (FilterResult { nll: p.nll, state: p.state, cov: p.cov })
    }
}

/// A pass that has stopped is the pass over every longer stretch.
pub proof fn lemma_stopped_pass_stays<A: Arithmetic>(
    ar: &A,
    y: Seq<Double>,
    weights: Option<Seq<Double>>,
    q: Noise,
    k: int,
    n: int,
    p: Pass,
)
    requires
        0 <= k <= n,
        p.stopped,
        is_pass_prefix(ar, y, weights, q, k, p),
    ensures
        is_pass_prefix(ar, y, weights, q, n, p),
    decreases n - k,
{
    if k < n {
        lemma_stopped_pass_stays(ar, y, weights, q, k, n - 1, p);
        assert(is_next_pass(ar, p, y[n - 1], step_weight_of(weights, n - 1), q, p));
    }
}

fn innovate<A: Arithmetic>(
    ar: &A,
    state: TrendState,
    cov: Covariance,
    obs: Double,
    weight: Double,
    q: Noise,
) -> (found: Innovation)
    ensures
        is_innovation(ar, state, cov, obs, weight, q, found),
        found.cov.symmetric(),
{
    let q_level = scaled_noise(ar, q.level, weight);
    let q_trend = scaled_noise(ar, q.trend, weight);
    let r = scaled_noise(ar, q.obs, weight);
    let predicted = predict_state(ar, state, cov, q_level, q_trend);
    let innovation = ar.difference(obs, predicted.0.level);
    let variance = ar.sum(predicted.1.level_var, r);
    let found = Innovation { state: predicted.0, cov: predicted.1, innovation, variance };
    assert(is_scaled_noise(ar, q.level, weight, q_level) && is_scaled_noise(
        ar,
        q.trend,
        weight,
        q_trend,
    ) && is_scaled_noise(ar, q.obs, weight, r) && is_prediction(
        ar,
        state,
        cov,
        q_level,
        q_trend,
        (found.state, found.cov),
    ) && answers_difference(ar, obs, found.state.level, found.innovation) && answers_sum(
        ar,
        found.cov.level_var,
        r,
        found.variance,
    ));
    found
}

#[verifier::rlimit(50)]
fn update<A: Arithmetic>(ar: &A, found: Innovation) -> (next: (TrendState, Covariance))
    ensures
        is_update(ar, found, next.0, next.1),
        next.1.symmetric(),
{
    let k0 = ar.quotient(found.cov.level_var, found.variance);
    let k1 = ar.quotient(found.cov.slope_level, found.variance);
    let by_level = ar.product(k0, found.innovation);
    let level = ar.sum(found.state.level, by_level);
    let by_slope = ar.product(k1, found.innovation);
    let slope = ar.sum(found.state.slope, by_slope);
    let state = TrendState { level, slope };
    assert(answers_product(ar, k0, found.innovation, by_level) && answers_sum(
        ar,
        found.state.level,
        by_level,
        state.level,
    ) && answers_product(ar, k1, found.innovation, by_slope) && answers_sum(
        ar,
        found.state.slope,
        by_slope,
        state.slope,
    ));
    let kept = ar.difference(Double::one(), k0);
    let level_var = ar.product(kept, found.cov.level_var);
    let level_slope = ar.product(kept, found.cov.level_slope);
    let taken = ar.product(k1, found.cov.level_slope);
    let slope_var = ar.difference(found.cov.slope_var, taken);
    let cov = Covariance { level_var, level_slope, slope_level: level_slope, slope_var };
    assert(answers_difference(ar, Double::one_spec(), k0, kept) && answers_product(
        ar,
        kept,
        found.cov.level_var,
        cov.level_var,
    ) && answers_product(ar, kept, found.cov.level_slope, cov.level_slope) && cov.slope_level
        == cov.level_slope && answers_product(ar, k1, found.cov.level_slope, taken)
        && answers_difference(ar, found.cov.slope_var, taken, cov.slope_var));
    assert(answers_quotient(ar, found.cov.level_var, found.variance, k0) && answers_quotient(
        ar,
        found.cov.slope_level,
        found.variance,
        k1,
    ) && is_corrected_state(ar, found, k0, k1, state) && is_corrected_covariance(
        ar,
        found,
        k0,
        k1,
        cov,
    ));
    assert(is_update(ar, found, state, cov));
    (state, cov)
}

fn accumulate<A: Arithmetic>(ar: &A, innovation: Double, s: Double, before: Double) -> (after:
    Double)
    ensures
        is_accumulated(ar, innovation, s, before, after),
{
    let scaled = ar.product(Double::from_bits(TWO_PI_BITS), s);
    let log = ar.natural_log(scaled);
    let square = ar.product(innovation, innovation);
    let ratio = ar.quotient(square, s);
    let fit = ar.sum(log, ratio);
    assert(answers_product(ar, two_pi(), s, scaled) && answers_natural_log(ar, scaled, log)
        && answers_product(ar, innovation, innovation, square) && answers_quotient(
        ar,
        square,
        s,
        ratio,
    ) && answers_sum(ar, log, ratio, fit));
    let halved = ar.product(Double::from_bits(HALF_BITS), fit);
    let after = ar.sum(before, halved);
    assert(is_fit(ar, innovation, s, fit) && answers_product(ar, half(), fit, halved)
        && answers_sum(ar, before, halved, after));
    after
}

/// The forward filter pass over a series: predict, innovate, update, and
/// accumulate the negative log-likelihood. A pass over no observations, and
/// one that meets an innovation variance that is not a finite number above
/// zero, answer with the sentinel cost; the latter with the state and
/// covariance predicted for that step.
#[verifier::rlimit(50)]
pub fn kalman_filter<A: Arithmetic>(
    ar: &A,
    y: &Vec<Double>,
    sigma_level: Double,
    sigma_trend: Double,
    sigma_obs: Double,
    weights: Option<&Vec<Double>>,
) -> (r: FilterResult)
    ensures
        is_filter_pass(
            ar,
            y@,
            Sigmas { level: sigma_level, trend: sigma_trend, obs: sigma_obs },
            weights_view(weights),
            r,
        ),
        r.cov.symmetric(),
        y.len() == 0 ==> r == empty_pass(),
{
    let zero = Double::zero();
    if y.len() == 0 {
        return FilterResult {
            nll: Double::from_bits(LARGE_COST_BITS),
            state: TrendState { level: zero, slope: zero },
            cov: Covariance {
                level_var: zero,
                level_slope: zero,
                slope_level: zero,
                slope_var: zero,
            },
        };
    }
    let sigmas = (Sigmas { level: sigma_level, trend: sigma_trend, obs: sigma_obs }).raise();
    let q = Noise {
        level: ar.product(sigmas.level, sigmas.level),
        trend: ar.product(sigmas.trend, sigmas.trend),
        obs: ar.product(sigmas.obs, sigmas.obs),
    };
    assert(is_noise(ar, sigmas, q));
    let ghost seen = weights_view(weights);
    let mut state = TrendState { level: y[0], slope: zero };
    let mut cov = Covariance {
        level_var: Double::from_bits(INITIAL_LEVEL_VARIANCE_BITS),
        level_slope: zero,
        slope_level: zero,
        slope_var: Double::from_bits(INITIAL_SLOPE_VARIANCE_BITS),
    };
    let mut nll = zero;
    let mut idx: usize = 0;
    while idx < y.len()
        invariant
            idx <= y.len(),
            y.len() > 0,
            cov.symmetric(),
            seen == weights_view(weights),
            is_noise(ar, sigmas, q),
            sigmas == (Sigmas { level: sigma_level, trend: sigma_trend, obs: sigma_obs }).raised(),
            is_pass_prefix(ar, y@, seen, q, idx as int, Pass { stopped: false, nll, state, cov }),
        decreases y.len() - idx,
    {
        let ghost prev = Pass { stopped: false, nll, state, cov };
        let ghost k = idx + 1;
        let weight = step_weight(weights, idx);
        assert(weight == step_weight_of(seen, k - 1));
        let found = innovate(ar, state, cov, y[idx], weight, q);
        if !is_innovation_usable(found.variance) {
            let r = FilterResult {
                nll: Double::from_bits(LARGE_COST_BITS),
                state: found.state,
                cov: found.cov,
            };
            proof {
                let stop = Pass {
                    stopped: true,
                    nll: large_cost(),
                    state: found.state,
                    cov: found.cov,
                };
                assert(is_innovation(ar, prev.state, prev.cov, y@[k - 1], weight, q, found));
                assert(is_next_pass(ar, prev, y@[k - 1], step_weight_of(seen, k - 1), q, stop));
                assert(is_pass_prefix(ar, y@, seen, q, k - 1, prev));
                assert(is_pass_prefix(ar, y@, seen, q, k, stop));
                lemma_stopped_pass_stays(ar, y@, seen, q, k, y@.len() as int, stop);
                assert(is_noise(ar, sigmas, q) && is_pass_prefix(
                    ar,
                    y@,
                    seen,
                    q,
                    y@.len() as int,
                    stop,
                ) && r == (FilterResult { nll: stop.nll, state: stop.state, cov: stop.cov }));
            }
            return r;
        }
        let updated = update(ar, found);
        let after = accumulate(ar, found.innovation, found.variance, nll);
        state = updated.0;
        cov = updated.1;
        nll = after;
        proof {
            let next = Pass { stopped: false, nll, state, cov };
            assert(is_innovation(ar, prev.state, prev.cov, y@[k - 1], weight, q, found));
            assert(is_next_pass(ar, prev, y@[k - 1], step_weight_of(seen, k - 1), q, next));
            assert(is_pass_prefix(ar, y@, seen, q, k - 1, prev));
            assert(is_pass_prefix(ar, y@, seen, q, k, next));
        }
        idx = idx + 1;
    }
    let r = FilterResult { nll, state, cov };
    proof {
        let p = Pass { stopped: false, nll, state, cov };
        assert(is_noise(ar, sigmas, q) && is_pass_prefix(ar, y@, seen, q, y@.len() as int, p)
            && r == (FilterResult { nll: p.nll, state: p.state, cov: p.cov }));
    }
    r
}

/// The likelihood objective of a series and its weights.
#[derive(Debug)]
pub struct LocalLinearTrendProblem {
    pub y: Vec<Double>,
    pub weights: Vec<Double>,
}

impl LocalLinearTrendProblem {
    /// The objective of a series and its weights.
    pub fn new(y: Vec<Double>, weights: Vec<Double>) -> (p: LocalLinearTrendProblem)
        ensures
            p.y == y,
            p.weights == weights,
    {
        LocalLinearTrendProblem { y, weights }
    }

    /// The negative log-likelihood at a vector of three log-deviations.
    /// Always a finite number: the sentinel stands in for a vector of
    /// another length, for deviations that are not finite, and for whatever
    /// the filter cannot evaluate.
    pub fn nll<A: Arithmetic>(&self, ar: &A, param: &Vec<Double>) -> (cost: Double)
        ensures
            is_nll(ar, self.y@, self.weights@, param@, cost),
            cost.finite(),
            param.len() != 3 ==> cost == large_cost(),
    {
        if param.len() != 3 {
            return Double::from_bits(LARGE_COST_BITS);
        }
        let sigmas = unpack_params(ar, param);
        if !sigmas.are_finite() {
            assert(is_unpacked(ar, param@, sigmas) && is_likelihood_at(
                ar,
                self.y@,
                self.weights@,
                sigmas,
                large_cost(),
            ));
            return Double::from_bits(LARGE_COST_BITS);
        }
        let result = kalman_filter(
            ar,
            &self.y,
            sigmas.level,
            sigmas.trend,
            sigmas.obs,
            Some(&self.weights),
        );
        let cost = guard_cost(result.nll);
        proof {
            assert(weights_view(Some(&self.weights)) == Some(self.weights@));
            assert(is_filter_pass(ar, self.y@, sigmas, Some(self.weights@), result) && cost
                == guarded(result.nll));
            assert(is_unpacked(ar, param@, sigmas) && is_likelihood_at(
                ar,
                self.y@,
                self.weights@,
                sigmas,
                cost,
            ));
        }
        cost
    }

    /// The cost the optimiser minimises: the negative log-likelihood.
    pub fn cost<A: Arithmetic>(&self, ar: &A, param: &Vec<Double>) -> (cost: Double)
        ensures
            is_nll(ar, self.y@, self.weights@, param@, cost),
            cost.finite(),
            param.len() != 3 ==> cost == large_cost(),
    {
        self.nll(ar, param)
    }

    #[verifier::rlimit(50)]
    fn partial<A: Arithmetic>(&self, ar: &A, param: &Vec<Double>, i: usize) -> (g: Double)
        requires
            i < param.len(),
        ensures
            is_partial(ar, self.y@, self.weights@, param@, i as int, g),
    {
        let grown = ar.sum(Double::one(), param[i].abs());
        let step = ar.product(Double::from_bits(GRADIENT_STEP_BITS), grown);
        assert(answers_sum(ar, Double::one_spec(), param[i as int].abs_spec(), grown)
            && answers_product(ar, gradient_step(), grown, step));
        let mut plus = copy_of(param);
        let mut minus = copy_of(param);
        let up = ar.sum(param[i], step);
        let down = ar.difference(param[i], step);
        plus.set(i, up);
        minus.set(i, down);
        let f_plus = self.nll(ar, &plus);
        let f_minus = self.nll(ar, &minus);
        let rise = ar.difference(f_plus, f_minus);
        let run = ar.product(Double::from_bits(TWO_BITS), step);
        let g = ar.quotient(rise, run);
        proof {
            assert(plus@ == param@.update(i as int, up));
            assert(minus@ == param@.update(i as int, down));
            assert(answers_sum(ar, param[i as int], step, up) && is_nll(
                ar,
                self.y@,
                self.weights@,
                param@.update(i as int, up),
                f_plus,
            ) && answers_difference(ar, param[i as int], step, down) && is_nll(
                ar,
                self.y@,
                self.weights@,
                param@.update(i as int, down),
                f_minus,
            ) && answers_difference(ar, f_plus, f_minus, rise));
            assert(is_rise(ar, self.y@, self.weights@, param@, i as int, step, rise));
            assert(is_gradient_step(ar, param[i as int], step) && is_rise(
                ar,
                self.y@,
                self.weights@,
                param@,
                i as int,
                step,
                rise,
            ) && answers_product(ar, two(), step, run) && answers_quotient(ar, rise, run, g));
        }
        g
    }

    /// The gradient of the cost by symmetric finite differences, one entry
    /// per parameter, the step scaled to the parameter's magnitude.
    pub fn gradient<A: Arithmetic>(&self, ar: &A, param: &Vec<Double>) -> (grad: Vec<Double>)
        ensures
            grad.len() == param.len(),
            forall|i: int|
                0 <= i < grad.len() ==> is_partial(
                    ar,
                    self.y@,
                    self.weights@,
                    param@,
                    i,
                    #[trigger] grad[i],
                ),
    {
        let mut grad: Vec<Double> = Vec::new();
        let mut i: usize = 0;
        while i < param.len()
            invariant
                i <= param.len(),
                grad.len() == i,
                forall|k: int|
                    0 <= k < grad.len() ==> is_partial(
                        ar,
                        self.y@,
                        self.weights@,
                        param@,
                        k,
                        #[trigger] grad[k],
                    ),
            decreases param.len() - i,
        {
            grad.push(self.partial(ar, param, i));
            i = i + 1;
        }
        grad
    }
}

/// The relative step of the finite differences, `1e-4`.
pub open spec fn gradient_step() -> Double {
    Double { bits: GRADIENT_STEP_BITS }
}

/// `cost` is the likelihood cost at the deviations `s`: the sentinel where
/// they are not all finite, else the likelihood of the filter pass over
/// `y` under `weights`, with the sentinel in place of one that is not finite.
pub open spec fn is_likelihood_at<A: Arithmetic>(
    ar: &A,
    y: Seq<Double>,
    weights: Seq<Double>,
    s: Sigmas,
    cost: Double,
) -> bool {
    if !s.all_finite() {
        cost == large_cost()
    } else {
        exists|f: FilterResult| #[trigger]
            is_filter_pass(ar, y, s, Some(weights), f) && cost == guarded(f.nll)
    }
}

/// `cost` is the negative log-likelihood at the parameter vector `param`:
/// the sentinel unless there are three parameters, else the likelihood
/// cost at the deviations they stand for.
pub open spec fn is_nll<A: Arithmetic>(
    ar: &A,
    y: Seq<Double>,
    weights: Seq<Double>,
    param: Seq<Double>,
    cost: Double,
) -> bool {
    if param.len() != 3 {
        cost == large_cost()
    } else {
        exists|s: Sigmas| #[trigger]
            is_unpacked(ar, param, s) && is_likelihood_at(ar, y, weights, s, cost)
    }
}

/// `step` is the finite-difference step for a parameter `p`: the
/// arithmetic's answer for `1e-4 * (1 + |p|)`.
pub open spec fn is_gradient_step<A: Arithmetic>(ar: &A, p: Double, step: Double) -> bool {
    exists|grown: Double| #[trigger]
        answers_sum(ar, Double::one_spec(), p.abs_spec(), grown) && answers_product(
            ar,
            gradient_step(),
            grown,
            step,
        )
}

/// `rise` is the cost with parameter `i` moved up by `step` less the cost
/// with it moved down by `step`.
pub open spec fn is_rise<A: Arithmetic>(
    ar: &A,
    y: Seq<Double>,
    weights: Seq<Double>,
    param: Seq<Double>,
    i: int,
    step: Double,
    rise: Double,
) -> bool {
    exists|up: Double, down: Double, above: Double, below: Double|
        answers_sum(ar, param[i], step, up) && is_nll(ar, y, weights, param.update(i, up), above)
            && answers_difference(ar, param[i], step, down) && is_nll(
            ar,
            y,
            weights,
            param.update(i, down),
            below,
        ) && answers_difference(ar, above, below, rise)
}

/// `g` is the symmetric finite difference of the cost in parameter `i`:
/// the rise over twice the step.
pub open spec fn is_partial<A: Arithmetic>(
    ar: &A,
    y: Seq<Double>,
    weights: Seq<Double>,
    param: Seq<Double>,
    i: int,
    g: Double,
) -> bool {
    exists|step: Double, rise: Double, run: Double|
        is_gradient_step(ar, param[i], step) && is_rise(ar, y, weights, param, i, step, rise)
            && answers_product(ar, two(), step, run) && answers_quotient(ar, rise, run, g)
}

/// The number `0.1`.
pub open spec fn tenth() -> Double {
    Double { bits: TENTH_BITS }
}

/// `init` holds the parameters the optimiser starts from for `series`: the
/// logarithms of half, a tenth and the whole of the deviation of its first
/// differences, that deviation taken to be at least `1e-3`.
pub open spec fn is_initial_params<A: Arithmetic>(
    ar: &A,
    series: Seq<Double>,
    init: Seq<Double>,
) -> bool {
    exists|diffs: Seq<Double>, measured: Double|
        #![trigger are_first_differences(ar, series, diffs), is_stddev(ar, diffs, measured)]
        are_first_differences(ar, series, diffs) && is_stddev(ar, diffs, measured)
            && are_logs_of_shares(
            ar,
            measured.max_spec(Double { bits: MIN_INITIAL_DEVIATION_BITS }),
            init,
        )
}

/// `init` holds the logarithms of half, a tenth and the whole of `d`.
pub open spec fn are_logs_of_shares<A: Arithmetic>(ar: &A, d: Double, init: Seq<Double>) -> bool {
    exists|level: Double, trend: Double|
        init.len() == 3 && answers_product(ar, d, half(), level) && answers_product(
            ar,
            d,
            tenth(),
            trend,
        ) && answers_natural_log(ar, level, init[0]) && answers_natural_log(ar, trend, init[1])
            && answers_natural_log(ar, d, init[2])
}

/// The parameters the optimiser starts from: the logarithms of half, a
/// tenth and the whole of the standard deviation of the first differences.
pub fn initial_params<A: Arithmetic>(ar: &A, series: &Vec<Double>) -> (init: Vec<Double>)
    ensures
        init.len() == 3,
        is_initial_params(ar, series@, init@),
{
    let diffs = first_differences(ar, series);
    let measured = stddev(ar, &diffs);
    let diff_std = measured.max(Double::from_bits(MIN_INITIAL_DEVIATION_BITS));
    let sigma_obs = diff_std;
    let sigma_level = ar.product(diff_std, Double::from_bits(HALF_BITS));
    let sigma_trend = ar.product(diff_std, Double::from_bits(TENTH_BITS));
    let mut init: Vec<Double> = Vec::new();
    init.push(ar.natural_log(sigma_level));
    init.push(ar.natural_log(sigma_trend));
    init.push(ar.natural_log(sigma_obs));
    proof {
        assert(init.len() == 3 && answers_product(ar, diff_std, half(), sigma_level)
            && answers_product(ar, diff_std, tenth(), sigma_trend) && answers_natural_log(
            ar,
            sigma_level,
            init[0],
        ) && answers_natural_log(ar, sigma_trend, init[1]) && answers_natural_log(
            ar,
            diff_std,
            init[2],
        ));
        assert(are_logs_of_shares(ar, diff_std, init@));
        assert(are_first_differences(ar, series@, diffs@) && is_stddev(ar, diffs@, measured));
    }
    init
}

} // verus!
