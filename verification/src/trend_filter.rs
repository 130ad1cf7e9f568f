//! The trend filter's objective: a Huber data term and a smoothed penalty
//! on second differences, with its exact gradient.

use vstd::prelude::*;
use crate::arith::{
    Arithmetic, answers_difference, answers_fused, answers_product, answers_quotient,
    answers_square_root, answers_sum,
};
use crate::filter::{half, large_cost, two, HALF_BITS, LARGE_COST_BITS, TWO_BITS};
use crate::ieee::Double;

verus! {

/// `1e-6`: the least Huber threshold the objective works with.
pub const MIN_HUBER_DELTA_BITS: u64 = 0x3EB0_C6F7_A0B5_ED8D;

/// `-2.0`: the middle tap of a second difference.
pub const NEG_TWO_BITS: u64 = 0xC000_0000_0000_0000;

/// The derivative of the Huber loss at a residual: the residual itself
/// within the threshold, the threshold with the residual's sign beyond it.
pub open spec fn huber_slope(diff: Double, delta: Double) -> Double {
    if diff.abs_spec().le_spec(delta) {
        diff
    } else if diff.positive() {
        delta
    } else {
        delta.neg_spec()
    }
}

/// Derivative of the Huber loss.
pub fn huber_grad(diff: Double, delta: Double) -> (g: Double)
    ensures
        g == huber_slope(diff, delta),
{
    if diff.abs().le(delta) {
        diff
    } else if diff.is_positive() {
        delta
    } else {
        delta.neg()
    }
}

/// The Huber loss of a residual: half its square within the threshold,
/// linear beyond it.
pub fn huber_loss<A: Arithmetic>(ar: &A, diff: Double, delta: Double) -> (r: Double)
    ensures
        is_huber_loss(ar, diff, delta, r),
{
    let magnitude = diff.abs();
    let one_half = Double::from_bits(HALF_BITS);
    if magnitude.le(delta) {
        let halved = ar.product(one_half, diff);
        let r = ar.product(halved, diff);
        assert(answers_product(ar, half(), diff, halved) && answers_product(
            ar,
            halved,
            diff,
            r,
        ));
        r
    } else {
        let excess = ar.fused(one_half, delta.neg(), magnitude);
        let r = ar.product(delta, excess);
        assert(answers_fused(ar, half(), delta.neg_spec(), diff.abs_spec(), excess)
            && answers_product(ar, delta, excess, r));
        r
    }
}

/// `r` is the Huber loss of the residual `diff` at the threshold `delta`.
/// Within the threshold it is quadratic: the arithmetic's answer for
/// `0.5 * diff`, multiplied by `diff`. Beyond it, it is linear: `delta`
/// times the arithmetic's answer for `0.5 * (-delta) + |diff|`.
pub open spec fn is_huber_loss<A: Arithmetic>(
    ar: &A,
    diff: Double,
    delta: Double,
    r: Double,
) -> bool {
    if diff.abs_spec().le_spec(delta) {
        exists|halved: Double| #[trigger]
            answers_product(ar, half(), diff, halved) && answers_product(ar, halved, diff, r)
    } else {
        exists|excess: Double| #[trigger]
            answers_fused(ar, half(), delta.neg_spec(), diff.abs_spec(), excess)
                && answers_product(ar, delta, excess, r)
    }
}

/// `r` is the second difference of `trend` at `idx`: the arithmetic's
/// answer for `2 * (-trend[idx - 1]) + trend[idx]`, plus `trend[idx - 2]`.
pub open spec fn is_curvature<A: Arithmetic>(
    ar: &A,
    trend: Seq<Double>,
    idx: int,
    r: Double,
) -> bool {
    exists|step: Double| #[trigger]
        answers_fused(ar, two(), trend[idx - 1].neg_spec(), trend[idx], step) && answers_sum(
            ar,
            step,
            trend[idx - 2],
            r,
        )
}

/// The objective of a series: how far a trend lies from it, and how rough the trend is.
#[derive(Debug)]
pub struct TrendFilterProblem {
    pub y: Vec<Double>,
    pub lambda: Double,
    pub epsilon: Double,
    pub huber_delta: Double,
}

impl TrendFilterProblem {
    /// The objective of a series with its constants.
    pub fn new(y: Vec<Double>, lambda: Double, epsilon: Double, huber_delta: Double) -> (p:
        TrendFilterProblem)
        ensures
            p.y == y,
            p.lambda == lambda,
            p.epsilon == epsilon,
            p.huber_delta == huber_delta,
    {
        TrendFilterProblem { y, lambda, epsilon, huber_delta }
    }

    /// The Huber threshold in use: the configured one, floored at `1e-6`.
    pub fn threshold(&self) -> (delta: Double)
        ensures
            delta == threshold_of(self.huber_delta),
            delta.positive(),
    {
        self.huber_delta.max(Double::from_bits(MIN_HUBER_DELTA_BITS))
    }

    /// The second difference of a trend at `idx`.
    fn curvature<A: Arithmetic>(ar: &A, param: &Vec<Double>, idx: usize) -> (r: Double)
        requires
            2 <= idx < param.len(),
        ensures
            is_curvature(ar, param@, idx as int, r),
    {
        let step = ar.fused(Double::from_bits(TWO_BITS), param[idx - 1].neg(), param[idx]);
        let r = ar.sum(step, param[idx - 2]);
        assert(answers_fused(ar, two(), param[idx - 1].neg_spec(), param[idx as int], step)
            && answers_sum(ar, step, param[idx - 2], r));
        r
    }

    /// The cost of a trend: the Huber losses of its distances from the
    /// series, added up from the first entry on, and then, where the trend
    /// has three entries or more and the smoothness weight is above zero,
    /// the weight times the smoothed size of every second difference. A
    /// trend of another length than the series costs the sentinel.
    #[verifier::rlimit(50)]
    pub fn cost<A: Arithmetic>(&self, ar: &A, param: &Vec<Double>) -> (cost: Double)
        ensures
            is_trend_cost(ar, *self, param@, cost),
            param.len() != self.y.len() ==> cost == large_cost(),
    {
        if param.len() != self.y.len() {
            return Double::from_bits(LARGE_COST_BITS);
        }
        let delta = self.threshold();
        let mut cost = Double::zero();
        let mut i: usize = 0;
        while i < param.len()
            invariant
                i <= param.len(),
                param.len() == self.y.len(),
                delta == threshold_of(self.huber_delta),
                is_data_term(ar, self.y@, param@, delta, i as int, cost),
            decreases param.len() - i,
        {
            let ghost before = cost;
            let ghost k = i + 1;
            let diff = ar.difference(param[i], self.y[i]);
            let loss = huber_loss(ar, diff, delta);
            cost = ar.sum(cost, loss);
            proof {
                assert(is_data_term(ar, self.y@, param@, delta, k - 1, before)
                    && answers_difference(ar, param@[k - 1], self.y@[k - 1], diff)
                    && is_huber_loss(ar, diff, delta, loss) && answers_sum(ar, before, loss, cost));
                assert(is_data_term(ar, self.y@, param@, delta, k, cost));
            }
            i = i + 1;
        }
        let ghost data = cost;
        if param.len() >= 3 && self.lambda.is_positive() {
            let eps2 = ar.product(self.epsilon, self.epsilon);
            let mut idx: usize = 2;
            while idx < param.len()
                invariant
                    2 <= idx <= param.len(),
                    is_penalised(ar, param@, self.lambda, eps2, data, idx as int, cost),
                decreases param.len() - idx,
            {
                let ghost before = cost;
                let ghost k = idx + 1;
                let root = roughness(ar, param, eps2, idx);
                let term = ar.product(self.lambda, root);
                cost = ar.sum(cost, term);
                proof {
                    assert(is_penalised(ar, param@, self.lambda, eps2, data, k - 1, before)
                        && is_roughness(ar, param@, eps2, k - 1, root) && answers_product(
                        ar,
                        self.lambda,
                        root,
                        term,
                    ) && answers_sum(ar, before, term, cost));
                    assert(is_penalised(ar, param@, self.lambda, eps2, data, k, cost));
                }
                idx = idx + 1;
            }
            proof {
                assert(answers_product(ar, self.epsilon, self.epsilon, eps2) && is_penalised(
                    ar,
                    param@,
                    self.lambda,
                    eps2,
                    data,
                    param@.len() as int,
                    cost,
                ));
                assert(is_with_penalty(ar, *self, param@, data, cost));
            }
        }
        proof {
            assert(is_data_term(ar, self.y@, param@, delta, param@.len() as int, data)
                && is_with_penalty(ar, *self, param@, data, cost));
        }
        cost
    }

    /// The gradient of the cost, one entry per trend value: the slope of
    /// the Huber loss at each distance, and then, where the penalty
    /// applies, the taps `+g`, `-2g`, `+g` of every second difference. For a
    /// trend of another length than the series every entry is zero.
    #[verifier::rlimit(50)]
    pub fn gradient<A: Arithmetic>(&self, ar: &A, param: &Vec<Double>) -> (grad: Vec<Double>)
        ensures
            is_trend_gradient(ar, *self, param@, grad@),
            grad.len() == param.len(),
            param.len() != self.y.len() ==> forall|i: int|
                0 <= i < grad.len() ==> #[trigger] grad[i] == Double::zero_spec(),
    {
        let zero = Double::zero();
        let mut grad: Vec<Double> = Vec::new();
        if param.len() != self.y.len() {
            let mut k: usize = 0;
            while k < param.len()
                invariant
                    k <= param.len(),
                    grad.len() == k,
                    zero == Double::zero_spec(),
                    forall|i: int| 0 <= i < k ==> #[trigger] grad[i] == Double::zero_spec(),
                decreases param.len() - k,
            {
                grad.push(zero);
                k = k + 1;
            }
            return grad;
        }
        let delta = self.threshold();
        let mut i: usize = 0;
        while i < param.len()
            invariant
                i <= param.len(),
                param.len() == self.y.len(),
                grad.len() == i,
                zero == Double::zero_spec(),
                forall|k: int|
                    0 <= k < grad.len() ==> is_data_slope(
                        ar,
                        self.y@,
                        param@,
                        delta,
                        k,
                        #[trigger] grad[k],
                    ),
            decreases param.len() - i,
        {
            let diff = ar.difference(param[i], self.y[i]);
            let slope = ar.sum(zero, huber_grad(diff, delta));
            assert(answers_difference(ar, param@[i as int], self.y@[i as int], diff)
                && answers_sum(ar, Double::zero_spec(), huber_slope(diff, delta), slope));
            grad.push(slope);
            i = i + 1;
        }
        let ghost base = grad@;
        assert(are_data_slopes(ar, self.y@, param@, delta, base));
        if param.len() >= 3 && self.lambda.is_positive() {
            let eps2 = ar.product(self.epsilon, self.epsilon);
            let mut idx: usize = 2;
            while idx < param.len()
                invariant
                    2 <= idx <= param.len(),
                    grad.len() == param.len(),
                    is_penalty_gradient(ar, param@, self.lambda, eps2, base, idx as int, grad@),
                decreases param.len() - idx,
            {
                let ghost prev = grad@;
                let ghost k = idx + 1;
                let g = tap(ar, param, self.lambda, eps2, idx);
                let a = ar.sum(grad[idx], g);
                let m = ar.product(Double::from_bits(NEG_TWO_BITS), g);
                let b = ar.sum(grad[idx - 1], m);
                let c = ar.sum(grad[idx - 2], g);
                grad.set(idx, a);
                grad.set(idx - 1, b);
                grad.set(idx - 2, c);
                proof {
                    assert(grad@ =~= prev.update(k - 1, a).update(k - 1 - 1, b).update(
                        k - 1 - 2,
                        c,
                    ));
                    assert(answers_sum(ar, prev[k - 1], g, a) && answers_product(
                        ar,
                        neg_two(),
                        g,
                        m,
                    ) && answers_sum(ar, prev[k - 1 - 1], m, b) && answers_sum(
                        ar,
                        prev[k - 1 - 2],
                        g,
                        c,
                    ));
                    assert(is_tapped(ar, prev, k - 1, g, grad@));
                    assert(is_penalty_gradient(ar, param@, self.lambda, eps2, base, k - 1, prev)
                        && is_tap(ar, param@, self.lambda, eps2, k - 1, g) && is_tapped(
                        ar,
                        prev,
                        k - 1,
                        g,
                        grad@,
                    ));
                    assert(is_penalty_gradient(ar, param@, self.lambda, eps2, base, k, grad@));
                }
                idx = idx + 1;
            }
            proof {
                assert(answers_product(ar, self.epsilon, self.epsilon, eps2)
                    && is_penalty_gradient(
                    ar,
                    param@,
                    self.lambda,
                    eps2,
                    base,
                    param@.len() as int,
                    grad@,
                ));
                assert(is_with_penalty_gradient(ar, *self, param@, base, grad@));
            }
        }
        proof {
            assert(are_data_slopes(ar, self.y@, param@, delta, base) && is_with_penalty_gradient(
                ar,
                *self,
                param@,
                base,
                grad@,
            ));
        }
        grad
    }
}

/// The number `-2.0`.
pub open spec fn neg_two() -> Double {
    Double { bits: NEG_TWO_BITS }
}

/// The Huber threshold in use for a configured one: floored at `1e-6`.
pub open spec fn threshold_of(huber_delta: Double) -> Double {
    huber_delta.max_spec(Double { bits: MIN_HUBER_DELTA_BITS })
}

/// `r` is the data term over the first `k` entries: the Huber losses of the
/// arithmetic's answers for `param[i] - y[i]`, added up from the first on.
pub open spec fn is_data_term<A: Arithmetic>(
    ar: &A,
    y: Seq<Double>,
    param: Seq<Double>,
    delta: Double,
    k: int,
    r: Double,
) -> bool
    decreases k,
{
    if k <= 0 {
        r == Double::zero_spec()
    } else {
        exists|before: Double, diff: Double, loss: Double|
            #![trigger is_huber_loss(ar, diff, delta, loss), answers_sum(ar, before, loss, r)]
            is_data_term(ar, y, param, delta, k - 1, before) && answers_difference(
                ar,
                param[k - 1],
                y[k - 1],
                diff,
            ) && is_huber_loss(ar, diff, delta, loss) && answers_sum(ar, before, loss, r)
    }
}

/// `root` is the smoothed size of the second difference at `idx`: the
/// square root of the arithmetic's answer for its square plus `eps2`.
pub open spec fn is_roughness<A: Arithmetic>(
    ar: &A,
    param: Seq<Double>,
    eps2: Double,
    idx: int,
    root: Double,
) -> bool {
    exists|bend: Double, inner: Double|
        #![trigger is_curvature(ar, param, idx, bend), answers_square_root(ar, inner, root)]
        is_curvature(ar, param, idx, bend) && answers_fused(ar, bend, bend, eps2, inner)
            && answers_square_root(ar, inner, root)
}

/// `r` is the cost `data` with the penalty of the second differences up to
/// index `k` added, one term `lambda * roughness` after the other.
pub open spec fn is_penalised<A: Arithmetic>(
    ar: &A,
    param: Seq<Double>,
    lambda: Double,
    eps2: Double,
    data: Double,
    k: int,
    r: Double,
) -> bool
    decreases k,
{
    if k <= 2 {
        r == data
    } else {
        exists|before: Double, root: Double, term: Double|
            #![trigger answers_product(ar, lambda, root, term), answers_sum(ar, before, term, r)]
            is_penalised(ar, param, lambda, eps2, data, k - 1, before) && is_roughness(
                ar,
                param,
                eps2,
                k - 1,
                root,
            ) && answers_product(ar, lambda, root, term) && answers_sum(ar, before, term, r)
    }
}

/// Whether the penalty applies to a trend of `n` entries: it has three or
/// more, and the smoothness weight is above zero.
pub open spec fn penalty_applies(lambda: Double, n: nat) -> bool {
    n >= 3 && lambda.positive()
}

/// `cost` is the data term `data` with the penalty added where it applies,
/// and the data term alone where it does not.
pub open spec fn is_with_penalty<A: Arithmetic>(
    ar: &A,
    problem: TrendFilterProblem,
    param: Seq<Double>,
    data: Double,
    cost: Double,
) -> bool {
    if penalty_applies(problem.lambda, param.len()) {
        exists|eps2: Double| #[trigger]
            answers_product(ar, problem.epsilon, problem.epsilon, eps2) && is_penalised(
                ar,
                param,
                problem.lambda,
                eps2,
                data,
                param.len() as int,
                cost,
            )
    } else {
        cost == data
    }
}

/// `cost` is the cost of the trend `param` under `problem`.
pub open spec fn is_trend_cost<A: Arithmetic>(
    ar: &A,
    problem: TrendFilterProblem,
    param: Seq<Double>,
    cost: Double,
) -> bool {
    if param.len() != problem.y.len() {
        cost == large_cost()
    } else {
        exists|data: Double| #[trigger]
            is_data_term(
                ar,
                problem.y@,
                param,
                threshold_of(problem.huber_delta),
                param.len() as int,
                data,
            ) && is_with_penalty(ar, problem, param, data, cost)
    }
}

/// `g` is the slope of the data term in entry `i`: the arithmetic's answer
/// for zero plus the Huber slope at its answer for `param[i] - y[i]`.
pub open spec fn is_data_slope<A: Arithmetic>(
    ar: &A,
    y: Seq<Double>,
    param: Seq<Double>,
    delta: Double,
    i: int,
    g: Double,
) -> bool {
    exists|diff: Double| #[trigger]
        answers_difference(ar, param[i], y[i], diff) && answers_sum(
            ar,
            Double::zero_spec(),
            huber_slope(diff, delta),
            g,
        )
}

/// `base` holds the slope of the data term in every entry.
pub open spec fn are_data_slopes<A: Arithmetic>(
    ar: &A,
    y: Seq<Double>,
    param: Seq<Double>,
    delta: Double,
    base: Seq<Double>,
) -> bool {
    base.len() == param.len() && forall|i: int|
        0 <= i < base.len() ==> is_data_slope(ar, y, param, delta, i, #[trigger] base[i])
}

/// `g` is the tap of a second difference `bend` of smoothed size `root`:
/// `lambda * bend / root` where the size is above zero, else zero.
pub open spec fn is_tap_value<A: Arithmetic>(
    ar: &A,
    lambda: Double,
    bend: Double,
    root: Double,
    g: Double,
) -> bool {
    if root.positive() {
        exists|scaled: Double| #[trigger]
            answers_product(ar, lambda, bend, scaled) && answers_quotient(ar, scaled, root, g)
    } else {
        g == Double::zero_spec()
    }
}

/// `g` is the tap of the second difference at `idx`.
pub open spec fn is_tap<A: Arithmetic>(
    ar: &A,
    param: Seq<Double>,
    lambda: Double,
    eps2: Double,
    idx: int,
    g: Double,
) -> bool {
    exists|bend: Double, inner: Double, root: Double|
        #![trigger
            answers_fused(ar, bend, bend, eps2, inner),
            is_tap_value(ar, lambda, bend, root, g)
        ]
        is_curvature(ar, param, idx, bend) && answers_fused(ar, bend, bend, eps2, inner)
            && answers_square_root(ar, inner, root) && is_tap_value(ar, lambda, bend, root, g)
}

/// `next` is the gradient `prev` after the tap `g` at `idx`: `+g` on the
/// entry at `idx`, `-2g` on the one before, `+g` on the one before that.
pub open spec fn is_tapped<A: Arithmetic>(
    ar: &A,
    prev: Seq<Double>,
    idx: int,
    g: Double,
    next: Seq<Double>,
) -> bool {
    exists|a: Double, m: Double, b: Double, c: Double|
        #![trigger
            answers_sum(ar, prev[idx], g, a),
            answers_sum(ar, prev[idx - 1], m, b),
            answers_sum(ar, prev[idx - 2], g, c)
        ]
        answers_sum(ar, prev[idx], g, a) && answers_product(ar, neg_two(), g, m) && answers_sum(
            ar,
            prev[idx - 1],
            m,
            b,
        ) && answers_sum(ar, prev[idx - 2], g, c) && next == prev.update(idx, a).update(
            idx - 1,
            b,
        ).update(idx - 2, c)
}

/// `grad` is the gradient `base` of the data term after the taps of the
/// second differences up to index `k`, one after the other.
pub open spec fn is_penalty_gradient<A: Arithmetic>(
    ar: &A,
    param: Seq<Double>,
    lambda: Double,
    eps2: Double,
    base: Seq<Double>,
    k: int,
    grad: Seq<Double>,
) -> bool
    decreases k,
{
    if k <= 2 {
        grad == base
    } else {
        exists|prev: Seq<Double>, g: Double|
            #![trigger is_tapped(ar, prev, k - 1, g, grad)]
            is_penalty_gradient(ar, param, lambda, eps2, base, k - 1, prev) && is_tap(
                ar,
                param,
                lambda,
                eps2,
                k - 1,
                g,
            ) && is_tapped(ar, prev, k - 1, g, grad)
    }
}

/// `grad` is the data gradient `base` with the taps of the penalty where
/// it applies, and `base` itself where it does not.
pub open spec fn is_with_penalty_gradient<A: Arithmetic>(
    ar: &A,
    problem: TrendFilterProblem,
    param: Seq<Double>,
    base: Seq<Double>,
    grad: Seq<Double>,
) -> bool {
    if penalty_applies(problem.lambda, param.len()) {
        exists|eps2: Double| #[trigger]
            answers_product(ar, problem.epsilon, problem.epsilon, eps2) && is_penalty_gradient(
                ar,
                param,
                problem.lambda,
                eps2,
                base,
                param.len() as int,
                grad,
            )
    } else {
        grad == base
    }
}

/// `grad` is the gradient of the cost of the trend `param` under `problem`.
pub open spec fn is_trend_gradient<A: Arithmetic>(
    ar: &A,
    problem: TrendFilterProblem,
    param: Seq<Double>,
    grad: Seq<Double>,
) -> bool {
    if param.len() != problem.y.len() {
        grad.len() == param.len() && forall|i: int|
            0 <= i < grad.len() ==> #[trigger] grad[i] == Double::zero_spec()
    } else {
        exists|base: Seq<Double>| #[trigger]
            are_data_slopes(ar, problem.y@, param, threshold_of(problem.huber_delta), base)
                && is_with_penalty_gradient(ar, problem, param, base, grad)
    }
}

fn roughness<A: Arithmetic>(ar: &A, param: &Vec<Double>, eps2: Double, idx: usize) -> (root: Double)
    requires
        2 <= idx < param.len(),
    ensures
        is_roughness(ar, param@, eps2, idx as int, root),
{
    let bend = TrendFilterProblem::curvature(ar, param, idx);
    let inner = ar.fused(bend, bend, eps2);
    let root = ar.square_root(inner);
    assert(is_curvature(ar, param@, idx as int, bend) && answers_fused(ar, bend, bend, eps2, inner)
        && answers_square_root(ar, inner, root));
    root
}

fn tap<A: Arithmetic>(ar: &A, param: &Vec<Double>, lambda: Double, eps2: Double, idx: usize) -> (g:
    Double)
    requires
        2 <= idx < param.len(),
    ensures
        is_tap(ar, param@, lambda, eps2, idx as int, g),
{
    let bend = TrendFilterProblem::curvature(ar, param, idx);
    let inner = ar.fused(bend, bend, eps2);
    let root = ar.square_root(inner);
    let g = if root.is_positive() {
        let scaled = ar.product(lambda, bend);
        let g = ar.quotient(scaled, root);
        assert(answers_product(ar, lambda, bend, scaled) && answers_quotient(ar, scaled, root, g));
        g
    } else {
        Double::zero()
    };
    assert(is_curvature(ar, param@, idx as int, bend) && answers_fused(ar, bend, bend, eps2, inner)
        && answers_square_root(ar, inner, root) && is_tap_value(ar, lambda, bend, root, g));
    g
}

} // verus!
