//! Planning of the heteroskedasticity weights: which differences each local
//! volatility averages, which of them is the reference, and the band a
//! weight is held to.

use vstd::prelude::*;
use crate::arith::{Arithmetic, answers_count, answers_difference, answers_quotient, answers_sum};
use crate::ieee::Double;
use crate::rank::{all_numbers, is_order_statistic, order_statistic};
use crate::stats::is_total;

verus! {

/// Width, in days, of the trailing window a local volatility averages over.
pub const HETERO_WINDOW: usize = 21;

/// `0.6`: the least weight.
pub const HETERO_MIN_BITS: u64 = 0x3FE3_3333_3333_3333;

/// `2.5`: the greatest weight.
pub const HETERO_MAX_BITS: u64 = 0x4004_0000_0000_0000;

/// The least weight, `0.6`.
pub open spec fn min_weight() -> Double {
    Double { bits: HETERO_MIN_BITS }
}

/// The greatest weight, `2.5`.
pub open spec fn max_weight() -> Double {
    Double { bits: HETERO_MAX_BITS }
}

/// First index of the window that ends at `idx`: the window holds at most
/// 21 differences and never the one at index 0, which no day has.
pub open spec fn window_start(idx: int) -> int {
    if idx - (HETERO_WINDOW - 1) > 1 {
        idx - (HETERO_WINDOW - 1)
    } else {
        1
    }
}

/// Number of differences in the window that ends at `idx`.
pub open spec fn window_count(idx: int) -> int {
    idx - window_start(idx) + 1
}

/// The stretch of day-over-day differences that the local volatility at one index averages.
#[derive(Clone, Copy, Debug, PartialEq, Eq, Structural)]
pub struct Window {
    /// Index of the first difference.
    pub start: usize,
    /// Number of differences, up to and including the one at the index itself.
    pub count: usize,
}

/// The window of the local volatility at `idx`.
pub fn trailing_window(idx: usize) -> (w: Window)
    requires
        idx >= 1,
    ensures
        w.start == window_start(idx as int),
        w.count == window_count(idx as int),
        1 <= w.start <= idx,
        1 <= w.count <= HETERO_WINDOW,
        w.start + w.count == idx + 1,
{
    let back: usize = if idx >= HETERO_WINDOW - 1 {
        idx - (HETERO_WINDOW - 1)
    } else {
        0
    };
    let start: usize = if back > 1 {
        back
    } else {
        1
    };
    Window { start, count: idx - start + 1 }
}

/// Rank of the reference among the local volatilities of the days after the
/// first, counted from 0 in ascending order: the upper median.
pub open spec fn reference_rank(n: int) -> int {
    (n - 1) / 2
}

/// Where the reference volatility stands among the `n - 1` volatilities of
/// the days after the first, once they are in ascending order; `None` for a
/// series too short to have any.
pub fn median_rank(n: usize) -> (r: Option<usize>)
    ensures
        r.is_some() <==> n >= 2,
        r.is_some() ==> r.unwrap() == reference_rank(n as int) && r.unwrap() < n - 1,
{
    if n >= 2 {
        Some((n - 1) / 2)
    } else {
        None
    }
}

/// Whether a reference volatility can divide the others: a finite number above zero.
pub open spec fn reference_usable(median: Double) -> bool {
    median.finite() && median.positive()
}

/// Decides whether the reference volatility can be used; where it cannot,
/// every weight is one.
pub fn is_reference_usable(median: Double) -> (b: bool)
    ensures
        b == reference_usable(median),
{
    median.is_finite() && median.is_positive()
}

/// Holds a weight to the band from `0.6` to `2.5`.
pub fn clamp_weight(ratio: Double) -> (w: Double)
    ensures
        w == ratio.clamp_spec(min_weight(), max_weight()),
        !ratio.nan() ==> min_weight().le_spec(w) && w.le_spec(max_weight()),
        ratio.nan() ==> w == ratio,
{
    ratio.clamp(Double::from_bits(HETERO_MIN_BITS), Double::from_bits(HETERO_MAX_BITS))
}

/// The weights of a series whose volatility gives no reference: `n` times one.
pub fn unit_weights(n: usize) -> (w: Vec<Double>)
    ensures
        w.len() == n,
        forall|i: int| 0 <= i < n ==> #[trigger] w[i] == Double::one_spec(),
{
    let mut w: Vec<Double> = Vec::new();
    let mut i: usize = 0;
    while i < n
        invariant
            i <= n,
            w.len() == i,
            forall|k: int| 0 <= k < i ==> #[trigger] w[k] == Double::one_spec(),
        decreases n - i,
    {
        w.push(Double::one());
        i = i + 1;
    }
    w
}

/// A weight is a number in the band from `0.6` to `2.5`.
pub open spec fn weight_in_band(w: Double) -> bool {
    min_weight().le_spec(w) && w.le_spec(max_weight())
}

/// Every one of `n` weights is one.
pub open spec fn all_ones(weights: Seq<Double>, n: nat) -> bool {
    weights.len() == n && forall|i: int| 0 <= i < weights.len() ==> #[trigger] weights[i]
        == Double::one_spec()
}

/// `r` is the absolute value of the arithmetic's answer for `a - b`.
pub open spec fn is_absolute_difference<A: Arithmetic>(ar: &A, a: Double, b: Double, r: Double) -> bool {
    exists|d: Double| #[trigger] answers_difference(ar, a, b, d) && r == d.abs_spec()
}

/// `diffs` holds the absolute day-over-day differences of `series`, with a
/// zero where the first day has none.
pub open spec fn are_absolute_differences<A: Arithmetic>(
    ar: &A,
    series: Seq<Double>,
    diffs: Seq<Double>,
) -> bool {
    &&& diffs.len() == series.len()
    &&& diffs.len() > 0 ==> diffs[0] == Double::zero_spec()
    &&& forall|i: int|
        1 <= i < diffs.len() ==> is_absolute_difference(
            ar,
            series[i],
            series[i - 1],
            #[trigger] diffs[i],
        )
}

/// `r` is the local volatility at `idx`: the sum of the differences in the
/// trailing window, over the arithmetic's number for how many they are.
pub open spec fn is_local_volatility<A: Arithmetic>(
    ar: &A,
    diffs: Seq<Double>,
    idx: int,
    r: Double,
) -> bool {
    exists|sum: Double, count: Double|
        is_total(ar, diffs.subrange(window_start(idx), idx + 1), sum) && answers_count(
            ar,
            window_count(idx) as usize,
            count,
        ) && #[trigger] answers_quotient(ar, sum, count, r)
}

/// `vol` holds the local volatility of every index; the first index takes
/// that of the second.
pub open spec fn are_local_volatilities<A: Arithmetic>(
    ar: &A,
    diffs: Seq<Double>,
    vol: Seq<Double>,
) -> bool {
    &&& vol.len() == diffs.len()
    &&& vol.len() >= 2 ==> vol[0] == vol[1]
    &&& forall|i: int| 1 <= i < vol.len() ==> is_local_volatility(ar, diffs, i, #[trigger] vol[i])
}

/// The weight for a ratio of volatilities: the ratio held to the band, and
/// one where the ratio is no number.
pub open spec fn weight_of(ratio: Double) -> Double {
    if ratio.nan() {
        Double::one_spec()
    } else {
        ratio.clamp_spec(min_weight(), max_weight())
    }
}

/// `w` is the weight of a day with local volatility `v`, given the
/// reference volatility: the arithmetic's answer for `v / median`, held to
/// the band.
pub open spec fn is_weight<A: Arithmetic>(ar: &A, v: Double, median: Double, w: Double) -> bool {
    exists|ratio: Double| #[trigger] answers_quotient(ar, v, median, ratio) && w == weight_of(ratio)
}

/// `weights` are the weights that the local volatilities `vol` give. The
/// reference is the upper median of the volatilities after the first.
/// Where one of those is no number, or the reference is not a finite number
/// above zero, every weight is one. Otherwise each weight after the first is
/// the volatility over the reference, held to the band, and the first
/// weight is the second.
pub open spec fn are_weights_over<A: Arithmetic>(
    ar: &A,
    vol: Seq<Double>,
    weights: Seq<Double>,
) -> bool {
    if !all_numbers(vol.skip(1)) {
        all_ones(weights, vol.len())
    } else {
        exists|median: Double| #[trigger]
            is_order_statistic(vol.skip(1), reference_rank(vol.len() as int), median) && (
            if !reference_usable(median) {
                all_ones(weights, vol.len())
            } else {
                &&& weights.len() == vol.len()
                &&& weights[0] == weights[1]
                &&& forall|i: int|
                    1 <= i < weights.len() ==> is_weight(ar, vol[i], median, #[trigger] weights[i])
            })
    }
}

/// `weights` are the heteroskedasticity weights of `series`: all one for a
/// series of fewer than two values, else the weights that its local
/// volatilities give.
pub open spec fn are_volatility_weights<A: Arithmetic>(
    ar: &A,
    series: Seq<Double>,
    weights: Seq<Double>,
) -> bool {
    if series.len() < 2 {
        all_ones(weights, series.len())
    } else {
        exists|diffs: Seq<Double>, vol: Seq<Double>|
            are_absolute_differences(ar, series, diffs) && #[trigger] are_local_volatilities(
                ar,
                diffs,
                vol,
            ) && are_weights_over(ar, vol, weights)
    }
}

/// The absolute day-over-day differences of a series, with a zero where
/// the first day has none.
pub fn absolute_differences<A: Arithmetic>(ar: &A, series: &Vec<Double>) -> (diffs: Vec<Double>)
    requires
        series.len() >= 1,
    ensures
        are_absolute_differences(ar, series@, diffs@),
        forall|i: int| 0 <= i < diffs.len() ==> !(#[trigger] diffs[i]).sign_set(),
{
    let mut diffs: Vec<Double> = Vec::new();
    diffs.push(Double::zero());
    let mut idx: usize = 1;
    while idx < series.len()
        invariant
            1 <= idx <= series.len(),
            diffs.len() == idx,
            diffs[0] == Double::zero_spec(),
            forall|i: int| 0 <= i < diffs.len() ==> !(#[trigger] diffs[i]).sign_set(),
            forall|i: int|
                1 <= i < diffs.len() ==> is_absolute_difference(
                    ar,
                    series[i],
                    series[i - 1],
                    #[trigger] diffs[i],
                ),
        decreases series.len() - idx,
    {
        let d = ar.difference(series[idx], series[idx - 1]);
        assert(answers_difference(ar, series[idx as int], series[idx - 1], d));
        diffs.push(d.abs());
        idx = idx + 1;
    }
    diffs
}

fn window_total<A: Arithmetic>(ar: &A, diffs: &Vec<Double>, start: usize, end: usize) -> (r: Double)
    requires
        start <= end <= diffs.len(),
    ensures
        is_total(ar, diffs@.subrange(start as int, end as int), r),
{
    let mut sum = Double::zero();
    let mut j: usize = start;
    assert(diffs@.subrange(start as int, start as int).len() == 0);
    while j < end
        invariant
            start <= j <= end <= diffs.len(),
            is_total(ar, diffs@.subrange(start as int, j as int), sum),
        decreases end - j,
    {
        let ghost before = sum;
        sum = ar.sum(sum, diffs[j]);
        proof {
            let longer = diffs@.subrange(start as int, j + 1);
            assert(longer.drop_last() =~= diffs@.subrange(start as int, j as int));
            assert(longer.last() == diffs[j as int]);
            assert(is_total(ar, longer.drop_last(), before) && answers_sum(
                ar,
                before,
                longer.last(),
                sum,
            ));
            assert(is_total(ar, longer, sum));
        }
        j = j + 1;
    }
    sum
}

/// The local volatility at every index: the mean of the absolute
/// differences over the trailing window; the first index takes that of the
/// second.
#[verifier::rlimit(50)]
pub fn local_volatility<A: Arithmetic>(ar: &A, diffs: &Vec<Double>) -> (vol: Vec<Double>)
    requires
        diffs.len() >= 2,
    ensures
        are_local_volatilities(ar, diffs@, vol@),
{
    let n = diffs.len();
    let mut vol: Vec<Double> = Vec::new();
    vol.push(Double::zero());
    let mut idx: usize = 1;
    while idx < n
        invariant
            1 <= idx <= n,
            n == diffs.len(),
            vol.len() == idx,
            forall|i: int| 1 <= i < vol.len() ==> is_local_volatility(ar, diffs@, i, #[trigger] vol[i]),
        decreases n - idx,
    {
        let w = trailing_window(idx);
        let sum = window_total(ar, diffs, w.start, idx + 1);
        let count = ar.of_count(w.count);
        let v = ar.quotient(sum, count);
        assert(is_total(ar, diffs@.subrange(window_start(idx as int), idx + 1), sum)
            && answers_count(ar, window_count(idx as int) as usize, count) && answers_quotient(
            ar,
            sum,
            count,
            v,
        ));
        vol.push(v);
        idx = idx + 1;
    }
    let second = vol[1];
    vol.set(0, second);
    vol
}

/// The weight of a day with local volatility `v` under the reference `median`.
pub fn weight<A: Arithmetic>(ar: &A, v: Double, median: Double) -> (w: Double)
    ensures
        is_weight(ar, v, median, w),
        weight_in_band(w),
{
    let ratio = ar.quotient(v, median);
    assert(answers_quotient(ar, v, median, ratio));
    if ratio.is_nan() {
        Double::one()
    } else {
        clamp_weight(ratio)
    }
}

/// The heteroskedasticity weights of a series, one per value: the local
/// volatility over its median, held to the band from `0.6` to `2.5`. Where
/// the series has a single value, or its volatility gives no usable median,
/// every weight is one.
#[verifier::rlimit(50)]
pub fn volatility_weights<A: Arithmetic>(ar: &A, series: &Vec<Double>) -> (weights: Vec<Double>)
    ensures
        are_volatility_weights(ar, series@, weights@),
        weights.len() == series.len(),
        series.len() == 1 ==> weights[0] == Double::one_spec(),
        series.len() >= 2 ==> weights[0] == weights[1],
        forall|i: int| 0 <= i < weights.len() ==> weight_in_band(#[trigger] weights[i]),
{
    let n = series.len();
    if n < 2 {
        return unit_weights(n);
    }
    let diffs = absolute_differences(ar, series);
    let vol = local_volatility(ar, &diffs);
    let mut sample: Vec<Double> = Vec::new();
    let mut k: usize = 1;
    while k < n
        invariant
            1 <= k <= n,
            n == vol.len(),
            sample@ == vol@.subrange(1, k as int),
        decreases n - k,
    {
        sample.push(vol[k]);
        assert(sample@ =~= vol@.subrange(1, k + 1));
        k = k + 1;
    }
    assert(sample@ =~= vol@.skip(1));
    let mid = match median_rank(n) {
        Some(rank) => rank,
        None => {
            return unit_weights(n);
        },
    };
    let median = match order_statistic(sample, mid) {
        Some(m) => m,
        None => {
            let ones = unit_weights(n);
            assert(are_weights_over(ar, vol@, ones@));
            return ones;
        },
    };
    if !is_reference_usable(median) {
        let ones = unit_weights(n);
        assert(is_order_statistic(vol@.skip(1), reference_rank(vol.len() as int), median));
        assert(are_weights_over(ar, vol@, ones@));
        return ones;
    }
    let mut weights: Vec<Double> = Vec::new();
    weights.push(Double::one());
    let mut i: usize = 1;
    while i < n
        invariant
            1 <= i <= n,
            n == vol.len(),
            weights.len() == i,
            forall|k: int| 0 <= k < i ==> weight_in_band(#[trigger] weights[k]),
            forall|k: int| 1 <= k < i ==> is_weight(ar, vol[k], median, #[trigger] weights[k]),
        decreases n - i,
    {
        weights.push(weight(ar, vol[i], median));
        i = i + 1;
    }
    let second = weights[1];
    weights.set(0, second);
    proof {
        assert(is_order_statistic(vol@.skip(1), reference_rank(vol.len() as int), median));
        assert(are_weights_over(ar, vol@, weights@));
    }
    weights
}

} // verus!
