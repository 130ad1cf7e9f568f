//! Differences and dispersion of a series.

use vstd::prelude::*;
use crate::arith::{
    Arithmetic, answers_count, answers_difference, answers_product, answers_quotient,
    answers_square_root, answers_sum,
};
use crate::ieee::Double;

verus! {

/// `1e-6`: the least standard deviation reported.
pub const MIN_DEVIATION_BITS: u64 = 0x3EB0_C6F7_A0B5_ED8D;

/// The least standard deviation reported, `1e-6`.
pub open spec fn min_deviation() -> Double {
    Double { bits: MIN_DEVIATION_BITS }
}

/// A copy of a sequence of numbers.
pub fn copy_of(values: &Vec<Double>) -> (out: Vec<Double>)
    ensures
        out@ == values@,
{
    let mut out: Vec<Double> = Vec::new();
    let mut i: usize = 0;
    while i < values.len()
        invariant
            i <= values.len(),
            out@ == values@.subrange(0, i as int),
        decreases values.len() - i,
    {
        out.push(values[i]);
        assert(out@ =~= values@.subrange(0, i + 1));
        i = i + 1;
    }
    assert(out@ =~= values@);
    out
}

/// The day-over-day differences of a series: one fewer than its values.
pub fn first_differences<A: Arithmetic>(ar: &A, series: &Vec<Double>) -> (diffs: Vec<Double>)
    ensures
        series.len() == 0 ==> diffs.len() == 0,
        series.len() > 0 ==> diffs.len() == series.len() - 1,
        are_first_differences(ar, series@, diffs@),
{
    let mut diffs: Vec<Double> = Vec::new();
    let mut i: usize = 1;
    while i < series.len()
        invariant
            1 <= i,
            series.len() > 0 ==> i <= series.len(),
            series.len() == 0 ==> i == 1,
            diffs.len() == i - 1,
            forall|k: int|
                0 <= k < diffs.len() ==> answers_difference(
                    ar,
                    series[k + 1],
                    series[k],
                    #[trigger] diffs[k],
                ),
        decreases series.len() - i,
    {
        diffs.push(ar.difference(series[i], series[i - 1]));
        i = i + 1;
    }
    diffs
}

/// Every value of a series divided by a scale.
pub fn rescale<A: Arithmetic>(ar: &A, values: &Vec<Double>, scale: Double) -> (out: Vec<Double>)
    ensures
        is_rescaled(ar, values@, scale, out@),
{
    let mut out: Vec<Double> = Vec::new();
    let mut i: usize = 0;
    while i < values.len()
        invariant
            i <= values.len(),
            out.len() == i,
            forall|k: int|
                0 <= k < out.len() ==> answers_quotient(ar, values[k], scale, #[trigger] out[k]),
        decreases values.len() - i,
    {
        out.push(ar.quotient(values[i], scale));
        i = i + 1;
    }
    out
}

/// The sum of a sequence, added up from the first entry on.
fn total<A: Arithmetic>(ar: &A, values: &Vec<Double>) -> (r: Double)
    ensures
        is_total(ar, values@, r),
{
    let mut acc = Double::zero();
    let mut i: usize = 0;
    assert(values@.take(0).len() == 0);
    while i < values.len()
        invariant
            i <= values.len(),
            is_total(ar, values@.take(i as int), acc),
        decreases values.len() - i,
    {
        let ghost before = acc;
        acc = ar.sum(acc, values[i]);
        proof {
            let longer = values@.take(i + 1);
            assert(longer.drop_last() =~= values@.take(i as int));
            assert(longer.last() == values[i as int]);
            assert(is_total(ar, longer.drop_last(), before) && answers_sum(
                ar,
                before,
                longer.last(),
                acc,
            ));
            assert(is_total(ar, longer, acc));
        }
        i = i + 1;
    }
    assert(values@.take(values.len() as int) =~= values@);
    acc
}

/// `r` is the sum of `values`, added up from the first entry on: zero for
/// no entries, else the arithmetic's answer for the sum of the entries
/// before the last plus the last.
pub open spec fn is_total<A: Arithmetic>(ar: &A, values: Seq<Double>, r: Double) -> bool
    decreases values.len(),
{
    if values.len() == 0 {
        r == Double::zero_spec()
    } else {
        exists|before: Double|
            is_total(ar, values.drop_last(), before) && #[trigger] answers_sum(
                ar,
                before,
                values.last(),
                r,
            )
    }
}

/// `diffs` holds the day-over-day differences of `series`: entry `k` is
/// the arithmetic's answer for `series[k + 1] - series[k]`.
pub open spec fn are_first_differences<A: Arithmetic>(
    ar: &A,
    series: Seq<Double>,
    diffs: Seq<Double>,
) -> bool {
    &&& diffs.len() == (if series.len() == 0 {
        0
    } else {
        series.len() - 1
    })
    &&& forall|k: int|
        0 <= k < diffs.len() ==> answers_difference(ar, series[k + 1], series[k], #[trigger] diffs[k])
}

/// `out` holds `values` divided by `scale`: entry `k` is the arithmetic's
/// answer for `values[k] / scale`.
pub open spec fn is_rescaled<A: Arithmetic>(
    ar: &A,
    values: Seq<Double>,
    scale: Double,
    out: Seq<Double>,
) -> bool {
    &&& out.len() == values.len()
    &&& forall|k: int|
        0 <= k < out.len() ==> answers_quotient(ar, values[k], scale, #[trigger] out[k])
}

/// `r` is the sum of the squared distances of `values` from `mean`, added
/// up from the first entry on.
pub open spec fn is_squared_distance<A: Arithmetic>(
    ar: &A,
    values: Seq<Double>,
    mean: Double,
    r: Double,
) -> bool
    decreases values.len(),
{
    if values.len() == 0 {
        r == Double::zero_spec()
    } else {
        exists|before: Double, diff: Double, square: Double|
            #![trigger answers_product(ar, diff, diff, square), answers_sum(ar, before, square, r)]
            is_squared_distance(ar, values.drop_last(), mean, before) && answers_difference(
                ar,
                values.last(),
                mean,
                diff,
            ) && answers_product(ar, diff, diff, square) && answers_sum(ar, before, square, r)
    }
}

/// `mean` is the mean of `values` and `var` their population variance, `n`
/// being the arithmetic's number for how many there are.
pub open spec fn is_population_variance<A: Arithmetic>(
    ar: &A,
    values: Seq<Double>,
    n: Double,
    mean: Double,
    var: Double,
) -> bool {
    exists|sum: Double, squares: Double|
        is_total(ar, values, sum) && answers_quotient(ar, sum, n, mean) && is_squared_distance(
            ar,
            values,
            mean,
            squares,
        ) && answers_quotient(ar, squares, n, var)
}

/// `root` is the population standard deviation of `values`: the square root
/// of the mean squared distance from the mean.
pub open spec fn is_population_deviation<A: Arithmetic>(
    ar: &A,
    values: Seq<Double>,
    root: Double,
) -> bool {
    exists|n: Double, mean: Double, var: Double|
        answers_count(ar, values.len() as usize, n) && #[trigger] is_population_variance(
            ar,
            values,
            n,
            mean,
            var,
        ) && answers_square_root(ar, var, root)
}

/// `r` is the deviation reported for `values`: one for no entries, else
/// the population standard deviation raised to the floor of `1e-6`.
pub open spec fn is_stddev<A: Arithmetic>(ar: &A, values: Seq<Double>, r: Double) -> bool {
    if values.len() == 0 {
        r == Double::one_spec()
    } else {
        exists|root: Double| #[trigger]
            is_population_deviation(ar, values, root) && r == root.max_spec(min_deviation())
    }
}

fn squared_distance<A: Arithmetic>(ar: &A, values: &Vec<Double>, mean: Double) -> (r: Double)
    ensures
        is_squared_distance(ar, values@, mean, r),
{
    let mut squares = Double::zero();
    let mut i: usize = 0;
    assert(values@.take(0).len() == 0);
    while i < values.len()
        invariant
            i <= values.len(),
            is_squared_distance(ar, values@.take(i as int), mean, squares),
        decreases values.len() - i,
    {
        let ghost before = squares;
        let diff = ar.difference(values[i], mean);
        let square = ar.product(diff, diff);
        squares = ar.sum(squares, square);
        proof {
            let longer = values@.take(i + 1);
            assert(longer.drop_last() =~= values@.take(i as int));
            assert(longer.last() == values[i as int]);
            assert(is_squared_distance(ar, longer.drop_last(), mean, before) && answers_difference(
                ar,
                longer.last(),
                mean,
                diff,
            ) && answers_product(ar, diff, diff, square) && answers_sum(
                ar,
                before,
                square,
                squares,
            ));
            assert(is_squared_distance(ar, longer, mean, squares));
        }
        i = i + 1;
    }
    assert(values@.take(values.len() as int) =~= values@);
    squares
}

/// The population standard deviation of a sequence, floored at `1e-6`; one
/// for a sequence without entries. Whatever the arithmetic answers, the
/// result is a number at or above the floor.
#[verifier::rlimit(50)]
pub fn stddev<A: Arithmetic>(ar: &A, values: &Vec<Double>) -> (r: Double)
    ensures
        is_stddev(ar, values@, r),
        values.len() == 0 ==> r == Double::one_spec(),
        !r.nan(),
        min_deviation().le_spec(r),
        r.positive(),
{
    if values.len() == 0 {
        return Double::one();
    }
    let n = ar.of_count(values.len());
    let sum = total(ar, values);
    let mean = ar.quotient(sum, n);
    let squares = squared_distance(ar, values, mean);
    let var = ar.quotient(squares, n);
    let root = ar.square_root(var);
    proof {
        assert(is_total(ar, values@, sum) && answers_quotient(ar, sum, n, mean)
            && is_squared_distance(ar, values@, mean, squares) && answers_quotient(
            ar,
            squares,
            n,
            var,
        ));
        assert(is_population_variance(ar, values@, n, mean, var));
        assert(answers_count(ar, values@.len() as usize, n) && is_population_variance(
            ar,
            values@,
            n,
            mean,
            var,
        ) && answers_square_root(ar, var, root));
        assert(is_population_deviation(ar, values@, root));
    }
    root.max(Double::from_bits(MIN_DEVIATION_BITS))
}

} // verus!
