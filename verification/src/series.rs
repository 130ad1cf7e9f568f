//! From the days that were observed to the dense daily series the models
//! are trained on.

use vstd::prelude::*;
use crate::arith::{
    Arithmetic, answers_count, answers_difference, answers_product, answers_quotient, answers_sum,
};
use crate::calendar::{CivilDay, Date, lemma_next_is_later};
use crate::ieee::Double;

verus! {

/// No day at or after `from` and before `to` has a value.
pub open spec fn none_known(observed: Seq<Option<Double>>, from: int, to: int) -> bool {
    forall|j: int| from <= j < to && 0 <= j < observed.len() ==> (#[trigger] observed[j]).is_none()
}

/// `k` is the first day with a value.
pub open spec fn is_first_known(observed: Seq<Option<Double>>, k: int) -> bool {
    0 <= k < observed.len() && observed[k].is_some() && none_known(observed, 0, k)
}

/// `k` is the last day with a value.
pub open spec fn is_last_known(observed: Seq<Option<Double>>, k: int) -> bool {
    0 <= k < observed.len() && observed[k].is_some() && none_known(
        observed,
        k + 1,
        observed.len() as int,
    )
}

/// The days `a` and `b` have a value and no day between them has one.
pub open spec fn is_gap(observed: Seq<Option<Double>>, a: int, b: int) -> bool {
    0 <= a < b < observed.len() && observed[a].is_some() && observed[b].is_some() && none_known(
        observed,
        a + 1,
        b,
    )
}

/// `ratio` is how far along a gap of `gap` days the day at `offset` lies:
/// the arithmetic's answer for `(offset + 1) / gap`.
pub open spec fn is_line_share<A: Arithmetic>(
    ar: &A,
    gap: usize,
    offset: usize,
    ratio: Double,
) -> bool {
    exists|pos: Double, up: Double, count: Double|
        #![trigger
            answers_sum(ar, pos, Double::one_spec(), up),
            answers_quotient(ar, up, count, ratio)
        ]
        answers_count(ar, offset, pos) && answers_sum(ar, pos, Double::one_spec(), up)
            && answers_count(ar, gap, count) && answers_quotient(ar, up, count, ratio)
}

/// `r` lies on the straight line from `start` to `end` over a gap of `gap`
/// days, at the day `offset`: `start + (end - start) * share`.
pub open spec fn is_on_line<A: Arithmetic>(
    ar: &A,
    start: Double,
    end: Double,
    gap: usize,
    offset: usize,
    r: Double,
) -> bool {
    exists|rise: Double, ratio: Double, climb: Double|
        #![trigger answers_product(ar, rise, ratio, climb), answers_sum(ar, start, climb, r)]
        answers_difference(ar, end, start, rise) && is_line_share(ar, gap, offset, ratio)
            && answers_product(ar, rise, ratio, climb) && answers_sum(ar, start, climb, r)
}

/// What filling the gaps gives: a day with a value keeps it, a day between
/// two values lies on the straight line from the one to the other, the days
/// before the first value take the first, the days after the last value
/// take the last, and a series without any value is zero throughout.
pub open spec fn gaps_filled<A: Arithmetic>(
    ar: &A,
    observed: Seq<Option<Double>>,
    filled: Seq<Double>,
) -> bool {
    &&& filled.len() == observed.len()
    &&& forall|a: int, b: int, i: int|
        #![trigger is_gap(observed, a, b), filled[i]]
        is_gap(observed, a, b) && a < i < b ==> is_on_line(
            ar,
            observed[a].unwrap(),
            observed[b].unwrap(),
            (b - a) as usize,
            (i - a - 1) as usize,
            filled[i],
        )
    &&& forall|i: int|
        0 <= i < observed.len() && (#[trigger] observed[i]).is_some() ==> filled[i]
            == observed[i].unwrap()
    &&& forall|i: int, k: int|
        is_first_known(observed, k) && 0 <= i < k ==> #[trigger] filled[i]
            == (#[trigger] observed[k]).unwrap()
    &&& forall|i: int, k: int|
        is_last_known(observed, k) && k < i < observed.len() ==> #[trigger] filled[i]
            == (#[trigger] observed[k]).unwrap()
    &&& none_known(observed, 0, observed.len() as int) ==> forall|i: int|
        0 <= i < filled.len() ==> #[trigger] filled[i] == Double::zero_spec()
}

fn push_times(out: &mut Vec<Double>, value: Double, times: usize)
    ensures
        final(out).len() == old(out).len() + times,
        forall|i: int| 0 <= i < old(out).len() ==> final(out)[i] == old(out)[i],
        forall|i: int| old(out).len() <= i < final(out).len() ==> final(out)[i] == value,
{
    let mut t: usize = 0;
    while t < times
        invariant
            t <= times,
            out.len() == old(out).len() + t,
            forall|i: int| 0 <= i < old(out).len() ==> out[i] == old(out)[i],
            forall|i: int| old(out).len() <= i < out.len() ==> out[i] == value,
        decreases times - t,
    {
        out.push(value);
        t = t + 1;
    }
}

#[verifier::rlimit(50)]
fn push_line<A: Arithmetic>(
    ar: &A,
    out: &mut Vec<Double>,
    start_val: Double,
    end_val: Double,
    gap: usize,
)
    requires
        gap >= 1,
    ensures
        final(out).len() == old(out).len() + gap - 1,
        forall|i: int| 0 <= i < old(out).len() ==> final(out)[i] == old(out)[i],
        forall|j: int|
            0 <= j < gap - 1 ==> is_on_line(
                ar,
                start_val,
                end_val,
                gap,
                j as usize,
                #[trigger] final(out)[old(out).len() + j],
            ),
{
    let rise = ar.difference(end_val, start_val);
    let mut offset: usize = 0;
    while offset + 1 < gap
        invariant
            offset + 1 <= gap,
            out.len() == old(out).len() + offset,
            answers_difference(ar, end_val, start_val, rise),
            forall|i: int| 0 <= i < old(out).len() ==> out[i] == old(out)[i],
            forall|j: int|
                0 <= j < offset ==> is_on_line(
                    ar,
                    start_val,
                    end_val,
                    gap,
                    j as usize,
                    #[trigger] out[old(out).len() + j],
                ),
        decreases gap - offset,
    {
        let pos = ar.of_count(offset);
        let up = ar.sum(pos, Double::one());
        let count = ar.of_count(gap);
        let ratio = ar.quotient(up, count);
        assert(answers_count(ar, offset, pos) && answers_sum(ar, pos, Double::one_spec(), up)
            && answers_count(ar, gap, count) && answers_quotient(ar, up, count, ratio));
        let climb = ar.product(rise, ratio);
        let value = ar.sum(start_val, climb);
        assert(answers_difference(ar, end_val, start_val, rise) && is_line_share(
            ar,
            gap,
            offset,
            ratio,
        ) && answers_product(ar, rise, ratio, climb) && answers_sum(ar, start_val, climb, value));
        assert(is_on_line(ar, start_val, end_val, gap, offset, value));
        let ghost before = out@;
        out.push(value);
        assert forall|j: int| 0 <= j < offset + 1 implies is_on_line(
            ar,
            start_val,
            end_val,
            gap,
            j as usize,
            #[trigger] out[old(out).len() + j],
        ) by {
            if j < offset {
                assert(out[old(out).len() + j] == before[old(out).len() + j]);
            }
        }
        offset = offset + 1;
    }
}

/// Fills the gaps of a daily series: between two values by the straight
/// line from the one to the other, before the first and after the last by
/// carrying that value on.
#[verifier::rlimit(50)]
pub fn interpolate_series<A: Arithmetic>(ar: &A, observed: &Vec<Option<Double>>) -> (filled: Vec<
    Double,
>)
    ensures
        gaps_filled(ar, observed@, filled@),
{
    let n = observed.len();
    let mut out: Vec<Double> = Vec::new();
    let mut last_known: Option<(usize, Double)> = None;
    let ghost mut first: int = 0;
    let mut idx: usize = 0;
    while idx < n
        invariant
            idx <= n,
            n == observed.len(),
            match last_known {
                Some((k, v)) => k < idx && out.len() == k + 1 && observed[k as int] == Some(v)
                    && none_known(observed@, k + 1, idx as int) && is_first_known(
                    observed@,
                    first,
                ) && first <= k && (forall|i: int|
                    0 <= i < first ==> #[trigger] out[i] == observed[first].unwrap()),
                None => out.len() == 0 && none_known(observed@, 0, idx as int),
            },
            forall|i: int|
                0 <= i < out.len() && (#[trigger] observed[i]).is_some() ==> out[i]
                    == observed[i].unwrap(),
            forall|a: int, b: int, i: int|
                #![trigger is_gap(observed@, a, b), out[i]]
                is_gap(observed@, a, b) && a < i < b < out.len() ==> is_on_line(
                    ar,
                    observed[a].unwrap(),
                    observed[b].unwrap(),
                    (b - a) as usize,
                    (i - a - 1) as usize,
                    out[i],
                ),
        decreases n - idx,
    {
        match observed[idx] {
            None => {},
            Some(end_val) => {
                let ghost before = out@;
                match last_known {
                    Some((start, start_val)) => {
                        push_line(ar, &mut out, start_val, end_val, idx - start);
                    },
                    None => {
                        push_times(&mut out, end_val, idx);
                        proof {
                            first = idx as int;
                        }
                    },
                }
                assert(out.len() == idx);
                let ghost lined = out@;
                out.push(end_val);
                assert forall|a: int, b: int, i: int|
                    #![trigger is_gap(observed@, a, b), out[i]]
                    is_gap(observed@, a, b) && a < i < b < out.len() implies is_on_line(
                    ar,
                    observed[a].unwrap(),
                    observed[b].unwrap(),
                    (b - a) as usize,
                    (i - a - 1) as usize,
                    out[i],
                ) by {
                    assert(out[i] == lined[i]);
                    match last_known {
                        Some((start, start_val)) => {
                            assert(observed[start as int].is_some());
                            if b == idx {
                                assert(a == start);
                                assert(lined[i] == lined[before.len() + (i - a - 1)]);
                            } else {
                                assert(observed[b].is_some());
                                assert(b <= start);
                                assert(lined[i] == before[i]);
                            }
                        },
                        None => {
                            assert(observed[a].is_some());
                        },
                    }
                }
                assert forall|i: int|
                    0 <= i < out.len() && (#[trigger] observed[i]).is_some() implies out[i]
                    == observed[i].unwrap() by {
                    if i < before.len() {
                        assert(out[i] == before[i]);
                    }
                }
                last_known = Some((idx, end_val));
            },
        }
        idx = idx + 1;
    }
    let ghost body = out@;
    match last_known {
        Some((k, tail)) => {
            push_times(&mut out, tail, n - (k + 1));
            proof {
                assert forall|i: int, j: int|
                    is_first_known(observed@, j) && 0 <= i < j implies #[trigger] out[i]
                    == (#[trigger] observed[j]).unwrap() by {
                    assert(observed[first].is_some());
                    assert(j == first);
                    assert(out[i] == body[i]);
                }
                assert forall|i: int, j: int|
                    is_last_known(observed@, j) && j < i < observed.len() implies #[trigger] out[i]
                    == (#[trigger] observed[j]).unwrap() by {
                    assert(observed[k as int].is_some());
                    assert(j == k);
                }
                assert forall|i: int|
                    0 <= i < observed.len() && (#[trigger] observed[i]).is_some() implies out[i]
                    == observed[i].unwrap() by {
                    if i <= k {
                        assert(out[i] == body[i]);
                    }
                }
                assert(!none_known(observed@, 0, observed.len() as int)) by {
                    assert(observed[k as int].is_some());
                }
                assert forall|a: int, b: int, i: int|
                    #![trigger is_gap(observed@, a, b), out[i]]
                    is_gap(observed@, a, b) && a < i < b implies is_on_line(
                    ar,
                    observed[a].unwrap(),
                    observed[b].unwrap(),
                    (b - a) as usize,
                    (i - a - 1) as usize,
                    out[i],
                ) by {
                    assert(observed[b].is_some());
                    assert(b <= k);
                    assert(out[i] == body[i]);
                }
            }
        },
        None => {
            push_times(&mut out, Double::zero(), n);
            assert forall|a: int, b: int| !is_gap(observed@, a, b) by {
                if 0 <= a < observed.len() {
                    assert(observed[a].is_none());
                }
            }
        },
    }
    out
}

/// The occupied area of every day: the one series filled and the other
/// filled, and the second taken from the first.
pub fn occupied_series<A: Arithmetic>(
    ar: &A,
    ru: &Vec<Option<Double>>,
    ua: &Vec<Option<Double>>,
) -> (area: Vec<Double>)
    ensures
        area.len() == (if ru.len() <= ua.len() {
            ru.len()
        } else {
            ua.len()
        }),
        is_occupied(ar, ru@, ua@, area@),
{
    let ru_values = interpolate_series(ar, ru);
    let ua_values = interpolate_series(ar, ua);
    let mut area: Vec<Double> = Vec::new();
    let mut i: usize = 0;
    while i < ru_values.len() && i < ua_values.len()
        invariant
            i <= ru_values.len(),
            i <= ua_values.len(),
            area.len() == i,
            forall|k: int|
                0 <= k < area.len() ==> answers_difference(
                    ar,
                    ru_values[k],
                    ua_values[k],
                    #[trigger] area[k],
                ),
        decreases ru_values.len() - i,
    {
        area.push(ar.difference(ru_values[i], ua_values[i]));
        i = i + 1;
    }
    assert(gaps_filled(ar, ru@, ru_values@) && gaps_filled(ar, ua@, ua_values@)
        && are_differences(ar, ru_values@, ua_values@, area@));
    area
}

/// `area` holds, day by day, the arithmetic's answer for `first - second`,
/// for as many days as both series have.
pub open spec fn are_differences<A: Arithmetic>(
    ar: &A,
    first: Seq<Double>,
    second: Seq<Double>,
    area: Seq<Double>,
) -> bool {
    &&& area.len() == (if first.len() <= second.len() {
        first.len()
    } else {
        second.len()
    })
    &&& forall|k: int|
        0 <= k < area.len() ==> answers_difference(ar, first[k], second[k], #[trigger] area[k])
}

/// `area` is the occupied area of every day: the one series with its gaps
/// filled, less the other with its gaps filled.
pub open spec fn is_occupied<A: Arithmetic>(
    ar: &A,
    ru: Seq<Option<Double>>,
    ua: Seq<Option<Double>>,
    area: Seq<Double>,
) -> bool {
    exists|first: Seq<Double>, second: Seq<Double>|
        #![trigger are_differences(ar, first, second, area)]
        gaps_filled(ar, ru, first) && gaps_filled(ar, ua, second) && are_differences(
            ar,
            first,
            second,
            area,
        )
}

/// A count that grows with the calendar: of two days the later one has the
/// greater count.
pub open spec fn day_count(c: CivilDay) -> int {
    c.year * 372 + (c.month - 1) * 31 + (c.day - 1)
}

/// Every day from `first` to `last`, both included; no day where `last` is
/// the earlier one.
pub fn date_range(first: Date, last: Date) -> (dates: Vec<Date>)
    requires
        first.wf(),
        last.wf(),
    ensures
        last@.before(first@) ==> dates.len() == 0,
        !last@.before(first@) ==> dates.len() > 0 && dates[0] == first && dates[dates.len() - 1]
            == last,
        forall|i: int| 0 <= i < dates.len() ==> (#[trigger] dates[i])@ == first@.plus_days(i as nat)
            && dates[i].wf(),
{
    let mut dates: Vec<Date> = Vec::new();
    if last.is_before(first) {
        return dates;
    }
    let mut current = first;
    dates.push(current);
    while current.is_before(last)
        invariant
            first.wf(),
            last.wf(),
            current.wf(),
            !last@.before(current@),
            dates.len() > 0,
            dates[0] == first,
            dates[dates.len() - 1] == current,
            forall|i: int|
                0 <= i < dates.len() ==> (#[trigger] dates[i])@ == first@.plus_days(i as nat)
                    && dates[i].wf(),
        decreases day_count(last@) - day_count(current@),
    {
        proof {
            lemma_next_is_later(current@);
        }
        let ghost before = dates@;
        match current.succ() {
            Some(next) => {
                current = next;
                dates.push(next);
                assert(first@.plus_days((dates.len() - 1) as nat) == first@.plus_days(
                    (dates.len() - 2) as nat,
                ).next());
            },
            None => {
                return dates;
            },
        }
    }
    dates
}

/// Year of the first day a model is trained on.
pub const TRAINING_START_YEAR: u16 = 2022;

/// Month of the first day a model is trained on.
pub const TRAINING_START_MONTH: u8 = 11;

/// Day of the month of the first day a model is trained on.
pub const TRAINING_START_DAY: u8 = 22;

/// The first day a model is trained on: 22 November 2022.
pub fn training_start() -> (start: Date)
    ensures
        start.wf(),
        start.year == TRAINING_START_YEAR,
        start.month == TRAINING_START_MONTH,
        start.day == TRAINING_START_DAY,
{
    Date { year: TRAINING_START_YEAR, month: TRAINING_START_MONTH, day: TRAINING_START_DAY }
}

/// Where the training window starts in a series of dates: the index of the
/// first date that is not before the cutoff, or the length of the series
/// where every date is before it.
pub fn training_window_start(dates: &Vec<Date>, cutoff: Date) -> (at: usize)
    ensures
        at <= dates.len(),
        forall|i: int| 0 <= i < at ==> (#[trigger] dates[i])@.before(cutoff@),
        at < dates.len() ==> !dates[at as int]@.before(cutoff@),
{
    let mut at: usize = 0;
    while at < dates.len() && dates[at].is_before(cutoff)
        invariant
            at <= dates.len(),
            forall|i: int| 0 <= i < at ==> (#[trigger] dates[i])@.before(cutoff@),
        decreases dates.len() - at,
    {
        at = at + 1;
    }
    at
}

} // verus!
