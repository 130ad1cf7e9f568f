//! The forecast handed to callers: dated bands, one per day of the horizon.

use vstd::prelude::*;
use crate::calendar::{CivilDay, Date, MAX_YEAR, lemma_plus_days_increasing};
use crate::ieee::Double;

verus! {

/// What a model predicts for one day: the mean, the two bounds of the
/// confidence interval and the variance.
#[derive(Clone, Copy, Debug)]
pub struct Band {
    pub mean: Double,
    pub lower: Double,
    pub upper: Double,
    pub variance: Double,
}

impl Band {
    /// The bounds enclose the mean.
    pub open spec fn ordered(self) -> bool {
        self.lower.le_spec(self.mean) && self.mean.le_spec(self.upper)
    }

    /// Decides whether the bounds enclose the mean.
    pub fn is_ordered(&self) -> (b: bool)
        ensures
            b == self.ordered(),
    {
        self.lower.le(self.mean) && self.mean.le(self.upper)
    }
}

/// Every band has bounds that enclose its mean, and a variance that is a
/// number at or above zero.
pub open spec fn bands_sound(bands: Seq<Band>) -> bool {
    forall|i: int|
        0 <= i < bands.len() ==> (#[trigger] bands[i]).ordered() && Double::zero_spec().le_spec(
            bands[i].variance,
        )
}

/// Decides whether every band has bounds that enclose its mean and a
/// variance that is not negative.
pub fn are_bands_sound(bands: &Vec<Band>) -> (b: bool)
    ensures
        b == bands_sound(bands@),
{
    let zero = Double::zero();
    let mut i: usize = 0;
    while i < bands.len()
        invariant
            i <= bands.len(),
            zero == Double::zero_spec(),
            forall|k: int|
                0 <= k < i ==> (#[trigger] bands[k]).ordered() && Double::zero_spec().le_spec(
                    bands[k].variance,
                ),
        decreases bands.len() - i,
    {
        if !(bands[i].is_ordered() && zero.le(bands[i].variance)) {
            return false;
        }
        i = i + 1;
    }
    true
}

/// A forecast: five parallel sequences, one entry per day.
#[derive(Clone, Debug)]
pub struct Forecast {
    pub dates: Vec<Date>,
    pub mean: Vec<Double>,
    pub lower: Vec<Double>,
    pub upper: Vec<Double>,
    pub variance: Vec<Double>,
}

/// Why no forecast could be dated.
#[derive(Clone, Copy, Debug, PartialEq, Eq, Structural)]
pub enum ForecastError {
    /// The horizon runs past the last day of the year 9999.
    HorizonPastCalendar,
    /// On some day the bounds do not enclose the mean, or the variance is
    /// negative or no number.
    DegenerateBand,
}

/// Whether every day of a horizon of `horizon` days after `last` can be written as a date.
pub open spec fn horizon_fits(last: CivilDay, horizon: nat) -> bool {
    horizon == 0 || last.plus_days(horizon).year <= MAX_YEAR
}

/// The days of a horizon: `horizon` consecutive days, the first one the day after `last_date`.
pub fn forecast_dates(last_date: Date, horizon: usize) -> (r: Result<Vec<Date>, ForecastError>)
    requires
        last_date.wf(),
    ensures
        r.is_ok() <==> horizon_fits(last_date@, horizon as nat),
        r.is_ok() ==> {
            let dates = r.unwrap();
            &&& dates.len() == horizon
            &&& forall|i: int|
                0 <= i < horizon ==> (#[trigger] dates[i])@ == last_date@.plus_days((i + 1) as nat)
                    && dates[i].wf()
            &&& forall|i: int, j: int|
                0 <= i < j < horizon ==> (#[trigger] dates[i])@.before((#[trigger] dates[j])@)
        },
{
    let mut dates: Vec<Date> = Vec::new();
    let mut current = last_date;
    let mut step: usize = 0;
    while step < horizon
        invariant
            last_date.wf(),
            step <= horizon,
            dates.len() == step,
            current.wf(),
            current@ == last_date@.plus_days(step as nat),
            forall|i: int|
                0 <= i < step ==> (#[trigger] dates[i])@ == last_date@.plus_days((i + 1) as nat)
                    && dates[i].wf(),
        decreases horizon - step,
    {
        match current.succ() {
            Some(next) => {
                dates.push(next);
                current = next;
                step = step + 1;
            },
            None => {
                proof {
                    assert(last_date@.plus_days((step + 1) as nat).year > MAX_YEAR);
                    if step + 1 < horizon {
                        lemma_plus_days_increasing(
                            last_date@,
                            (step + 1) as nat,
                            horizon as nat,
                        );
                    }
                }
                return Err(ForecastError::HorizonPastCalendar);
            },
        }
    }
    proof {
        assert forall|i: int, j: int| 0 <= i < j < horizon implies (#[trigger] dates[i])@.before(
            (#[trigger] dates[j])@,
        ) by {
            lemma_plus_days_increasing(last_date@, (i + 1) as nat, (j + 1) as nat);
        }
    }
    Ok(dates)
}

impl Forecast {
    /// The five sequences have one length.
    pub open spec fn wf(self) -> bool {
        &&& self.mean.len() == self.dates.len()
        &&& self.lower.len() == self.dates.len()
        &&& self.upper.len() == self.dates.len()
        &&& self.variance.len() == self.dates.len()
    }

    /// Number of days.
    pub open spec fn spec_len(self) -> nat {
        self.dates.len() as nat
    }

    /// The band of day `i`.
    pub open spec fn band(self, i: int) -> Band {
        Band {
            mean: self.mean[i],
            lower: self.lower[i],
            upper: self.upper[i],
            variance: self.variance[i],
        }
    }

    /// The forecast holds exactly these bands, one per day and in this order.
    pub open spec fn holds(self, bands: Seq<Band>) -> bool {
        self.dates.len() == bands.len() && forall|i: int|
            0 <= i < bands.len() ==> #[trigger] self.band(i) == bands[i]
    }

    /// On every day the bounds enclose the mean.
    pub open spec fn bands_ordered(self) -> bool {
        forall|i: int| 0 <= i < self.dates.len() ==> (#[trigger] self.band(i)).ordered()
    }

    /// No variance is negative (or NaN).
    pub open spec fn variances_non_negative(self) -> bool {
        forall|i: int|
            0 <= i < self.dates.len() ==> Double::zero_spec().le_spec(#[trigger] self.variance[i])
    }

    /// The variance never shrinks from one day to the next.
    pub open spec fn variance_non_decreasing(self) -> bool {
        forall|i: int|
            0 <= i && i + 1 < self.dates.len() ==> (#[trigger] self.variance[i]).le_spec(
                self.variance[i + 1],
            )
    }

    /// The dates are consecutive days, the first one the day after `last`.
    pub open spec fn follows(self, last: CivilDay) -> bool {
        forall|i: int|
            0 <= i < self.dates.len() ==> (#[trigger] self.dates[i])@ == last.plus_days(
                (i + 1) as nat,
            ) && self.dates[i].wf()
    }

    /// Number of days.
    pub fn len(&self) -> (n: usize)
        ensures
            n == self.spec_len(),
    {
        self.dates.len()
    }

    /// Dates the bands of a horizon: band `i` is that of the day `i + 1`
    /// days after `last_date`. No bands give the empty forecast.
    pub fn dated(last_date: Date, bands: &Vec<Band>) -> (r: Result<Forecast, ForecastError>)
        requires
            last_date.wf(),
        ensures
            r.is_ok() <==> horizon_fits(last_date@, bands.len() as nat),
            r.is_ok() ==> {
                let f = r.unwrap();
                &&& f.wf()
                &&& f.dates.len() == bands.len()
                &&& f.follows(last_date@)
                &&& forall|i: int| 0 <= i < bands.len() ==> #[trigger] f.band(i) == bands[i]
                &&& forall|i: int, j: int|
                    0 <= i < j < bands.len() ==> (#[trigger] f.dates[i])@.before(
                        (#[trigger] f.dates[j])@,
                    )
            },
    {
        let dates = match forecast_dates(last_date, bands.len()) {
            Ok(dates) => dates,
            Err(e) => {
                return Err(e);
            },
        };
        let mut mean: Vec<Double> = Vec::new();
        let mut lower: Vec<Double> = Vec::new();
        let mut upper: Vec<Double> = Vec::new();
        let mut variance: Vec<Double> = Vec::new();
        let mut i: usize = 0;
        while i < bands.len()
            invariant
                i <= bands.len(),
                mean.len() == i,
                lower.len() == i,
                upper.len() == i,
                variance.len() == i,
                forall|k: int|
                    0 <= k < i ==> mean[k] == (#[trigger] bands[k]).mean && lower[k]
                        == bands[k].lower && upper[k] == bands[k].upper && variance[k]
                        == bands[k].variance,
            decreases bands.len() - i,
        {
            let b = bands[i];
            mean.push(b.mean);
            lower.push(b.lower);
            upper.push(b.upper);
            variance.push(b.variance);
            i = i + 1;
        }
        let f = Forecast { dates, mean, lower, upper, variance };
        assert forall|k: int| 0 <= k < bands.len() implies #[trigger] f.band(k) == bands[k] by {
            assert(f.mean[k] == bands[k].mean);
        }
        Ok(f)
    }

    /// Decides whether on every day the bounds enclose the mean.
    pub fn has_ordered_bands(&self) -> (b: bool)
        requires
            self.wf(),
        ensures
            b == self.bands_ordered(),
    {
        let mut i: usize = 0;
        while i < self.dates.len()
            invariant
                self.wf(),
                i <= self.dates.len(),
                forall|k: int| 0 <= k < i ==> (#[trigger] self.band(k)).ordered(),
            decreases self.dates.len() - i,
        {
            let b = Band {
                mean: self.mean[i],
                lower: self.lower[i],
                upper: self.upper[i],
                variance: self.variance[i],
            };
            if !b.is_ordered() {
                assert(!self.band(i as int).ordered());
                return false;
            }
            i = i + 1;
        }
        true
    }

    /// Decides whether no variance is negative or NaN.
    pub fn has_non_negative_variances(&self) -> (b: bool)
        requires
            self.wf(),
        ensures
            b == self.variances_non_negative(),
    {
        let zero = Double::zero();
        let mut i: usize = 0;
        while i < self.variance.len()
            invariant
                self.wf(),
                zero == Double::zero_spec(),
                i <= self.variance.len(),
                forall|k: int| 0 <= k < i ==> zero.le_spec(#[trigger] self.variance[k]),
            decreases self.variance.len() - i,
        {
            if !zero.le(self.variance[i]) {
                return false;
            }
            i = i + 1;
        }
        true
    }

    /// Decides whether the variance never shrinks over the horizon.
    pub fn has_non_decreasing_variance(&self) -> (b: bool)
        requires
            self.wf(),
        ensures
            b == self.variance_non_decreasing(),
    {
        let mut i: usize = 1;
        while i < self.variance.len()
            invariant
                self.wf(),
                1 <= i,
                forall|k: int|
                    0 <= k && k + 1 < i ==> (#[trigger] self.variance[k]).le_spec(
                        self.variance[k + 1],
                    ),
            decreases self.variance.len() - i,
        {
            if !self.variance[i - 1].le(self.variance[i]) {
                assert(!self.variance[i - 1].le_spec(self.variance[(i - 1) + 1]));
                return false;
            }
            i = i + 1;
        }
        true
    }
}

} // verus!
