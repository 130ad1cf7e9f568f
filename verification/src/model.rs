//! Training and forecasting with the two models. Training is opened here,
//! handed to the caller's optimiser, and closed here; forecasting is done
//! here from the first day to the last.

use vstd::prelude::*;
use crate::arith::{
    Arithmetic, answers_count, answers_difference, answers_fused, answers_power, answers_product,
    answers_quotient, answers_square_root, answers_sum,
};
use crate::calendar::Date;
use crate::config::{
    ConfigError, ModelConfig, TrendFilterConfig, effective_scale, effective_scale_of,
    MIN_EPSILON_BITS,
};
use crate::filter::{
    Covariance, FilterResult, LocalLinearTrendProblem, Noise, Sigmas, TrendState, initial_params,
    is_filter_pass, is_initial_params, is_prediction, is_scaled_noise, is_unpacked, kalman_filter,
    predict_state, scaled_noise, unpack_params, weights_view,
};
use crate::forecast::{
    Band, Forecast, ForecastError, are_bands_sound, bands_sound, forecast_dates, horizon_fits,
};
use crate::ieee::Double;
use crate::objective::Objective;
use crate::stats::{
    are_first_differences, copy_of, first_differences, is_rescaled, is_stddev, rescale, stddev,
};
use crate::trend_filter::TrendFilterProblem;
use crate::weights::{
    are_volatility_weights, clamp_weight, max_weight, min_weight, volatility_weights,
    weight_in_band,
};

verus! {

/// Fewest observations the local-linear-trend model can be fitted to.
pub const MIN_LLT_OBSERVATIONS: usize = 2;

/// Fewest observations the trend filter can be fitted to.
pub const MIN_TREND_FILTER_OBSERVATIONS: usize = 3;

/// `1.96`: the z-score of the two-sided 95% interval.
pub const CONFIDENCE_Z_BITS: u64 = 0x3FFF_5C28_F5C2_8F5C;

/// `1e-12`: a damping this close to one is taken for one.
pub const DAMPING_TOLERANCE_BITS: u64 = 0x3D71_9799_812D_EA11;

/// `1.5`: the Huber threshold derived from the data, in first-difference deviations.
pub const AUTO_DELTA_FACTOR_BITS: u64 = 0x3FF8_0000_0000_0000;

/// `1e-3`: the least Huber threshold derived from the data, and the least residual deviation.
pub const MIN_RESIDUAL_BITS: u64 = 0x3F50_624D_D2F1_A9FC;

/// `1e-4`: the least slope deviation.
pub const MIN_SLOPE_BITS: u64 = 0x3F1A_36E2_EB1C_432D;

/// `0.25`: the floor of the residual deviation, in first-difference deviations.
pub const RESIDUAL_FLOOR_FACTOR_BITS: u64 = 0x3FD0_0000_0000_0000;

/// `0.10`: the floor of the slope deviation, in first-difference deviations.
pub const SLOPE_FLOOR_FACTOR_BITS: u64 = 0x3FB9_9999_9999_999A;

/// The z-score of the interval, `1.96`.
pub open spec fn confidence_z() -> Double {
    Double { bits: CONFIDENCE_Z_BITS }
}

/// The least residual deviation, `1e-3`.
pub open spec fn min_residual() -> Double {
    Double { bits: MIN_RESIDUAL_BITS }
}

/// The least slope deviation, `1e-4`.
pub open spec fn min_slope() -> Double {
    Double { bits: MIN_SLOPE_BITS }
}

/// Why a training attempt ended without a model. None of them is worth a retry.
#[derive(Clone, Copy, Debug, PartialEq, Eq, Structural)]
pub enum TrainError {
    /// The configuration breaks one of its rules.
    Config(ConfigError),
    /// Dates or values are empty, or there are not as many of the one as of the other.
    EmptyOrMismatched,
    /// The series is shorter than the model needs.
    TooFewObservations { needed: usize },
    /// The optimiser ended without parameters.
    NoParameters,
    /// The optimiser's parameters give no model: a deviation that is not
    /// finite, or a trend of another length than the series.
    UnusableParameters,
}

/// What the shape of a series says about a training attempt that needs `needed` observations.
pub open spec fn shape_verdict(n_dates: nat, n_values: nat, needed: nat) -> Result<
    (),
    TrainError,
> {
    if n_dates == 0 || n_values == 0 || n_dates != n_values {
        Err(TrainError::EmptyOrMismatched)
    } else if n_values < needed {
        Err(TrainError::TooFewObservations { needed: needed as usize })
    } else {
        Ok(())
    }
}

/// Holds the shape of a series to what a model needs.
pub fn check_series_shape(n_dates: usize, n_values: usize, needed: usize) -> (r: Result<
    (),
    TrainError,
>)
    ensures
        r == shape_verdict(n_dates as nat, n_values as nat, needed as nat),
{
    if n_dates == 0 || n_values == 0 || n_dates != n_values {
        Err(TrainError::EmptyOrMismatched)
    } else if n_values < needed {
        Err(TrainError::TooFewObservations { needed })
    } else {
        Ok(())
    }
}

/// Every date is a day of the calendar.
pub open spec fn all_dates_wf(dates: Seq<Date>) -> bool {
    forall|i: int| 0 <= i < dates.len() ==> (#[trigger] dates[i]).wf()
}

/// The fitted local-linear-trend model.
#[derive(Clone, Copy, Debug)]
pub struct FittedModel {
    pub sigma_level: Double,
    pub sigma_trend: Double,
    pub sigma_obs: Double,
    pub state: TrendState,
    pub cov: Covariance,
    pub last_date: Date,
    pub scale: Double,
    pub nll: Double,
    pub last_weight: Double,
}

/// An opened fit of the local-linear-trend model: the objective to
/// minimise, where to start, and what the optimiser is to be held to.
#[derive(Debug)]
pub struct TrainingTask {
    /// The likelihood objective of the rescaled series.
    pub problem: LocalLinearTrendProblem,
    /// The parameters the optimiser starts from.
    pub init: Vec<Double>,
    /// Weight of the last observation.
    pub last_weight: Double,
    /// Day of the last observation.
    pub last_date: Date,
    /// Divisor applied to every raw value; a positive number.
    pub scale: Double,
    /// Iteration cap of the optimiser.
    pub max_iters: u64,
    /// Memory depth of the optimiser.
    pub history: usize,
}

impl TrainingTask {
    /// The task is that of a series of `n` observations: one weight per
    /// observation, each of them in the band, three parameters to start
    /// from, a scale above zero.
    pub open spec fn wf(self, n: nat) -> bool {
        &&& self.problem.y.len() == n
        &&& self.problem.weights.len() == n
        &&& forall|i: int|
            0 <= i < self.problem.weights.len() ==> weight_in_band(
                #[trigger] self.problem.weights[i],
            )
        &&& self.init.len() == 3
        &&& self.scale.positive()
        &&& self.last_date.wf()
    }

    /// The task is the one opened on `values`: its series is `values` over
    /// the scale, its weights are the volatility weights of that series,
    /// and its start is the initial guess for that series.
    pub open spec fn is_opened_on<A: Arithmetic>(self, ar: &A, values: Seq<Double>) -> bool {
        &&& is_rescaled(ar, values, self.scale, self.problem.y@)
        &&& are_volatility_weights(ar, self.problem.y@, self.problem.weights@)
        &&& is_initial_params(ar, self.problem.y@, self.init@)
    }

    /// `r` is what the fit comes to at the deviations `s`: a refusal where
    /// they are not all finite, else the model with these deviations whose
    /// state, covariance and likelihood are those of the filter pass over
    /// the task's series at these deviations under the task's weights.
    pub open spec fn is_model_at<A: Arithmetic>(
        self,
        ar: &A,
        s: Sigmas,
        r: Result<FittedModel, TrainError>,
    ) -> bool {
        if !s.all_finite() {
            r == Err::<FittedModel, TrainError>(TrainError::UnusableParameters)
        } else {
            r.is_ok() && r.unwrap().sigmas() == s && r.unwrap().last_date == self.last_date
                && r.unwrap().scale == self.scale && r.unwrap().last_weight == self.last_weight
                && is_filter_pass(
                ar,
                self.problem.y@,
                s,
                Some(self.problem.weights@),
                FilterResult { nll: r.unwrap().nll, state: r.unwrap().state, cov: r.unwrap().cov },
            )
        }
    }

    /// `r` is what closing the fit with `best` gives: a failure without
    /// parameters, else what the fit comes to at the deviations that the
    /// parameters stand for.
    pub open spec fn is_closed_by<A: Arithmetic>(
        self,
        ar: &A,
        best: Option<Seq<Double>>,
        r: Result<FittedModel, TrainError>,
    ) -> bool {
        match best {
            None => r == Err::<FittedModel, TrainError>(TrainError::NoParameters),
            Some(param) => exists|s: Sigmas|
                #![trigger self.is_model_at(ar, s, r)]
                is_unpacked(ar, param, s) && self.is_model_at(ar, s, r),
        }
    }

    /// The objective to hand to the optimiser: the likelihood of the task's
    /// series under the task's weights.
    pub fn objective(&self) -> (o: Objective)
        ensures
            o matches Objective::Likelihood(p) && p.y@ == self.problem.y@ && p.weights@
                == self.problem.weights@,
    {
        Objective::Likelihood(
            LocalLinearTrendProblem::new(copy_of(&self.problem.y), copy_of(&self.problem.weights)),
        )
    }

    /// Closes the fit with what the optimiser found. Without parameters the
    /// training has failed, and so it has with parameters that stand for a
    /// deviation that is not finite. Otherwise the filter is run once more
    /// at the fitted deviations, and its last state and covariance make the
    /// model. The model's deviations are finite numbers above zero.
    #[verifier::rlimit(50)]
    pub fn finish<A: Arithmetic>(&self, ar: &A, best: Option<&Vec<Double>>) -> (r: Result<
        FittedModel,
        TrainError,
    >)
        ensures
            self.is_closed_by(
                ar,
                match best {
                    Some(p) => Some(p@),
                    None => None,
                },
                r,
            ),
            best.is_none() ==> r == Err::<FittedModel, TrainError>(TrainError::NoParameters),
            r.is_ok() ==> r.unwrap().last_date == self.last_date && r.unwrap().scale == self.scale
                && r.unwrap().last_weight == self.last_weight && r.unwrap().sigmas().floored()
                && r.unwrap().sigmas().all_finite() && r.unwrap().cov.symmetric(),
            r.is_ok() && self.scale.positive() && self.last_date.wf() ==> r.unwrap().wf(),
    {
        let param = match best {
            Some(p) => p,
            None => {
                return Err(TrainError::NoParameters);
            },
        };
        let sigmas = unpack_params(ar, param);
        if !sigmas.are_finite() {
            let r = Err(TrainError::UnusableParameters);
            assert(is_unpacked(ar, param@, sigmas) && self.is_model_at(ar, sigmas, r));
            assert(self.is_closed_by(ar, Some(param@), r));
            return r;
        }
        let filter = kalman_filter(
            ar,
            &self.problem.y,
            sigmas.level,
            sigmas.trend,
            sigmas.obs,
            Some(&self.problem.weights),
        );
        let r = Ok(
            FittedModel {
                sigma_level: sigmas.level,
                sigma_trend: sigmas.trend,
                sigma_obs: sigmas.obs,
                state: filter.state,
                cov: filter.cov,
                last_date: self.last_date,
                scale: self.scale,
                nll: filter.nll,
                last_weight: self.last_weight,
            },
        );
        proof {
            assert(weights_view(Some(&self.problem.weights)) == Some(self.problem.weights@));
            assert(filter == (FilterResult {
                nll: r.unwrap().nll,
                state: r.unwrap().state,
                cov: r.unwrap().cov,
            }));
            assert(r.unwrap().sigmas() == sigmas);
            assert(is_unpacked(ar, param@, sigmas) && self.is_model_at(ar, sigmas, r));
            assert(self.is_closed_by(ar, Some(param@), r));
        }
        r
    }
}

/// Opens a fit of the local-linear-trend model on a daily series. Fails on
/// a series that is empty, ragged or shorter than two observations.
/// Otherwise the series is rescaled and weighted, and the objective handed
/// out with the parameters to start from.
#[verifier::rlimit(50)]
pub fn train_from_series<A: Arithmetic>(
    ar: &A,
    dates: &Vec<Date>,
    values: &Vec<Double>,
    config: ModelConfig,
) -> (r: Result<TrainingTask, TrainError>)
    requires
        all_dates_wf(dates@),
    ensures
        match shape_verdict(dates.len() as nat, values.len() as nat, MIN_LLT_OBSERVATIONS as nat) {
            Err(e) => r == Err::<TrainingTask, TrainError>(e),
            Ok(_) => r.is_ok() && r.unwrap().wf(values.len() as nat) && r.unwrap().is_opened_on(
                ar,
                values@,
            ) && r.unwrap().last_date == dates[dates.len() - 1] && r.unwrap().scale
                == effective_scale_of(config.scale) && r.unwrap().max_iters == config.max_iters
                && r.unwrap().history == config.history && r.unwrap().last_weight
                == r.unwrap().problem.weights[values.len() - 1],
        },
{
    match check_series_shape(dates.len(), values.len(), MIN_LLT_OBSERVATIONS) {
        Err(e) => {
            return Err(e);
        },
        Ok(_) => {},
    }
    let scale = effective_scale(config.scale);
    let series = rescale(ar, values, scale);
    let init = initial_params(ar, &series);
    let weights = volatility_weights(ar, &series);
    let last_weight = weights[weights.len() - 1];
    let problem = LocalLinearTrendProblem::new(series, weights);
    Ok(
        TrainingTask {
            problem,
            init,
            last_weight,
            last_date: dates[dates.len() - 1],
            scale,
            max_iters: config.max_iters,
            history: config.history,
        },
    )
}

/// `r` is what dating `bands` gives where the horizon fits the calendar: a
/// refusal where a band's bounds do not enclose its mean or its variance
/// is negative or no number, else the forecast that holds these bands.
pub open spec fn is_forecast_of(bands: Seq<Band>, r: Result<Forecast, ForecastError>) -> bool {
    if bands_sound(bands) {
        r.is_ok() && r.unwrap().holds(bands)
    } else {
        r == Err::<Forecast, ForecastError>(ForecastError::DegenerateBand)
    }
}

/// `r` is the variance of the deviation `sigma` under the weight `w`: the
/// arithmetic's answer for `sigma * sigma`, scaled by the square of `w`.
pub open spec fn is_weighted_variance<A: Arithmetic>(
    ar: &A,
    sigma: Double,
    w: Double,
    r: Double,
) -> bool {
    exists|square: Double| #[trigger]
        answers_product(ar, sigma, sigma, square) && is_scaled_noise(ar, square, w, r)
}

/// `band` is the band of a day with mean `center` and variance `var`, both
/// in rescaled units: the mean and the bounds `center -/+ 1.96 * sqrt(var)`
/// times the scale, the variance times the scale twice.
pub open spec fn is_interval<A: Arithmetic>(
    ar: &A,
    center: Double,
    var: Double,
    scale: Double,
    band: Band,
) -> bool {
    exists|std: Double, low: Double, high: Double, once: Double|
        #![trigger
            answers_fused(ar, confidence_z(), std.neg_spec(), center, low),
            answers_fused(ar, confidence_z(), std, center, high),
            answers_product(ar, var, scale, once)
        ]
        answers_square_root(ar, var, std) && answers_product(ar, center, scale, band.mean)
            && answers_fused(ar, confidence_z(), std.neg_spec(), center, low) && answers_product(
            ar,
            low,
            scale,
            band.lower,
        ) && answers_fused(ar, confidence_z(), std, center, high) && answers_product(
            ar,
            high,
            scale,
            band.upper,
        ) && answers_product(ar, var, scale, once) && answers_product(
            ar,
            once,
            scale,
            band.variance,
        )
}

fn interval<A: Arithmetic>(ar: &A, center: Double, var: Double, scale: Double) -> (band: Band)
    ensures
        is_interval(ar, center, var, scale, band),
{
    let z = Double::from_bits(CONFIDENCE_Z_BITS);
    let std = ar.square_root(var);
    let mean = ar.product(center, scale);
    let low = ar.fused(z, std.neg(), center);
    let lower = ar.product(low, scale);
    let high = ar.fused(z, std, center);
    let upper = ar.product(high, scale);
    let once = ar.product(var, scale);
    let variance = ar.product(once, scale);
    let band = Band { mean, lower, upper, variance };
    assert(answers_square_root(ar, var, std) && answers_product(ar, center, scale, band.mean)
        && answers_fused(ar, confidence_z(), std.neg_spec(), center, low) && answers_product(
        ar,
        low,
        scale,
        band.lower,
    ) && answers_fused(ar, confidence_z(), std, center, high) && answers_product(
        ar,
        high,
        scale,
        band.upper,
    ) && answers_product(ar, var, scale, once) && answers_product(ar, once, scale, band.variance));
    band
}

/// `state` and `cov` are the state and covariance `k` prediction steps on
/// from `state0` and `cov0`, under the process noises of `q`.
pub open spec fn is_predicted_ahead<A: Arithmetic>(
    ar: &A,
    state0: TrendState,
    cov0: Covariance,
    q: Noise,
    k: int,
    state: TrendState,
    cov: Covariance,
) -> bool
    decreases k,
{
    if k <= 0 {
        state == state0 && cov == cov0
    } else {
        exists|before: (TrendState, Covariance)|
            is_predicted_ahead(ar, state0, cov0, q, k - 1, before.0, before.1)
                && #[trigger] is_prediction(
                ar,
                before.0,
                before.1,
                q.level,
                q.trend,
                (state, cov),
            )
    }
}

/// `band` is the band of a day whose predicted state and covariance are
/// `state` and `cov`: the level as the mean, and as the variance the
/// variance of the level plus the observation noise, or zero where that is
/// negative.
pub open spec fn is_predicted_band<A: Arithmetic>(
    ar: &A,
    state: TrendState,
    cov: Covariance,
    r_obs: Double,
    scale: Double,
    band: Band,
) -> bool {
    exists|raw: Double| #[trigger]
        answers_sum(ar, cov.level_var, r_obs, raw) && is_interval(
            ar,
            state.level,
            raw.max_spec(Double::zero_spec()),
            scale,
            band,
        )
}

impl FittedModel {
    /// The three deviations of the model.
    pub open spec fn sigmas(self) -> Sigmas {
        Sigmas { level: self.sigma_level, trend: self.sigma_trend, obs: self.sigma_obs }
    }

    /// What holds of every model a training hands out: its deviations are
    /// finite numbers above zero, its scale is above zero, its covariance is
    /// symmetric and its last date is a day of the calendar.
    pub open spec fn wf(self) -> bool {
        &&& self.sigmas().floored()
        &&& self.sigmas().all_finite()
        &&& self.scale.positive()
        &&& self.cov.symmetric()
        &&& self.last_date.wf()
    }

    /// The weight every prediction step scales the noise by.
    pub open spec fn frozen_weight(self) -> Double {
        self.last_weight.clamp_spec(min_weight(), max_weight())
    }

    /// `q` holds the noise variances of the forecast: those of the model's
    /// deviations under the frozen weight.
    pub open spec fn is_forecast_noise<A: Arithmetic>(self, ar: &A, q: Noise) -> bool {
        &&& is_weighted_variance(ar, self.sigma_level, self.frozen_weight(), q.level)
        &&& is_weighted_variance(ar, self.sigma_trend, self.frozen_weight(), q.trend)
        &&& is_weighted_variance(ar, self.sigma_obs, self.frozen_weight(), q.obs)
    }

    /// `band` is the band of the day `k` days after the last observation:
    /// that of the state and covariance `k` prediction steps on from the
    /// model's.
    pub open spec fn is_day<A: Arithmetic>(self, ar: &A, q: Noise, k: int, band: Band) -> bool {
        exists|ahead: (TrendState, Covariance)| #[trigger]
            is_predicted_ahead(ar, self.state, self.cov, q, k, ahead.0, ahead.1)
                && is_predicted_band(ar, ahead.0, ahead.1, q.obs, self.scale, band)
    }

    /// `bands` are the bands of the next `horizon` days.
    pub open spec fn are_bands<A: Arithmetic>(
        self,
        ar: &A,
        horizon: nat,
        bands: Seq<Band>,
    ) -> bool {
        exists|q: Noise| #[trigger]
            self.is_forecast_noise(ar, q) && bands.len() == horizon && forall|i: int|
                0 <= i < bands.len() ==> self.is_day(ar, q, i + 1, #[trigger] bands[i])
    }

    /// The weight every prediction step scales the noise by: that of the
    /// last observation, held to the band.
    pub fn noise_weight(&self) -> (w: Double)
        ensures
            w == self.frozen_weight(),
            !self.last_weight.nan() ==> min_weight().le_spec(w) && w.le_spec(max_weight()),
    {
        clamp_weight(self.last_weight)
    }

    fn weighted_variance<A: Arithmetic>(ar: &A, sigma: Double, w: Double) -> (r: Double)
        ensures
            is_weighted_variance(ar, sigma, w, r),
    {
        let square = ar.product(sigma, sigma);
        let r = scaled_noise(ar, square, w);
        assert(answers_product(ar, sigma, sigma, square) && is_scaled_noise(ar, square, w, r));
        r
    }

    /// What the model predicts for each of the next `horizon_days` days:
    /// prediction steps only, the noise scaled by the frozen weight of the
    /// last observation.
    #[verifier::rlimit(50)]
    pub fn bands<A: Arithmetic>(&self, ar: &A, horizon_days: usize) -> (bands: Vec<Band>)
        ensures
            bands.len() == horizon_days,
            self.are_bands(ar, horizon_days as nat, bands@),
    {
        let weight = self.noise_weight();
        let q = Noise {
            level: FittedModel::weighted_variance(ar, self.sigma_level, weight),
            trend: FittedModel::weighted_variance(ar, self.sigma_trend, weight),
            obs: FittedModel::weighted_variance(ar, self.sigma_obs, weight),
        };
        let mut state = self.state;
        let mut cov = self.cov;
        let mut bands: Vec<Band> = Vec::new();
        let mut step: usize = 0;
        while step < horizon_days
            invariant
                step <= horizon_days,
                bands.len() == step,
                self.is_forecast_noise(ar, q),
                is_predicted_ahead(ar, self.state, self.cov, q, step as int, state, cov),
                forall|i: int| 0 <= i < bands.len() ==> self.is_day(ar, q, i + 1, #[trigger] bands[i]),
            decreases horizon_days - step,
        {
            let ghost before = (state, cov);
            let ghost k = step + 1;
            let predicted = predict_state(ar, state, cov, q.level, q.trend);
            state = predicted.0;
            cov = predicted.1;
            let raw = ar.sum(cov.level_var, q.obs);
            let band = interval(ar, state.level, raw.max(Double::zero()), self.scale);
            proof {
                assert(is_predicted_ahead(ar, self.state, self.cov, q, k - 1, before.0, before.1)
                    && is_prediction(ar, before.0, before.1, q.level, q.trend, (state, cov)));
                assert(is_predicted_ahead(ar, self.state, self.cov, q, k, state, cov));
                assert(answers_sum(ar, cov.level_var, q.obs, raw) && is_interval(
                    ar,
                    state.level,
                    raw.max_spec(Double::zero_spec()),
                    self.scale,
                    band,
                ));
                assert(is_predicted_band(ar, state, cov, q.obs, self.scale, band));
                let ahead = (state, cov);
                assert(is_predicted_ahead(ar, self.state, self.cov, q, k, ahead.0, ahead.1)
                    && is_predicted_band(ar, ahead.0, ahead.1, q.obs, self.scale, band));
                assert(self.is_day(ar, q, k, band));
            }
            bands.push(band);
            step = step + 1;
        }
        bands
    }

    /// The forecast over the next `horizon_days` days: one entry per day, the
    /// first one the day after the last observation, each with the band the
    /// model predicts for it, its bounds enclosing its mean. A horizon of no
    /// days gives five empty sequences. Fails where the horizon runs past the
    /// calendar, and where a band is degenerate.
    #[verifier::rlimit(50)]
    pub fn forecast<A: Arithmetic>(&self, ar: &A, horizon_days: usize) -> (r: Result<
        Forecast,
        ForecastError,
    >)
        requires
            self.last_date.wf(),
        ensures
            !horizon_fits(self.last_date@, horizon_days as nat) ==> r == Err::<
                Forecast,
                ForecastError,
            >(ForecastError::HorizonPastCalendar),
            horizon_fits(self.last_date@, horizon_days as nat) ==> exists|bands: Seq<Band>|
                #![trigger is_forecast_of(bands, r)]
                self.are_bands(ar, horizon_days as nat, bands) && is_forecast_of(bands, r),
            horizon_days == 0 ==> r.is_ok() && r.unwrap().dates.len() == 0 && r.unwrap().mean.len()
                == 0 && r.unwrap().lower.len() == 0 && r.unwrap().upper.len() == 0
                && r.unwrap().variance.len() == 0,
            r.is_ok() ==> {
                let f = r.unwrap();
                &&& f.wf()
                &&& f.dates.len() == horizon_days
                &&& f.follows(self.last_date@)
                &&& f.bands_ordered()
                &&& f.variances_non_negative()
                &&& forall|i: int, j: int|
                    0 <= i < j < horizon_days ==> (#[trigger] f.dates[i])@.before(
                        (#[trigger] f.dates[j])@,
                    )
            },
    {
        if forecast_dates(self.last_date, horizon_days).is_err() {
            return Err(ForecastError::HorizonPastCalendar);
        }
        let bands = self.bands(ar, horizon_days);
        if !are_bands_sound(&bands) {
            let r = Err(ForecastError::DegenerateBand);
            assert(self.are_bands(ar, horizon_days as nat, bands@) && is_forecast_of(bands@, r));
            return r;
        }
        let r = Forecast::dated(self.last_date, &bands);
        proof {
            let f = r.unwrap();
            assert(f.holds(bands@));
            assert forall|i: int| 0 <= i < f.dates.len() implies (#[trigger] f.band(i)).ordered() by {
                assert(f.band(i) == bands[i]);
            }
            assert forall|i: int| 0 <= i < f.dates.len() implies Double::zero_spec().le_spec(
                #[trigger] f.variance[i],
            ) by {
                assert(f.band(i) == bands[i]);
            }
            assert(self.are_bands(ar, horizon_days as nat, bands@) && is_forecast_of(bands@, r));
        }
        r
    }
}

/// The fitted trend filter.
#[derive(Debug)]
pub struct TrendFilterModel {
    pub trend: Vec<Double>,
    pub last_date: Date,
    pub scale: Double,
    pub resid_std: Double,
    pub slope_std: Double,
    pub damping: Double,
}

/// An opened fit of the trend filter.
#[derive(Debug)]
pub struct TrendFilterTask {
    /// The objective of the rescaled series.
    pub problem: TrendFilterProblem,
    /// The trend the optimiser starts from: the rescaled series itself.
    pub init: Vec<Double>,
    /// Standard deviation of the first differences of the rescaled series.
    pub diff_std: Double,
    /// Day of the last observation.
    pub last_date: Date,
    /// Divisor applied to every raw value; a positive number.
    pub scale: Double,
    /// Trend decay factor used in extrapolation, as configured.
    pub damping: Double,
    /// Iteration cap of the optimiser.
    pub max_iters: u64,
    /// Memory depth of the optimiser.
    pub history: usize,
}

/// `delta` is the Huber threshold of a fit: the configured one where it is
/// above zero, else the arithmetic's answer for `1.5 * diff_std`, raised to
/// `1e-3`.
pub open spec fn is_huber_threshold<A: Arithmetic>(
    ar: &A,
    configured: Double,
    diff_std: Double,
    delta: Double,
) -> bool {
    if configured.positive() {
        delta == configured
    } else {
        exists|derived: Double| #[trigger]
            answers_product(ar, Double { bits: AUTO_DELTA_FACTOR_BITS }, diff_std, derived)
                && delta == derived.max_spec(min_residual())
    }
}

/// The Huber threshold of a fit: the configured one where it is above zero,
/// else one and a half first-difference deviations, at least `1e-3`.
pub fn huber_threshold<A: Arithmetic>(ar: &A, configured: Double, diff_std: Double) -> (delta:
    Double)
    ensures
        is_huber_threshold(ar, configured, diff_std, delta),
        configured.positive() ==> delta == configured,
        delta.positive(),
{
    if configured.is_positive() {
        configured
    } else {
        let derived = ar.product(Double::from_bits(AUTO_DELTA_FACTOR_BITS), diff_std);
        assert(answers_product(ar, Double { bits: AUTO_DELTA_FACTOR_BITS }, diff_std, derived));
        derived.max(Double::from_bits(MIN_RESIDUAL_BITS))
    }
}

/// `r` is the deviation `measured` held to its floor: the arithmetic's
/// answer for `factor * diff_std`, raised to `least`. It is `measured` where
/// that is a finite number at or above the floor, else the floor.
pub open spec fn is_floored_deviation<A: Arithmetic>(
    ar: &A,
    measured: Double,
    factor: Double,
    diff_std: Double,
    least: Double,
    r: Double,
) -> bool {
    exists|share: Double| #[trigger]
        answers_product(ar, factor, diff_std, share) && r == measured.floored_at(
            share.max_spec(least),
        )
}

/// A measured deviation held to its floor: a share of the first-difference
/// deviation, itself at least `least`. The result is the measured deviation
/// where that is a finite number at or above the floor, else the floor.
pub fn floored_deviation<A: Arithmetic>(
    ar: &A,
    measured: Double,
    factor: Double,
    diff_std: Double,
    least: Double,
) -> (r: Double)
    ensures
        is_floored_deviation(ar, measured, factor, diff_std, least, r),
        !least.nan() ==> !r.nan() && least.le_spec(r),
        !least.nan() && least.positive() ==> r.positive(),
{
    let share = ar.product(factor, diff_std);
    assert(answers_product(ar, factor, diff_std, share));
    let floor = share.max(least);
    measured.floor_at(floor)
}

/// `residuals` holds the distances of the series from the trend: entry `i`
/// is the arithmetic's answer for `y[i] - trend[i]`.
pub open spec fn are_residuals<A: Arithmetic>(
    ar: &A,
    y: Seq<Double>,
    trend: Seq<Double>,
    residuals: Seq<Double>,
) -> bool {
    residuals.len() == y.len() && forall|i: int|
        0 <= i < residuals.len() ==> answers_difference(ar, y[i], trend[i], #[trigger] residuals[i])
}

/// `r` is the residual deviation of a trend: the deviation of the
/// distances of the series from it, floored at a quarter of the
/// first-difference deviation and at `1e-3`.
pub open spec fn is_residual_deviation<A: Arithmetic>(
    ar: &A,
    y: Seq<Double>,
    trend: Seq<Double>,
    diff_std: Double,
    r: Double,
) -> bool {
    exists|residuals: Seq<Double>, measured: Double|
        #![trigger are_residuals(ar, y, trend, residuals), is_stddev(ar, residuals, measured)]
        are_residuals(ar, y, trend, residuals) && is_stddev(ar, residuals, measured)
            && is_floored_deviation(
            ar,
            measured,
            Double { bits: RESIDUAL_FLOOR_FACTOR_BITS },
            diff_std,
            min_residual(),
            r,
        )
}

/// `r` is the slope deviation of a trend: the deviation of its first
/// differences, floored at a tenth of the first-difference deviation of the
/// series and at `1e-4`.
pub open spec fn is_slope_deviation<A: Arithmetic>(
    ar: &A,
    trend: Seq<Double>,
    diff_std: Double,
    r: Double,
) -> bool {
    exists|slopes: Seq<Double>, measured: Double|
        #![trigger are_first_differences(ar, trend, slopes), is_stddev(ar, slopes, measured)]
        are_first_differences(ar, trend, slopes) && is_stddev(ar, slopes, measured)
            && is_floored_deviation(
            ar,
            measured,
            Double { bits: SLOPE_FLOOR_FACTOR_BITS },
            diff_std,
            min_slope(),
            r,
        )
}

fn residual_deviation<A: Arithmetic>(
    ar: &A,
    y: &Vec<Double>,
    trend: &Vec<Double>,
    diff_std: Double,
) -> (r: Double)
    requires
        trend.len() == y.len(),
    ensures
        is_residual_deviation(ar, y@, trend@, diff_std, r),
        !r.nan() && min_residual().le_spec(r),
{
    let mut residuals: Vec<Double> = Vec::new();
    let mut i: usize = 0;
    while i < y.len()
        invariant
            i <= y.len(),
            trend.len() == y.len(),
            residuals.len() == i,
            forall|k: int|
                0 <= k < residuals.len() ==> answers_difference(
                    ar,
                    y[k],
                    trend[k],
                    #[trigger] residuals[k],
                ),
        decreases y.len() - i,
    {
        residuals.push(ar.difference(y[i], trend[i]));
        i = i + 1;
    }
    let measured = stddev(ar, &residuals);
    let r = floored_deviation(
        ar,
        measured,
        Double::from_bits(RESIDUAL_FLOOR_FACTOR_BITS),
        diff_std,
        Double::from_bits(MIN_RESIDUAL_BITS),
    );
    assert(are_residuals(ar, y@, trend@, residuals@) && is_stddev(ar, residuals@, measured)
        && is_floored_deviation(
        ar,
        measured,
        Double { bits: RESIDUAL_FLOOR_FACTOR_BITS },
        diff_std,
        min_residual(),
        r,
    ));
    r
}

fn slope_deviation<A: Arithmetic>(ar: &A, trend: &Vec<Double>, diff_std: Double) -> (r: Double)
    ensures
        is_slope_deviation(ar, trend@, diff_std, r),
        !r.nan() && min_slope().le_spec(r),
{
    let slopes = first_differences(ar, trend);
    let measured = stddev(ar, &slopes);
    let r = floored_deviation(
        ar,
        measured,
        Double::from_bits(SLOPE_FLOOR_FACTOR_BITS),
        diff_std,
        Double::from_bits(MIN_SLOPE_BITS),
    );
    assert(are_first_differences(ar, trend@, slopes@) && is_stddev(ar, slopes@, measured)
        && is_floored_deviation(
        ar,
        measured,
        Double { bits: SLOPE_FLOOR_FACTOR_BITS },
        diff_std,
        min_slope(),
        r,
    ));
    r
}

impl TrendFilterTask {
    /// The task is that of a series of `n` observations.
    pub open spec fn wf(self, n: nat) -> bool {
        &&& self.problem.y.len() == n
        &&& self.init@ == self.problem.y@
        &&& self.scale.positive()
        &&& self.last_date.wf()
        &&& self.problem.huber_delta.positive()
        &&& self.problem.epsilon.positive()
        &&& Double::zero_spec().le_spec(self.problem.lambda)
    }

    /// The task is the one opened on `values` under `config`: its series is
    /// `values` over the scale, its deviation is that of the first
    /// differences of that series, and its constants are the configured
    /// ones, the smoothing constant raised to `1e-9` and the Huber
    /// threshold derived from the deviation where none is configured.
    pub open spec fn is_opened_on<A: Arithmetic>(
        self,
        ar: &A,
        values: Seq<Double>,
        config: TrendFilterConfig,
    ) -> bool {
        &&& is_rescaled(ar, values, self.scale, self.problem.y@)
        &&& exists|diffs: Seq<Double>| #[trigger]
            are_first_differences(ar, self.problem.y@, diffs) && is_stddev(
                ar,
                diffs,
                self.diff_std,
            )
        &&& self.problem.lambda == config.lambda
        &&& self.problem.epsilon == config.epsilon.max_spec(Double { bits: MIN_EPSILON_BITS })
        &&& is_huber_threshold(ar, config.huber_delta, self.diff_std, self.problem.huber_delta)
        &&& self.damping == config.damping
    }

    /// `r` is what the fit comes to with the trend `trend`, of the length of
    /// the series, and the dispersions `resid` and `slope`: a refusal where
    /// one of them is not finite, else the model that holds them.
    pub open spec fn is_model_with(
        self,
        trend: Seq<Double>,
        resid: Double,
        slope: Double,
        r: Result<TrendFilterModel, TrainError>,
    ) -> bool {
        if !(resid.finite() && slope.finite()) {
            r == Err::<TrendFilterModel, TrainError>(TrainError::UnusableParameters)
        } else {
            r.is_ok() && r.unwrap().trend@ == trend && r.unwrap().resid_std == resid
                && r.unwrap().slope_std == slope && r.unwrap().last_date == self.last_date
                && r.unwrap().scale == self.scale && r.unwrap().damping == self.damping
        }
    }

    /// `r` is what closing the fit with `best` gives: a failure without a
    /// trend, a refusal of a trend of another length than the series, else
    /// what the fit comes to with the trend and the dispersions measured on
    /// it.
    pub open spec fn is_closed_by<A: Arithmetic>(
        self,
        ar: &A,
        best: Option<Seq<Double>>,
        r: Result<TrendFilterModel, TrainError>,
    ) -> bool {
        match best {
            None => r == Err::<TrendFilterModel, TrainError>(TrainError::NoParameters),
            Some(trend) => if trend.len() != self.problem.y.len() {
                r == Err::<TrendFilterModel, TrainError>(TrainError::UnusableParameters)
            } else {
                exists|resid: Double, slope: Double|
                    #![trigger self.is_model_with(trend, resid, slope, r)]
                    is_residual_deviation(ar, self.problem.y@, trend, self.diff_std, resid)
                        && is_slope_deviation(ar, trend, self.diff_std, slope)
                        && self.is_model_with(trend, resid, slope, r)
            },
        }
    }

    /// The objective to hand to the optimiser: the penalised loss of the
    /// task's series with the task's constants.
    pub fn objective(&self) -> (o: Objective)
        ensures
            o matches Objective::Smoothing(p) && p.y@ == self.problem.y@ && p.lambda
                == self.problem.lambda && p.epsilon == self.problem.epsilon && p.huber_delta
                == self.problem.huber_delta,
    {
        Objective::Smoothing(
            TrendFilterProblem::new(
                copy_of(&self.problem.y),
                self.problem.lambda,
                self.problem.epsilon,
                self.problem.huber_delta,
            ),
        )
    }

    /// Closes the fit with the trend the optimiser found. Without one the
    /// training has failed, and so it has with a trend that has not one
    /// value per observation. Otherwise the residual and slope deviations
    /// are measured on it and held to their floors; a deviation that is not
    /// finite fails the training too. The model's dispersions are finite
    /// numbers, at least `1e-3` and `1e-4`.
    #[verifier::rlimit(50)]
    pub fn finish<A: Arithmetic>(&self, ar: &A, best: Option<Vec<Double>>) -> (r: Result<
        TrendFilterModel,
        TrainError,
    >)
        ensures
            self.is_closed_by(
                ar,
                match best {
                    Some(t) => Some(t@),
                    None => None,
                },
                r,
            ),
            best.is_none() ==> r == Err::<TrendFilterModel, TrainError>(TrainError::NoParameters),
            r.is_ok() ==> r.unwrap().trend == best.unwrap() && r.unwrap().trend.len()
                == self.problem.y.len() && r.unwrap().last_date == self.last_date
                && r.unwrap().scale == self.scale && r.unwrap().damping == self.damping
                && r.unwrap().dispersions_floored(),
            r.is_ok() && self.scale.positive() && self.last_date.wf() ==> r.unwrap().wf(),
    {
        let trend = match best {
            Some(t) => t,
            None => {
                return Err(TrainError::NoParameters);
            },
        };
        if trend.len() != self.problem.y.len() {
            return Err(TrainError::UnusableParameters);
        }
        let resid_std = residual_deviation(ar, &self.problem.y, &trend, self.diff_std);
        let slope_std = slope_deviation(ar, &trend, self.diff_std);
        let ghost seen = trend@;
        if !(resid_std.is_finite() && slope_std.is_finite()) {
            let r = Err(TrainError::UnusableParameters);
            assert(is_residual_deviation(ar, self.problem.y@, seen, self.diff_std, resid_std)
                && is_slope_deviation(ar, seen, self.diff_std, slope_std) && self.is_model_with(
                seen,
                resid_std,
                slope_std,
                r,
            ));
            return r;
        }
        let r = Ok(
            TrendFilterModel {
                trend,
                last_date: self.last_date,
                scale: self.scale,
                resid_std,
                slope_std,
                damping: self.damping,
            },
        );
        assert(is_residual_deviation(ar, self.problem.y@, seen, self.diff_std, resid_std)
            && is_slope_deviation(ar, seen, self.diff_std, slope_std) && self.is_model_with(
            seen,
            resid_std,
            slope_std,
            r,
        ));
        r
    }
}

/// What opening a fit of the trend filter answers before any work is done:
/// the first rule that the configuration breaks, else what the shape of the
/// series says.
pub open spec fn trend_filter_verdict(config: TrendFilterConfig, n_dates: nat, n_values: nat) -> Result<
    (),
    TrainError,
> {
    match config.verdict() {
        Err(e) => Err(TrainError::Config(e)),
        Ok(_) => shape_verdict(n_dates, n_values, MIN_TREND_FILTER_OBSERVATIONS as nat),
    }
}

/// Opens a fit of the trend filter on a daily series. Fails, before any
/// other work, on a configuration that breaks a rule, and then on a series
/// that is empty, ragged or shorter than three observations. Otherwise the
/// series is rescaled, the objective's constants are fixed, and the
/// objective is handed out with the rescaled series as the trend to start from.
#[verifier::rlimit(50)]
pub fn train_trend_filter_from_series<A: Arithmetic>(
    ar: &A,
    dates: &Vec<Date>,
    values: &Vec<Double>,
    config: TrendFilterConfig,
) -> (r: Result<TrendFilterTask, TrainError>)
    requires
        all_dates_wf(dates@),
    ensures
        match trend_filter_verdict(config, dates.len() as nat, values.len() as nat) {
            Err(e) => r == Err::<TrendFilterTask, TrainError>(e),
            Ok(_) => r.is_ok() && r.unwrap().wf(values.len() as nat) && r.unwrap().is_opened_on(
                ar,
                values@,
                config,
            ) && r.unwrap().last_date == dates[dates.len() - 1] && r.unwrap().scale
                == effective_scale_of(config.scale) && r.unwrap().max_iters == config.max_iters
                && r.unwrap().history == config.history,
        },
{
    match config.validate() {
        Err(e) => {
            return Err(TrainError::Config(e));
        },
        Ok(_) => {},
    }
    match check_series_shape(dates.len(), values.len(), MIN_TREND_FILTER_OBSERVATIONS) {
        Err(e) => {
            return Err(e);
        },
        Ok(_) => {},
    }
    let scale = effective_scale(config.scale);
    let series = rescale(ar, values, scale);
    let lambda = config.penalty_weight();
    let epsilon = config.smoothing();
    let diffs = first_differences(ar, &series);
    let diff_std = stddev(ar, &diffs);
    let huber_delta = huber_threshold(ar, config.huber_delta, diff_std);
    let init = copy_of(&series);
    let ghost y = series@;
    let problem = TrendFilterProblem::new(series, lambda, epsilon, huber_delta);
    assert(are_first_differences(ar, y, diffs@) && is_stddev(ar, diffs@, diff_std));
    Ok(
        TrendFilterTask {
            problem,
            init,
            diff_std,
            last_date: dates[dates.len() - 1],
            scale,
            damping: config.damping,
            max_iters: config.max_iters,
            history: config.history,
        },
    )
}

/// Where the extrapolation starts from.
#[derive(Clone, Copy, Debug)]
pub struct Anchor {
    /// Last value of the fitted trend; zero for an empty one.
    pub last: Double,
    /// The value before it, where the trend has two; without it the slope is zero.
    pub previous: Option<Double>,
}

/// What every day of a damped extrapolation is computed from.
#[derive(Clone, Copy, Debug)]
pub struct Extrapolation {
    /// Last value of the trend.
    pub last: Double,
    /// Last slope of the trend.
    pub slope: Double,
    /// Variance of the residuals.
    pub resid_var: Double,
    /// Variance of the slope.
    pub slope_var: Double,
    /// The decay factor, between zero and one.
    pub phi: Double,
    /// Whether the decay factor is taken for one.
    pub undamped: bool,
    /// The scale the forecast is given in.
    pub scale: Double,
}

/// `sum` is the damping sum of day `step`: the arithmetic's number for
/// `step` where the decay factor is taken for one, else
/// `(1 - phi^step) / (1 - phi)`.
pub open spec fn is_damping_sum<A: Arithmetic>(
    ar: &A,
    phi: Double,
    undamped: bool,
    step: usize,
    sum: Double,
) -> bool {
    exists|count: Double| #[trigger]
        answers_count(ar, step, count) && (if undamped {
            sum == count
        } else {
            is_geometric_sum(ar, phi, count, sum)
        })
}

/// `sum` is `(1 - phi^count) / (1 - phi)`.
pub open spec fn is_geometric_sum<A: Arithmetic>(
    ar: &A,
    phi: Double,
    count: Double,
    sum: Double,
) -> bool {
    exists|power: Double, above: Double, below: Double|
        #![trigger answers_power(ar, phi, count, power), answers_quotient(ar, above, below, sum)]
        answers_power(ar, phi, count, power) && answers_difference(
            ar,
            Double::one_spec(),
            power,
            above,
        ) && answers_difference(ar, Double::one_spec(), phi, below) && answers_quotient(
            ar,
            above,
            below,
            sum,
        )
}

/// `band` is the band of day `step` of the extrapolation `e`: the mean
/// `last + slope * sum`, and as the variance `sum^2 * slope_var +
/// resid_var`, or zero where that is negative, `sum` being the damping sum
/// of the day.
pub open spec fn is_damped_band<A: Arithmetic>(
    ar: &A,
    e: Extrapolation,
    step: usize,
    band: Band,
) -> bool {
    exists|sum: Double, rise: Double, center: Double, square: Double, raw: Double|
        #![trigger
            answers_product(ar, e.slope, sum, rise),
            answers_sum(ar, e.last, rise, center),
            answers_fused(ar, square, e.slope_var, e.resid_var, raw)
        ]
        is_damping_sum(ar, e.phi, e.undamped, step, sum) && answers_product(
            ar,
            e.slope,
            sum,
            rise,
        ) && answers_sum(ar, e.last, rise, center) && answers_product(ar, sum, sum, square)
            && answers_fused(ar, square, e.slope_var, e.resid_var, raw) && is_interval(
            ar,
            center,
            raw.max_spec(Double::zero_spec()),
            e.scale,
            band,
        )
}

fn damping_sum<A: Arithmetic>(ar: &A, phi: Double, undamped: bool, step: usize) -> (sum: Double)
    ensures
        is_damping_sum(ar, phi, undamped, step, sum),
{
    let count = ar.of_count(step);
    let sum = if undamped {
        count
    } else {
        let power = ar.power(phi, count);
        let above = ar.difference(Double::one(), power);
        let below = ar.difference(Double::one(), phi);
        let sum = ar.quotient(above, below);
        assert(answers_power(ar, phi, count, power) && answers_difference(
            ar,
            Double::one_spec(),
            power,
            above,
        ) && answers_difference(ar, Double::one_spec(), phi, below) && answers_quotient(
            ar,
            above,
            below,
            sum,
        ));
        sum
    };
    assert(answers_count(ar, step, count) && (if undamped {
        sum == count
    } else {
        is_geometric_sum(ar, phi, count, sum)
    }));
    sum
}

fn damped_band<A: Arithmetic>(ar: &A, e: Extrapolation, step: usize) -> (band: Band)
    ensures
        is_damped_band(ar, e, step, band),
{
    let sum = damping_sum(ar, e.phi, e.undamped, step);
    let rise = ar.product(e.slope, sum);
    let center = ar.sum(e.last, rise);
    let square = ar.product(sum, sum);
    let raw = ar.fused(square, e.slope_var, e.resid_var);
    let band = interval(ar, center, raw.max(Double::zero()), e.scale);
    assert(is_damping_sum(ar, e.phi, e.undamped, step, sum) && answers_product(
        ar,
        e.slope,
        sum,
        rise,
    ) && answers_sum(ar, e.last, rise, center) && answers_product(ar, sum, sum, square)
        && answers_fused(ar, square, e.slope_var, e.resid_var, raw) && is_interval(
        ar,
        center,
        raw.max_spec(Double::zero_spec()),
        e.scale,
        band,
    ));
    band
}

impl TrendFilterModel {
    /// Both dispersions are numbers above zero.
    pub open spec fn dispersions_positive(self) -> bool {
        !self.resid_std.nan() && self.resid_std.positive() && !self.slope_std.nan()
            && self.slope_std.positive()
    }

    /// Both dispersions are finite numbers at or above their least values,
    /// `1e-3` for the residuals and `1e-4` for the slope.
    pub open spec fn dispersions_floored(self) -> bool {
        self.resid_std.finite() && min_residual().le_spec(self.resid_std)
            && self.slope_std.finite() && min_slope().le_spec(self.slope_std)
    }

    /// What holds of every model a training hands out: its dispersions are
    /// finite numbers above zero, so is its scale, and its last date is a
    /// day of the calendar.
    pub open spec fn wf(self) -> bool {
        &&& self.dispersions_floored()
        &&& self.dispersions_positive()
        &&& self.scale.positive()
        &&& self.last_date.wf()
    }

    /// The decay factor used in extrapolation.
    pub open spec fn decay(self) -> Double {
        self.damping.clamp_spec(Double::zero_spec(), Double::one_spec())
    }

    /// The last value of the trend; zero for an empty one.
    pub open spec fn last_value(self) -> Double {
        if self.trend.len() > 0 {
            self.trend[self.trend.len() - 1]
        } else {
            Double::zero_spec()
        }
    }

    /// `e` is what the model's days are extrapolated from: the last value
    /// of the trend, its last slope (zero for a trend of fewer than two
    /// values), the variances of the two dispersions, and the decay
    /// factor, taken for one where it lies within `1e-12` of one.
    pub open spec fn is_extrapolation<A: Arithmetic>(self, ar: &A, e: Extrapolation) -> bool {
        &&& e.last == self.last_value()
        &&& if self.trend.len() > 1 {
            answers_difference(ar, e.last, self.trend[self.trend.len() - 2], e.slope)
        } else {
            e.slope == Double::zero_spec()
        }
        &&& answers_product(ar, self.resid_std, self.resid_std, e.resid_var)
        &&& answers_product(ar, self.slope_std, self.slope_std, e.slope_var)
        &&& e.phi == self.decay()
        &&& exists|gap: Double| #[trigger]
            answers_difference(ar, e.phi, Double::one_spec(), gap) && e.undamped
                == gap.abs_spec().lt_spec(Double { bits: DAMPING_TOLERANCE_BITS })
        &&& e.scale == self.scale
    }

    /// `bands` are the bands of the next `horizon` days.
    pub open spec fn are_bands<A: Arithmetic>(
        self,
        ar: &A,
        horizon: nat,
        bands: Seq<Band>,
    ) -> bool {
        exists|e: Extrapolation| #[trigger]
            self.is_extrapolation(ar, e) && bands.len() == horizon && forall|i: int|
                0 <= i < bands.len() ==> is_damped_band(ar, e, (i + 1) as usize, #[trigger] bands[i])
    }

    /// The decay factor used in extrapolation: the configured one held between zero and one.
    pub fn damping_factor(&self) -> (phi: Double)
        ensures
            phi == self.decay(),
            !self.damping.nan() ==> Double::zero_spec().le_spec(phi) && phi.le_spec(
                Double::one_spec(),
            ),
    {
        self.damping.clamp(Double::zero(), Double::one())
    }

    /// The last two values of the trend, from which the slope is taken.
    pub fn anchor(&self) -> (a: Anchor)
        ensures
            a.last == self.last_value(),
            a.previous == (if self.trend.len() > 1 {
                Some(self.trend[self.trend.len() - 2])
            } else {
                None
            }),
    {
        let n = self.trend.len();
        let last = if n > 0 {
            self.trend[n - 1]
        } else {
            Double::zero()
        };
        let previous = if n > 1 {
            Some(self.trend[n - 2])
        } else {
            None
        };
        Anchor { last, previous }
    }

    /// What the model predicts for each of the next `horizon_days` days: the
    /// last slope carried on with geometric damping.
    #[verifier::rlimit(50)]
    pub fn bands<A: Arithmetic>(&self, ar: &A, horizon_days: usize) -> (bands: Vec<Band>)
        ensures
            bands.len() == horizon_days,
            self.are_bands(ar, horizon_days as nat, bands@),
    {
        let anchor = self.anchor();
        let last = anchor.last;
        let slope = match anchor.previous {
            Some(previous) => ar.difference(last, previous),
            None => Double::zero(),
        };
        let resid_var = ar.product(self.resid_std, self.resid_std);
        let slope_var = ar.product(self.slope_std, self.slope_std);
        let phi = self.damping_factor();
        let gap = ar.difference(phi, Double::one());
        let undamped = gap.abs().lt(Double::from_bits(DAMPING_TOLERANCE_BITS));
        let e = Extrapolation {
            last,
            slope,
            resid_var,
            slope_var,
            phi,
            undamped,
            scale: self.scale,
        };
        assert(answers_difference(ar, e.phi, Double::one_spec(), gap) && e.undamped
            == gap.abs_spec().lt_spec(Double { bits: DAMPING_TOLERANCE_BITS }));
        assert(self.is_extrapolation(ar, e));
        let mut bands: Vec<Band> = Vec::new();
        let mut step: usize = 0;
        while step < horizon_days
            invariant
                step <= horizon_days,
                bands.len() == step,
                forall|i: int|
                    0 <= i < bands.len() ==> is_damped_band(
                        ar,
                        e,
                        (i + 1) as usize,
                        #[trigger] bands[i],
                    ),
            decreases horizon_days - step,
        {
            bands.push(damped_band(ar, e, step + 1));
            step = step + 1;
        }
        bands
    }

    /// The forecast over the next `horizon_days` days: one entry per day, the
    /// first one the day after the last observation, each with the band the
    /// model extrapolates for it, its bounds enclosing its mean. A horizon of
    /// no days gives five empty sequences. Fails where the horizon runs past
    /// the calendar, and where a band is degenerate.
    #[verifier::rlimit(50)]
    pub fn forecast<A: Arithmetic>(&self, ar: &A, horizon_days: usize) -> (r: Result<
        Forecast,
        ForecastError,
    >)
        requires
            self.last_date.wf(),
        ensures
            !horizon_fits(self.last_date@, horizon_days as nat) ==> r == Err::<
                Forecast,
                ForecastError,
            >(ForecastError::HorizonPastCalendar),
            horizon_fits(self.last_date@, horizon_days as nat) ==> exists|bands: Seq<Band>|
                #![trigger is_forecast_of(bands, r)]
                self.are_bands(ar, horizon_days as nat, bands) && is_forecast_of(bands, r),
            horizon_days == 0 ==> r.is_ok() && r.unwrap().dates.len() == 0 && r.unwrap().mean.len()
                == 0 && r.unwrap().lower.len() == 0 && r.unwrap().upper.len() == 0
                && r.unwrap().variance.len() == 0,
            r.is_ok() ==> {
                let f = r.unwrap();
                &&& f.wf()
                &&& f.dates.len() == horizon_days
                &&& f.follows(self.last_date@)
                &&& f.bands_ordered()
                &&& f.variances_non_negative()
                &&& forall|i: int, j: int|
                    0 <= i < j < horizon_days ==> (#[trigger] f.dates[i])@.before(
                        (#[trigger] f.dates[j])@,
                    )
            },
    {
        if forecast_dates(self.last_date, horizon_days).is_err() {
            return Err(ForecastError::HorizonPastCalendar);
        }
        let bands = self.bands(ar, horizon_days);
        if !are_bands_sound(&bands) {
            let r = Err(ForecastError::DegenerateBand);
            assert(self.are_bands(ar, horizon_days as nat, bands@) && is_forecast_of(bands@, r));
            return r;
        }
        let r = Forecast::dated(self.last_date, &bands);
        proof {
            let f = r.unwrap();
            assert(f.holds(bands@));
            assert forall|i: int| 0 <= i < f.dates.len() implies (#[trigger] f.band(i)).ordered() by {
                assert(f.band(i) == bands[i]);
            }
            assert forall|i: int| 0 <= i < f.dates.len() implies Double::zero_spec().le_spec(
                #[trigger] f.variance[i],
            ) by {
                assert(f.band(i) == bands[i]);
            }
            assert(self.are_bands(ar, horizon_days as nat, bands@) && is_forecast_of(bands@, r));
        }
        r
    }
}

} // verus!
