use argmin::solver::linesearch::MoreThuenteLineSearch;
use argmin::solver::quasinewton::LBFGS;
use territory_forecast::arith::Arithmetic;
use territory_forecast::calendar::Date;
use territory_forecast::config::{ConfigError, ModelConfig, TrendFilterConfig};
use territory_forecast::filter::{
    guard_cost, initial_params, is_innovation_usable, kalman_filter, predict_state, unpack_params,
    Covariance, LocalLinearTrendProblem, Sigmas, TrendState,
};
use territory_forecast::forecast::{are_bands_sound, Band, Forecast, ForecastError};
use territory_forecast::ieee::Double;
use territory_forecast::model::{
    check_series_shape, train_from_series, train_trend_filter_from_series, FittedModel,
    TrainError, TrendFilterModel,
};
use territory_forecast::objective::{ModelKind, Objective};
use territory_forecast::rank::{are_all_numbers, numeric_order, order_statistic};
use territory_forecast::stats::{first_differences, rescale, stddev};
use territory_forecast::trend_filter::{huber_grad, huber_loss, TrendFilterProblem};
use territory_forecast::weights::{
    median_rank, trailing_window, unit_weights, volatility_weights, weight, Window,
};

struct Native;

fn d(x: f64) -> Double {
    Double::from_bits(x.to_bits())
}

fn f(x: Double) -> f64 {
    f64::from_bits(x.to_bits())
}

fn ds(xs: &[f64]) -> Vec<Double> {
    xs.iter().map(|&x| d(x)).collect()
}

fn fs(xs: &[Double]) -> Vec<f64> {
    xs.iter().map(|&x| f(x)).collect()
}

impl Arithmetic for Native {
    fn sum(&self, a: Double, b: Double) -> Double {
        d(f(a) + f(b))
    }

    fn difference(&self, a: Double, b: Double) -> Double {
        d(f(a) - f(b))
    }

    fn product(&self, a: Double, b: Double) -> Double {
        d(f(a) * f(b))
    }

    fn quotient(&self, a: Double, b: Double) -> Double {
        d(f(a) / f(b))
    }

    fn fused(&self, a: Double, b: Double, c: Double) -> Double {
        d(f(a).mul_add(f(b), f(c)))
    }

    fn square_root(&self, a: Double) -> Double {
        d(f(a).sqrt())
    }

    fn natural_log(&self, a: Double) -> Double {
        d(f(a).ln())
    }

    fn exponential(&self, a: Double) -> Double {
        d(f(a).exp())
    }

    fn power(&self, a: Double, b: Double) -> Double {
        d(f(a).powf(f(b)))
    }

    fn of_count(&self, n: usize) -> Double {
        d(n as f64)
    }
}

struct Minimised {
    objective: Objective,
}

impl argmin::core::CostFunction for Minimised {
    type Param = Vec<f64>;
    type Output = f64;

    fn cost(&self, param: &Vec<f64>) -> Result<f64, argmin::core::Error> {
        Ok(f(self.objective.cost(&Native, &ds(param))))
    }
}

impl argmin::core::Gradient for Minimised {
    type Param = Vec<f64>;
    type Gradient = Vec<f64>;

    fn gradient(&self, param: &Vec<f64>) -> Result<Vec<f64>, argmin::core::Error> {
        Ok(fs(&self.objective.gradient(&Native, &ds(param))))
    }
}

fn minimise(objective: Objective, init: Vec<f64>, history: usize, max_iters: u64) -> Option<Vec<f64>> {
    let linesearch = MoreThuenteLineSearch::new().with_c(1e-4, 0.9).unwrap();
    let solver = LBFGS::new(linesearch, history)
        .with_tolerance_grad(1e-8)
        .unwrap()
        .with_tolerance_cost(1e-10)
        .unwrap();
    let result = argmin::core::Executor::new(Minimised { objective }, solver)
        .configure(|state| state.param(init).max_iters(max_iters))
        .run()
        .unwrap();
    argmin::core::State::get_param(&result.state).cloned()
}

fn days(n: usize) -> Vec<Date> {
    let mut out = Vec::new();
    let mut day = Date::new(2024, 1, 1).unwrap();
    for _ in 0..n {
        out.push(day);
        day = day.succ().unwrap();
    }
    out
}

fn fit_llt(values: &[f64], config: ModelConfig) -> FittedModel {
    let task = train_from_series(&Native, &days(values.len()), &ds(values), config).unwrap();
    let objective = task.objective();
    assert_eq!(objective.kind(), ModelKind::LocalLinearTrend);
    let best = minimise(objective, fs(&task.init), task.history, task.max_iters).map(|p| ds(&p));
    task.finish(&Native, best.as_ref()).unwrap()
}

fn fit_trend(values: &[f64], config: TrendFilterConfig) -> TrendFilterModel {
    let task =
        train_trend_filter_from_series(&Native, &days(values.len()), &ds(values), config).unwrap();
    let objective = task.objective();
    assert_eq!(objective.kind(), ModelKind::TrendFilter);
    let best = minimise(objective, fs(&task.init), task.history, task.max_iters).map(|p| ds(&p));
    task.finish(&Native, best).unwrap()
}

fn llt_config(scale: f64) -> ModelConfig {
    ModelConfig { max_iters: 400, history: 10, scale: d(scale) }
}

fn trend_config(lambda: f64, scale: f64) -> TrendFilterConfig {
    TrendFilterConfig {
        lambda: d(lambda),
        epsilon: d(1e-3),
        huber_delta: d(0.0),
        damping: d(1.0),
        max_iters: 400,
        history: 10,
        scale: d(scale),
    }
}

fn wavy(n: usize) -> Vec<f64> {
    (0..n).map(|i| 100_000.0 + 37.0 * i as f64 + 500.0 * ((i * i % 17) as f64 - 8.0)).collect()
}

fn sample_model() -> FittedModel {
    FittedModel {
        sigma_level: d(0.5),
        sigma_trend: d(0.25),
        sigma_obs: d(1.0),
        state: TrendState { level: d(10.0), slope: d(2.0) },
        cov: Covariance { level_var: d(1.0), level_slope: d(0.5), slope_level: d(0.5), slope_var: d(0.25) },
        last_date: Date::new(2024, 2, 27).unwrap(),
        scale: d(10.0),
        nll: d(0.0),
        last_weight: d(1.0),
    }
}

fn sample_trend_model(damping: f64) -> TrendFilterModel {
    TrendFilterModel {
        trend: ds(&[1.0, 1.5, 2.0]),
        last_date: Date::new(2024, 12, 30).unwrap(),
        scale: d(10.0),
        resid_std: d(0.5),
        slope_std: d(0.25),
        damping: d(damping),
    }
}

#[test]
fn series_shorter_than_the_model_needs_is_refused() {
    let one = train_from_series(&Native, &days(1), &ds(&[5.0]), llt_config(1.0));
    assert_eq!(one.err(), Some(TrainError::TooFewObservations { needed: 2 }));
    let two = train_trend_filter_from_series(
        &Native,
        &days(2),
        &ds(&[5.0, 6.0]),
        trend_config(5.0, 1.0),
    );
    assert_eq!(two.err(), Some(TrainError::TooFewObservations { needed: 3 }));
}

#[test]
fn empty_or_ragged_series_is_refused() {
    let empty = train_from_series(&Native, &days(0), &ds(&[]), llt_config(1.0));
    assert_eq!(empty.err(), Some(TrainError::EmptyOrMismatched));
    let ragged = train_from_series(&Native, &days(3), &ds(&[1.0, 2.0]), llt_config(1.0));
    assert_eq!(ragged.err(), Some(TrainError::EmptyOrMismatched));
    let ragged = train_trend_filter_from_series(
        &Native,
        &days(3),
        &ds(&[1.0, 2.0, 3.0, 4.0]),
        trend_config(5.0, 1.0),
    );
    assert_eq!(ragged.err(), Some(TrainError::EmptyOrMismatched));
    assert_eq!(check_series_shape(0, 0, 2), Err(TrainError::EmptyOrMismatched));
    assert_eq!(check_series_shape(2, 2, 2), Ok(()));
    assert_eq!(check_series_shape(2, 2, 3), Err(TrainError::TooFewObservations { needed: 3 }));
}

#[test]
fn optimiser_without_parameters_fails_the_training() {
    let task = train_from_series(&Native, &days(4), &ds(&[1.0, 2.0, 4.0, 3.0]), llt_config(1.0))
        .unwrap();
    assert_eq!(task.finish(&Native, None).err(), Some(TrainError::NoParameters));
    let task = train_trend_filter_from_series(
        &Native,
        &days(4),
        &ds(&[1.0, 2.0, 4.0, 3.0]),
        trend_config(5.0, 1.0),
    )
    .unwrap();
    assert_eq!(task.finish(&Native, None).err(), Some(TrainError::NoParameters));
}

#[test]
fn opened_training_holds_the_rescaled_series() {
    let task = train_from_series(
        &Native,
        &days(4),
        &ds(&[1000.0, 2000.0, 4000.0, 3000.0]),
        llt_config(-1.0),
    )
    .unwrap();
    assert_eq!(f(task.scale), 1000.0);
    assert_eq!(fs(&task.problem.y), vec![1.0, 2.0, 4.0, 3.0]);
    assert_eq!(task.problem.weights.len(), 4);
    assert_eq!(task.init.len(), 3);
    assert_eq!(task.last_date, Date::new(2024, 1, 4).unwrap());
    assert_eq!(task.max_iters, 400);
    assert_eq!(task.history, 10);
    let diffs: [f64; 3] = [1.0, 2.0, -1.0];
    let mean = diffs.iter().sum::<f64>() / 3.0;
    let var = diffs.iter().map(|x| (x - mean) * (x - mean)).sum::<f64>() / 3.0;
    let sd = var.sqrt();
    assert_eq!(fs(&task.init), vec![(sd * 0.5).ln(), (sd * 0.1).ln(), sd.ln()]);
}

#[test]
fn standard_deviation_is_that_of_the_population() {
    assert_eq!(f(stddev(&Native, &ds(&[]))), 1.0);
    assert_eq!(f(stddev(&Native, &ds(&[2.0, 4.0, 4.0, 4.0, 5.0, 5.0, 7.0, 9.0]))), 2.0);
    assert_eq!(f(stddev(&Native, &ds(&[3.0, 3.0, 3.0]))), 1e-6);
    assert_eq!(f(stddev(&Native, &ds(&[f64::NAN, 1.0]))), 1e-6);
    assert_eq!(fs(&first_differences(&Native, &ds(&[1.0, 4.0, 2.0]))), vec![3.0, -2.0]);
    assert!(first_differences(&Native, &ds(&[])).is_empty());
    assert_eq!(fs(&rescale(&Native, &ds(&[10.0, 25.0]), d(10.0))), vec![1.0, 2.5]);
}

#[test]
fn trailing_window_holds_at_most_twenty_one_differences() {
    assert_eq!(trailing_window(1), Window { start: 1, count: 1 });
    assert_eq!(trailing_window(20), Window { start: 1, count: 20 });
    assert_eq!(trailing_window(21), Window { start: 1, count: 21 });
    assert_eq!(trailing_window(22), Window { start: 2, count: 21 });
    assert_eq!(trailing_window(100), Window { start: 80, count: 21 });
}

#[test]
fn reference_is_the_upper_median() {
    assert_eq!(median_rank(0), None);
    assert_eq!(median_rank(1), None);
    assert_eq!(median_rank(2), Some(0));
    assert_eq!(median_rank(3), Some(1));
    assert_eq!(median_rank(4), Some(1));
    assert_eq!(median_rank(5), Some(2));
}

#[test]
fn order_statistic_is_found_in_an_unordered_sample() {
    let sample = [5.0, 1.0, 4.0, 2.0, 3.0];
    assert_eq!(f(order_statistic(ds(&sample), 0).unwrap()), 1.0);
    assert_eq!(f(order_statistic(ds(&sample), 2).unwrap()), 3.0);
    assert_eq!(f(order_statistic(ds(&sample), 4).unwrap()), 5.0);
    assert_eq!(f(order_statistic(ds(&[9.0, -1.0, 0.5, -7.0]), 1).unwrap()), -1.0);
    assert!(order_statistic(ds(&[1.0, f64::NAN, 0.0]), 1).is_none());
    assert!(are_all_numbers(&ds(&[1.0, f64::INFINITY])));
    assert!(!are_all_numbers(&ds(&[1.0, f64::NAN])));
    assert_eq!(numeric_order(&d(1.0), &d(2.0)), std::cmp::Ordering::Less);
    assert_eq!(numeric_order(&d(2.0), &d(1.0)), std::cmp::Ordering::Greater);
    assert_eq!(numeric_order(&d(0.0), &d(-0.0)), std::cmp::Ordering::Equal);
}

fn reference_weights(series: &[f64]) -> Vec<f64> {
    let n = series.len();
    let mut diffs = vec![0.0; n];
    for i in 1..n {
        diffs[i] = (series[i] - series[i - 1]).abs();
    }
    let mut vol = vec![0.0; n];
    for i in 1..n {
        let start = if i > 21 { i - 20 } else { 1 };
        let mut sum = 0.0;
        for j in start..=i {
            sum += diffs[j];
        }
        vol[i] = sum / (i - start + 1) as f64;
    }
    vol[0] = vol[1];
    let mut sample = vol[1..].to_vec();
    sample.sort_by(|a, b| a.partial_cmp(b).unwrap());
    let median = sample[sample.len() / 2];
    if !median.is_finite() || median <= 0.0 {
        return vec![1.0; n];
    }
    vol.iter().map(|v| (v / median).clamp(0.6, 2.5)).collect()
}

#[test]
fn weights_follow_local_volatility_over_its_median() {
    let series = wavy(60);
    let got = fs(&volatility_weights(&Native, &ds(&series)));
    assert_eq!(got, reference_weights(&series));
    assert!(got.iter().all(|w| (0.6..=2.5).contains(w)));
    assert!(got.iter().any(|w| *w != 1.0));
    let short = [1.0, 2.0, 4.0, 4.5];
    assert_eq!(fs(&volatility_weights(&Native, &ds(&short))), reference_weights(&short));
    let median = 3.5 / 3.0;
    assert_eq!(
        fs(&volatility_weights(&Native, &ds(&short))),
        vec![1.0 / median, 1.0 / median, 1.5 / median, 1.0]
    );
}

#[test]
fn weights_default_to_one() {
    assert!(volatility_weights(&Native, &ds(&[])).is_empty());
    assert_eq!(fs(&volatility_weights(&Native, &ds(&[3.0]))), vec![1.0]);
    assert_eq!(fs(&volatility_weights(&Native, &ds(&[3.0; 10]))), vec![1.0; 10]);
    assert_eq!(fs(&volatility_weights(&Native, &ds(&[1.0, f64::NAN, 2.0]))), vec![1.0; 3]);
    assert_eq!(fs(&unit_weights(3)), vec![1.0; 3]);
}

#[test]
fn prediction_step_moves_the_level_and_grows_the_covariance() {
    let state = TrendState { level: d(10.0), slope: d(2.0) };
    let cov = Covariance { level_var: d(1.0), level_slope: d(0.5), slope_level: d(0.5), slope_var: d(0.25) };
    let (s, c) = predict_state(&Native, state, cov, d(0.125), d(0.0625));
    assert_eq!(f(s.level), 12.0);
    assert_eq!(f(s.slope), 2.0);
    assert_eq!(f(c.level_var), 2.0 * 0.5 + 1.0 + 0.25 + 0.125);
    assert_eq!(f(c.level_slope), 0.75);
    assert_eq!(f(c.slope_level), 0.75);
    assert_eq!(f(c.slope_var), 0.3125);
}

fn reference_filter(y: &[f64], sl: f64, st: f64, so: f64, w: &[f64]) -> (f64, [f64; 2], [f64; 4]) {
    let (ql, qt, r) = (sl.max(1e-6).powi(2), st.max(1e-6).powi(2), so.max(1e-6).powi(2));
    let mut x = [y[0], 0.0];
    let mut p = [1.0e4, 0.0, 0.0, 1.0e2];
    let mut nll = 0.0;
    for (i, &obs) in y.iter().enumerate() {
        let wt = w.get(i).copied().unwrap_or(1.0).clamp(0.6, 2.5);
        x[0] += x[1];
        let level_var = 2.0f64.mul_add(p[1], p[0]) + p[3] + ql * wt * wt;
        let level_slope = p[1] + p[3];
        let slope_var = p[3] + qt * wt * wt;
        p = [level_var, level_slope, level_slope, slope_var];
        let innovation = obs - x[0];
        let s = p[0] + r * wt * wt;
        if s <= 0.0 || !s.is_finite() {
            return (1e30, x, p);
        }
        let (k0, k1) = (p[0] / s, p[2] / s);
        x[0] += k0 * innovation;
        x[1] += k1 * innovation;
        let (a, b, c) = (p[0], p[1], p[3]);
        p = [(1.0 - k0) * a, (1.0 - k0) * b, (1.0 - k0) * b, c - k1 * b];
        nll += 0.5 * ((2.0 * std::f64::consts::PI * s).ln() + (innovation * innovation) / s);
    }
    (nll, x, p)
}

#[test]
fn filter_pass_is_the_kalman_recursion() {
    let y = [1.0, 1.5, 2.5, 2.0, 3.5, 4.0];
    let w = [1.0, 0.2, 3.0, 1.1, 0.9, 1.0];
    let got = kalman_filter(&Native, &ds(&y), d(0.3), d(0.05), d(0.7), Some(&ds(&w)));
    let (nll, x, p) = reference_filter(&y, 0.3, 0.05, 0.7, &w);
    assert_eq!(f(got.nll), nll);
    assert_eq!([f(got.state.level), f(got.state.slope)], x);
    assert_eq!([f(got.cov.level_var), f(got.cov.level_slope), f(got.cov.slope_level), f(got.cov.slope_var)], p);
    assert!(nll.is_finite() && nll != 1e30);
    let unweighted = kalman_filter(&Native, &ds(&y), d(0.3), d(0.05), d(0.7), None);
    let (nll, _, _) = reference_filter(&y, 0.3, 0.05, 0.7, &[]);
    assert_eq!(f(unweighted.nll), nll);
}

#[test]
fn filter_pass_over_nothing_costs_the_sentinel() {
    let got = kalman_filter(&Native, &ds(&[]), d(0.3), d(0.05), d(0.7), None);
    assert_eq!(f(got.nll), 1e30);
    assert_eq!([f(got.state.level), f(got.state.slope)], [0.0, 0.0]);
    assert_eq!([f(got.cov.level_var), f(got.cov.level_slope), f(got.cov.slope_level), f(got.cov.slope_var)], [0.0; 4]);
}

#[test]
fn filter_pass_stops_at_an_unusable_innovation_variance() {
    let got = kalman_filter(&Native, &ds(&[1.0, 2.0]), d(f64::INFINITY), d(0.05), d(0.7), None);
    assert_eq!(f(got.nll), 1e30);
    assert!(is_innovation_usable(d(0.5)));
    assert!(!is_innovation_usable(d(0.0)));
    assert!(!is_innovation_usable(d(-1.0)));
    assert!(!is_innovation_usable(d(f64::INFINITY)));
    assert!(!is_innovation_usable(d(f64::NAN)));
    assert_eq!(f(guard_cost(d(3.5))), 3.5);
    assert_eq!(f(guard_cost(d(f64::NAN))), 1e30);
    assert_eq!(f(guard_cost(d(f64::INFINITY))), 1e30);
}

#[test]
fn deviations_are_floored_above_zero() {
    let s = unpack_params(&Native, &ds(&[0.0, -100.0, 2.0f64.ln()]));
    assert_eq!(f(s.level), 1.0);
    assert_eq!(f(s.trend), 1e-6);
    assert_eq!(f(s.obs), 2.0f64.ln().exp());
    let s = unpack_params(&Native, &ds(&[0.0, 1.0]));
    assert_eq!([f(s.level), f(s.trend), f(s.obs)], [1e-6; 3]);
    let s = unpack_params(&Native, &ds(&[f64::NAN, f64::NEG_INFINITY, 0.0]));
    assert_eq!([f(s.level), f(s.trend), f(s.obs)], [1e-6, 1e-6, 1.0]);
    let raised = (Sigmas { level: d(0.0), trend: d(5.0), obs: d(f64::NAN) }).raise();
    assert_eq!([f(raised.level), f(raised.trend), f(raised.obs)], [1e-6, 5.0, 1e-6]);
    assert!(raised.are_finite());
}

#[test]
fn likelihood_answers_the_sentinel_where_it_cannot_be_evaluated() {
    let y = ds(&[1.0, 1.5, 2.5, 2.0]);
    let problem = LocalLinearTrendProblem::new(y.clone(), ds(&[1.0; 4]));
    assert_eq!(f(problem.nll(&Native, &ds(&[0.0, 0.0]))), 1e30);
    assert_eq!(f(problem.nll(&Native, &ds(&[0.0, 0.0, 0.0, 0.0]))), 1e30);
    assert_eq!(f(problem.nll(&Native, &ds(&[1000.0, 0.0, 0.0]))), 1e30);
    let at = [0.3f64.ln(), 0.05f64.ln(), 0.7f64.ln()];
    let sigmas = unpack_params(&Native, &ds(&at));
    let direct = kalman_filter(&Native, &y, sigmas.level, sigmas.trend, sigmas.obs, Some(&ds(&[1.0; 4])));
    assert_eq!(f(problem.nll(&Native, &ds(&at))), f(direct.nll));
    assert_eq!(f(problem.cost(&Native, &ds(&at))), f(direct.nll));
}

#[test]
fn likelihood_gradient_is_a_symmetric_difference() {
    let problem = LocalLinearTrendProblem::new(ds(&[1.0, 1.5, 2.5, 2.0]), ds(&[1.0; 4]));
    let at = [-1.0, -3.0, -0.5];
    let grad = fs(&problem.gradient(&Native, &ds(&at)));
    assert_eq!(grad.len(), 3);
    for i in 0..3 {
        let step = 1e-4 * (1.0 + at[i].abs());
        let (mut plus, mut minus) = (at, at);
        plus[i] += step;
        minus[i] -= step;
        let want = (f(problem.nll(&Native, &ds(&plus))) - f(problem.nll(&Native, &ds(&minus))))
            / (2.0 * step);
        assert_eq!(grad[i], want);
    }
    assert!(grad.iter().any(|g| *g != 0.0));
}

#[test]
fn initial_guess_is_derived_from_the_first_differences() {
    let init = fs(&initial_params(&Native, &ds(&[3.0, 3.0, 3.0])));
    assert_eq!(init, vec![(1e-3f64 * 0.5).ln(), (1e-3f64 * 0.1).ln(), 1e-3f64.ln()]);
}

#[test]
fn huber_loss_is_quadratic_then_linear() {
    assert_eq!(f(huber_loss(&Native, d(0.5), d(1.0))), 0.125);
    assert_eq!(f(huber_loss(&Native, d(-1.0), d(1.0))), 0.5);
    assert_eq!(f(huber_loss(&Native, d(3.0), d(1.0))), 2.5);
    assert_eq!(f(huber_loss(&Native, d(-3.0), d(2.0))), 4.0);
    assert_eq!(f(huber_grad(d(0.5), d(1.0))), 0.5);
    assert_eq!(f(huber_grad(d(-0.5), d(1.0))), -0.5);
    assert_eq!(f(huber_grad(d(3.0), d(1.0))), 1.0);
    assert_eq!(f(huber_grad(d(-3.0), d(1.0))), -1.0);
    assert_eq!(f(huber_grad(d(f64::NAN), d(1.0))), -1.0);
}

#[test]
fn trend_cost_is_data_term_plus_roughness() {
    let problem = TrendFilterProblem::new(ds(&[1.0, 2.0, 4.0, 3.0]), d(2.0), d(0.0), d(1.0));
    let trend = [1.5, 2.0, 2.0, 6.0];
    let data = 0.125 + 0.0 + (1.0 * (2.0 - 0.5)) + (1.0 * (3.0 - 0.5));
    let rough = 2.0 * 0.5 + 2.0 * 4.0;
    assert_eq!(f(problem.cost(&Native, &ds(&trend))), data + rough);
    assert_eq!(f(problem.cost(&Native, &ds(&[1.0, 2.0]))), 1e30);
    let grad = fs(&problem.gradient(&Native, &ds(&trend)));
    assert_eq!(grad, vec![0.5 - 2.0, 0.0 + 4.0 + 2.0, -1.0 - 2.0 - 4.0, 1.0 + 2.0]);
    assert_eq!(fs(&problem.gradient(&Native, &ds(&[1.0, 2.0]))), vec![0.0, 0.0]);
    assert_eq!(f(problem.threshold()), 1.0);
}

#[test]
fn without_penalty_the_series_is_its_own_best_trend() {
    let flat = [7.0; 12];
    let free = TrendFilterProblem::new(ds(&flat), d(0.0), d(1e-3), d(1.0));
    assert_eq!(f(free.cost(&Native, &ds(&flat))), 0.0);
    assert_eq!(fs(&free.gradient(&Native, &ds(&flat))), vec![0.0; 12]);
    let bumpy = [7.0, 9.0, 4.0, 8.0];
    let free = TrendFilterProblem::new(ds(&bumpy), d(0.0), d(1e-3), d(1.0));
    let held = TrendFilterProblem::new(ds(&bumpy), d(5.0), d(1e-3), d(1.0));
    assert_eq!(f(free.cost(&Native, &ds(&bumpy))), 0.0);
    assert!(f(held.cost(&Native, &ds(&bumpy))) > 0.0);
    let unpenalised = fit_trend(&flat, trend_config(0.0, 1.0));
    let penalised = fit_trend(&flat, trend_config(5.0, 1.0));
    let worst = |m: &TrendFilterModel| {
        fs(&m.trend).iter().map(|t| (t - 7.0).abs()).fold(0.0, f64::max)
    };
    assert!(worst(&unpenalised) <= worst(&penalised) + 1e-9);
    assert!(worst(&unpenalised) < 1e-6);
}

#[test]
fn zero_horizon_gives_empty_sequences() {
    for forecast in [
        sample_model().forecast(&Native, 0).unwrap(),
        sample_trend_model(1.0).forecast(&Native, 0).unwrap(),
        sample_trend_model(0.5).forecast(&Native, 0).unwrap(),
    ] {
        assert_eq!(forecast.len(), 0);
        assert!(forecast.dates.is_empty());
        assert!(forecast.mean.is_empty());
        assert!(forecast.lower.is_empty());
        assert!(forecast.upper.is_empty());
        assert!(forecast.variance.is_empty());
    }
}

#[test]
fn local_linear_trend_forecast_steps_the_prediction() {
    let forecast = sample_model().forecast(&Native, 3).unwrap();
    assert_eq!(
        forecast.dates,
        vec![
            Date::new(2024, 2, 28).unwrap(),
            Date::new(2024, 2, 29).unwrap(),
            Date::new(2024, 3, 1).unwrap()
        ]
    );
    assert_eq!(fs(&forecast.mean), vec![120.0, 140.0, 160.0]);
    let first_step = 2.0 * 0.5 + 1.0 + 0.25 + 0.25;
    let first_variance: f64 = first_step + 1.0;
    assert_eq!(f(forecast.variance[0]), first_variance * 10.0 * 10.0);
    assert_eq!(f(forecast.lower[0]), 1.96f64.mul_add(-first_variance.sqrt(), 12.0) * 10.0);
    assert_eq!(f(forecast.upper[0]), 1.96f64.mul_add(first_variance.sqrt(), 12.0) * 10.0);
    let second_step = 2.0 * 0.75 + first_step + 0.3125 + 0.25;
    assert_eq!(f(forecast.variance[1]), (second_step + 1.0) * 100.0);
    assert!(forecast.has_ordered_bands());
    assert!(forecast.has_non_negative_variances());
    assert!(forecast.has_non_decreasing_variance());
}

#[test]
fn trend_forecast_carries_the_last_slope_on() {
    let forecast = sample_trend_model(1.0).forecast(&Native, 3).unwrap();
    assert_eq!(
        forecast.dates,
        vec![
            Date::new(2024, 12, 31).unwrap(),
            Date::new(2025, 1, 1).unwrap(),
            Date::new(2025, 1, 2).unwrap()
        ]
    );
    assert_eq!(fs(&forecast.mean), vec![25.0, 30.0, 35.0]);
    assert_eq!(
        fs(&forecast.variance),
        vec![(0.0625 + 0.25) * 100.0, (4.0 * 0.0625 + 0.25) * 100.0, (9.0 * 0.0625 + 0.25) * 100.0]
    );
    let sd: f64 = (4.0f64 * 0.0625 + 0.25).sqrt();
    assert_eq!(f(forecast.lower[1]), 1.96f64.mul_add(-sd, 3.0) * 10.0);
    assert_eq!(f(forecast.upper[1]), 1.96f64.mul_add(sd, 3.0) * 10.0);
    assert!(forecast.has_ordered_bands());
}

#[test]
fn damped_trend_forecast_sums_the_geometric_series() {
    let forecast = sample_trend_model(0.5).forecast(&Native, 3).unwrap();
    assert_eq!(fs(&forecast.mean), vec![25.0, 27.5, 28.75]);
    assert_eq!(f(forecast.variance[2]), (1.75 * 1.75 * 0.0625 + 0.25) * 100.0);
    let model = sample_trend_model(7.0);
    assert_eq!(f(model.damping_factor()), 1.0);
    assert_eq!(f(sample_trend_model(-2.0).damping_factor()), 0.0);
    let anchor = model.anchor();
    assert_eq!(f(anchor.last), 2.0);
    assert_eq!(anchor.previous.map(f), Some(1.5));
}

#[test]
fn trend_of_one_value_is_carried_flat() {
    let mut model = sample_trend_model(1.0);
    model.trend = ds(&[4.0]);
    assert!(model.anchor().previous.is_none());
    assert_eq!(fs(&model.forecast(&Native, 2).unwrap().mean), vec![40.0, 40.0]);
    model.trend = Vec::new();
    assert_eq!(f(model.anchor().last), 0.0);
    assert_eq!(fs(&model.forecast(&Native, 1).unwrap().mean), vec![0.0]);
}

#[test]
fn forecast_past_the_calendar_is_refused() {
    let mut model = sample_model();
    model.last_date = Date::new(9999, 12, 30).unwrap();
    assert!(model.forecast(&Native, 1).is_ok());
    assert_eq!(model.forecast(&Native, 2).err(), Some(ForecastError::HorizonPastCalendar));
    let mut trend = sample_trend_model(1.0);
    trend.last_date = Date::new(9999, 12, 31).unwrap();
    assert_eq!(trend.forecast(&Native, 1).err(), Some(ForecastError::HorizonPastCalendar));
}

#[test]
fn frozen_weight_is_held_to_the_band() {
    let mut model = sample_model();
    model.last_weight = d(9.0);
    assert_eq!(f(model.noise_weight()), 2.5);
    let forecast = model.forecast(&Native, 1).unwrap();
    let first_step = 2.0 * 0.5 + 1.0 + 0.25 + 0.25 * 2.5 * 2.5;
    assert_eq!(f(forecast.variance[0]), (first_step + 1.0 * 2.5 * 2.5) * 100.0);
}

#[test]
fn bands_are_dated_one_by_one() {
    let bands = vec![
        Band { mean: d(1.0), lower: d(0.0), upper: d(2.0), variance: d(0.25) },
        Band { mean: d(3.0), lower: d(4.0), upper: d(5.0), variance: d(0.125) },
    ];
    let forecast = Forecast::dated(Date::new(2024, 6, 30).unwrap(), &bands).unwrap();
    assert_eq!(forecast.dates, vec![Date::new(2024, 7, 1).unwrap(), Date::new(2024, 7, 2).unwrap()]);
    assert_eq!(fs(&forecast.mean), vec![1.0, 3.0]);
    assert_eq!(fs(&forecast.lower), vec![0.0, 4.0]);
    assert_eq!(fs(&forecast.upper), vec![2.0, 5.0]);
    assert_eq!(fs(&forecast.variance), vec![0.25, 0.125]);
    assert!(bands[0].is_ordered());
    assert!(!bands[1].is_ordered());
    assert!(!are_bands_sound(&bands));
    assert!(are_bands_sound(&bands[..1].to_vec()));
    assert!(!forecast.has_ordered_bands());
    assert!(forecast.has_non_negative_variances());
    assert!(!forecast.has_non_decreasing_variance());
}

#[test]
fn fitted_deviations_are_positive_and_finite() {
    let model = fit_llt(&wavy(40), llt_config(1000.0));
    for sigma in [f(model.sigma_level), f(model.sigma_trend), f(model.sigma_obs)] {
        assert!(sigma.is_finite() && sigma >= 1e-6);
    }
    assert!(f(model.scale) == 1000.0);
    let trend = fit_trend(&wavy(40), trend_config(5.0, 1000.0));
    assert!(f(trend.resid_std).is_finite() && f(trend.resid_std) > 0.0);
    assert!(f(trend.slope_std).is_finite() && f(trend.slope_std) > 0.0);
    assert_eq!(trend.trend.len(), 40);
}

#[test]
fn fitted_forecasts_have_ordered_bands_and_growing_variance() {
    let model = fit_llt(&wavy(40), llt_config(1000.0));
    let forecast = model.forecast(&Native, 30).unwrap();
    assert_eq!(forecast.len(), 30);
    assert!(forecast.has_ordered_bands());
    assert!(forecast.has_non_negative_variances());
    assert!(forecast.has_non_decreasing_variance());
    let trend = fit_trend(&wavy(40), trend_config(5.0, 1000.0));
    let forecast = trend.forecast(&Native, 30).unwrap();
    assert!(forecast.has_ordered_bands());
    assert!(forecast.has_non_negative_variances());
    for i in 1..30 {
        assert!(forecast.dates[i - 1].is_before(forecast.dates[i]));
    }
}

#[test]
fn constant_series_is_forecast_flat() {
    let model = fit_llt(&[250.0; 30], llt_config(1.0));
    assert!(f(model.sigma_trend) < 1e-2);
    let forecast = model.forecast(&Native, 5).unwrap();
    let widths: Vec<f64> =
        (0..5).map(|i| f(forecast.upper[i]) - f(forecast.lower[i])).collect();
    for i in 0..5 {
        let mean = f(forecast.mean[i]);
        assert!((mean - 250.0).abs() < 1e-3, "mean {mean}");
        let up = f(forecast.upper[i]) - mean;
        let down = mean - f(forecast.lower[i]);
        assert!((up - down).abs() < 1e-9);
        assert!((widths[i] - widths[0]).abs() < 0.5, "widths {widths:?}");
    }
}

#[test]
fn perfect_slope_is_continued() {
    let model = fit_trend(
        &[10.0, 12.0, 14.0, 16.0, 18.0],
        TrendFilterConfig {
            lambda: d(5.0),
            epsilon: d(1e-3),
            huber_delta: d(0.0),
            damping: d(1.0),
            max_iters: 400,
            history: 10,
            scale: d(1.0),
        },
    );
    let trend = fs(&model.trend);
    for (got, want) in trend.iter().zip([10.0, 12.0, 14.0, 16.0, 18.0]) {
        assert!((got - want).abs() < 1e-3, "trend {trend:?}");
    }
    let forecast = model.forecast(&Native, 2).unwrap();
    assert!((f(forecast.mean[0]) - 20.0).abs() < 1e-2);
    assert!((f(forecast.mean[1]) - 22.0).abs() < 1e-2);
}

#[test]
fn objective_dispatches_to_its_model() {
    let y = ds(&[1.0, 1.5, 2.5, 2.0]);
    let llt = Objective::Likelihood(LocalLinearTrendProblem::new(y.clone(), ds(&[1.0; 4])));
    let direct = LocalLinearTrendProblem::new(y.clone(), ds(&[1.0; 4]));
    let at = ds(&[-1.0, -3.0, -0.5]);
    assert_eq!(f(llt.cost(&Native, &at)), f(direct.cost(&Native, &at)));
    assert_eq!(fs(&llt.gradient(&Native, &at)), fs(&direct.gradient(&Native, &at)));
    assert_eq!(f(llt.cost(&Native, &ds(&[0.0]))), 1e30);
    let smooth = Objective::Smoothing(TrendFilterProblem::new(y.clone(), d(2.0), d(1e-3), d(1.0)));
    let direct = TrendFilterProblem::new(y, d(2.0), d(1e-3), d(1.0));
    let trend = ds(&[1.5, 2.0, 2.0, 6.0]);
    assert_eq!(f(smooth.cost(&Native, &trend)), f(direct.cost(&Native, &trend)));
    assert_eq!(fs(&smooth.gradient(&Native, &trend)), fs(&direct.gradient(&Native, &trend)));
    assert_eq!(f(smooth.cost(&Native, &ds(&[0.0]))), 1e30);
    assert_eq!(fs(&smooth.gradient(&Native, &ds(&[5.0]))), vec![0.0]);
    assert_eq!(smooth.kind(), ModelKind::TrendFilter);
    assert_eq!(llt.kind(), ModelKind::LocalLinearTrend);
}

#[test]
fn configuration_that_breaks_a_rule_fails_the_training() {
    let bad = train_trend_filter_from_series(
        &Native,
        &days(5),
        &ds(&[10.0, 12.0, 14.0, 16.0, 18.0]),
        trend_config(-1.0, 1.0),
    );
    assert_eq!(bad.err(), Some(TrainError::Config(ConfigError::Lambda)));
    let mut config = trend_config(5.0, 1.0);
    config.damping = d(1.5);
    let bad = train_trend_filter_from_series(&Native, &days(1), &ds(&[10.0]), config);
    assert_eq!(bad.err(), Some(TrainError::Config(ConfigError::Damping)));
}

#[test]
fn parameters_that_give_no_model_fail_the_training() {
    let task = train_from_series(&Native, &days(4), &ds(&[1.0, 2.0, 4.0, 3.0]), llt_config(1.0))
        .unwrap();
    let overflowing = ds(&[1000.0, 0.0, 0.0]);
    assert_eq!(
        task.finish(&Native, Some(&overflowing)).err(),
        Some(TrainError::UnusableParameters)
    );
    let fine = ds(&[0.0, -1.0, 0.5]);
    let model = task.finish(&Native, Some(&fine)).unwrap();
    assert_eq!(f(model.sigma_level), 1.0);
    let direct = kalman_filter(
        &Native,
        &task.problem.y,
        model.sigma_level,
        model.sigma_trend,
        model.sigma_obs,
        Some(&task.problem.weights),
    );
    assert_eq!(f(model.nll), f(direct.nll));
    assert_eq!(f(model.state.level), f(direct.state.level));
    assert_eq!(f(model.cov.level_var), f(direct.cov.level_var));
    assert_eq!(f(model.last_weight), f(task.problem.weights[3]));
    let task = train_trend_filter_from_series(
        &Native,
        &days(4),
        &ds(&[1.0, 2.0, 4.0, 3.0]),
        trend_config(5.0, 1.0),
    )
    .unwrap();
    assert_eq!(
        task.finish(&Native, Some(ds(&[1.0, 2.0, 4.0]))).err(),
        Some(TrainError::UnusableParameters)
    );
    assert_eq!(
        task.finish(&Native, Some(ds(&[1.0, f64::INFINITY, 4.0, 3.0]))).unwrap().trend.len(),
        4
    );
}

#[test]
fn dispersions_are_held_to_their_floors() {
    let task = train_trend_filter_from_series(
        &Native,
        &days(4),
        &ds(&[1.0, 2.0, 4.0, 3.0]),
        trend_config(5.0, 1.0),
    )
    .unwrap();
    let diffs: [f64; 3] = [1.0, 2.0, -1.0];
    let mean = diffs.iter().sum::<f64>() / 3.0;
    let sd = (diffs.iter().map(|x| (x - mean) * (x - mean)).sum::<f64>() / 3.0).sqrt();
    assert_eq!(f(task.diff_std), sd);
    assert_eq!(f(task.problem.huber_delta), 1.5 * sd);
    let exact = task.finish(&Native, Some(ds(&[1.0, 2.0, 4.0, 3.0]))).unwrap();
    assert_eq!(f(exact.resid_std), 0.25 * sd);
    assert_eq!(f(exact.slope_std), sd);
    let flat = task.finish(&Native, Some(ds(&[2.5, 2.5, 2.5, 2.5]))).unwrap();
    assert_eq!(f(flat.slope_std), 0.10 * sd);
    let resid: [f64; 4] = [-1.5, -0.5, 1.5, 0.5];
    let rsd = (resid.iter().map(|x| x * x).sum::<f64>() / 4.0).sqrt();
    assert_eq!(f(flat.resid_std), rsd);
}

#[test]
fn degenerate_band_fails_the_forecast() {
    let mut model = sample_model();
    model.scale = d(f64::NAN);
    assert_eq!(model.forecast(&Native, 2).err(), Some(ForecastError::DegenerateBand));
    assert!(model.forecast(&Native, 0).is_ok());
    let mut trend = sample_trend_model(1.0);
    trend.scale = d(f64::NAN);
    assert_eq!(trend.forecast(&Native, 1).err(), Some(ForecastError::DegenerateBand));
    assert_eq!(trend.bands(&Native, 1).len(), 1);
}

#[test]
fn weight_is_the_ratio_held_to_the_band() {
    assert_eq!(f(weight(&Native, d(3.0), d(2.0))), 1.5);
    assert_eq!(f(weight(&Native, d(30.0), d(2.0))), 2.5);
    assert_eq!(f(weight(&Native, d(0.1), d(2.0))), 0.6);
    assert_eq!(f(weight(&Native, d(f64::NAN), d(2.0))), 1.0);
    let series = wavy(60);
    let weights = fs(&volatility_weights(&Native, &ds(&series)));
    assert_eq!(weights[0], weights[1]);
}
