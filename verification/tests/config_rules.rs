use territory_forecast::config::{ConfigError, TrendFilterConfig};
use territory_forecast::ieee::Double;

fn d(x: f64) -> Double {
    Double::from_bits(x.to_bits())
}

fn f(x: Double) -> f64 {
    f64::from_bits(x.to_bits())
}

fn config(lambda: f64, epsilon: f64, huber_delta: f64, damping: f64, scale: f64) -> TrendFilterConfig {
    TrendFilterConfig {
        lambda: d(lambda),
        epsilon: d(epsilon),
        huber_delta: d(huber_delta),
        damping: d(damping),
        max_iters: 400,
        history: 10,
        scale: d(scale),
    }
}

#[test]
fn negative_lambda_is_refused() {
    let c = config(-1.0, 1e-3, 0.0, 1.0, 1000.0);
    assert_eq!(c.validate(), Err(ConfigError::Lambda));
    assert_eq!(ConfigError::Lambda.message(), "lambda must be finite and >= 0");
}

#[test]
fn lambda_that_is_not_finite_is_refused() {
    assert_eq!(config(f64::NAN, 1e-3, 0.0, 1.0, 1000.0).validate(), Err(ConfigError::Lambda));
    assert_eq!(config(f64::INFINITY, 1e-3, 0.0, 1.0, 1000.0).validate(), Err(ConfigError::Lambda));
}

#[test]
fn zero_lambda_is_accepted() {
    assert_eq!(config(0.0, 1e-3, 0.0, 1.0, 1000.0).validate(), Ok(()));
    assert_eq!(config(-0.0, 1e-3, 0.0, 1.0, 1000.0).validate(), Ok(()));
}

#[test]
fn epsilon_must_be_above_zero() {
    assert_eq!(config(5.0, 0.0, 0.0, 1.0, 1000.0).validate(), Err(ConfigError::Epsilon));
    assert_eq!(config(5.0, -1e-3, 0.0, 1.0, 1000.0).validate(), Err(ConfigError::Epsilon));
    assert_eq!(config(5.0, f64::INFINITY, 0.0, 1.0, 1000.0).validate(), Err(ConfigError::Epsilon));
    assert_eq!(config(5.0, f64::NAN, 0.0, 1.0, 1000.0).validate(), Err(ConfigError::Epsilon));
    assert_eq!(ConfigError::Epsilon.message(), "epsilon must be finite and > 0");
}

#[test]
fn huber_delta_must_not_be_negative() {
    assert_eq!(config(5.0, 1e-3, -0.5, 1.0, 1000.0).validate(), Err(ConfigError::HuberDelta));
    assert_eq!(config(5.0, 1e-3, f64::NAN, 1.0, 1000.0).validate(), Err(ConfigError::HuberDelta));
    assert_eq!(config(5.0, 1e-3, 2.0, 1.0, 1000.0).validate(), Ok(()));
    assert_eq!(ConfigError::HuberDelta.message(), "huber_delta must be finite and >= 0");
}

#[test]
fn damping_must_lie_between_zero_and_one() {
    assert_eq!(config(5.0, 1e-3, 0.0, 1.5, 1000.0).validate(), Err(ConfigError::Damping));
    assert_eq!(config(5.0, 1e-3, 0.0, -0.1, 1000.0).validate(), Err(ConfigError::Damping));
    assert_eq!(config(5.0, 1e-3, 0.0, f64::NAN, 1000.0).validate(), Err(ConfigError::Damping));
    assert_eq!(config(5.0, 1e-3, 0.0, 0.0, 1000.0).validate(), Ok(()));
    assert_eq!(config(5.0, 1e-3, 0.0, 0.5, 1000.0).validate(), Ok(()));
    assert_eq!(ConfigError::Damping.message(), "damping must be within [0, 1]");
}

#[test]
fn scale_must_be_finite() {
    assert_eq!(config(5.0, 1e-3, 0.0, 1.0, f64::INFINITY).validate(), Err(ConfigError::Scale));
    assert_eq!(config(5.0, 1e-3, 0.0, 1.0, f64::NAN).validate(), Err(ConfigError::Scale));
    assert_eq!(config(5.0, 1e-3, 0.0, 1.0, -3.0).validate(), Ok(()));
    assert_eq!(ConfigError::Scale.message(), "scale must be finite");
}

#[test]
fn first_broken_rule_is_the_one_reported() {
    assert_eq!(config(-1.0, -1.0, -1.0, 7.0, f64::NAN).validate(), Err(ConfigError::Lambda));
    assert_eq!(config(1.0, -1.0, -1.0, 7.0, f64::NAN).validate(), Err(ConfigError::Epsilon));
    assert_eq!(config(1.0, 1.0, -1.0, 7.0, f64::NAN).validate(), Err(ConfigError::HuberDelta));
    assert_eq!(config(1.0, 1.0, 1.0, 7.0, f64::NAN).validate(), Err(ConfigError::Damping));
}

#[test]
fn objective_constants_are_floored() {
    let c = config(-2.0, 1e-12, 0.0, 1.0, 1000.0);
    assert_eq!(f(c.penalty_weight()), 0.0);
    assert_eq!(f(c.smoothing()), 1e-9);
    let c = config(3.0, 0.5, 0.75, 1.0, 1000.0);
    assert_eq!(f(c.penalty_weight()), 3.0);
    assert_eq!(f(c.smoothing()), 0.5);
}
