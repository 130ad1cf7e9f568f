use territory_forecast::config::{
    effective_scale, ModelConfig, TrendFilterConfig, DEFAULT_EPSILON_BITS, DEFAULT_LAMBDA_BITS,
    DEFAULT_SCALE_BITS, LINE_SEARCH_CURVATURE_BITS, LINE_SEARCH_DECREASE_BITS, MIN_EPSILON_BITS,
    TOLERANCE_COST_BITS, TOLERANCE_GRADIENT_BITS,
};
use territory_forecast::filter::{
    GRADIENT_STEP_BITS, HALF_BITS, INITIAL_LEVEL_VARIANCE_BITS, INITIAL_SLOPE_VARIANCE_BITS,
    LARGE_COST_BITS, MIN_SIGMA_BITS, TENTH_BITS, TWO_BITS, TWO_PI_BITS,
};
use territory_forecast::ieee::{Double, INFINITY_BITS, ONE_BITS, SIGN_BIT, ZERO_BITS};
use territory_forecast::model::{
    AUTO_DELTA_FACTOR_BITS, CONFIDENCE_Z_BITS, DAMPING_TOLERANCE_BITS, MIN_RESIDUAL_BITS,
    MIN_SLOPE_BITS, RESIDUAL_FLOOR_FACTOR_BITS, SLOPE_FLOOR_FACTOR_BITS,
};
use territory_forecast::stats::MIN_DEVIATION_BITS;
use territory_forecast::trend_filter::{MIN_HUBER_DELTA_BITS, NEG_TWO_BITS};
use territory_forecast::weights::{
    clamp_weight, is_reference_usable, HETERO_MAX_BITS, HETERO_MIN_BITS,
};

fn d(x: f64) -> Double {
    Double::from_bits(x.to_bits())
}

fn f(x: Double) -> f64 {
    f64::from_bits(x.to_bits())
}

fn samples() -> Vec<f64> {
    vec![
        0.0,
        -0.0,
        1.0,
        -1.0,
        0.6,
        2.5,
        1e-9,
        1e-6,
        -1e-6,
        5e-324,
        -5e-324,
        2.2250738585072014e-308,
        1.7976931348623157e308,
        -1.7976931348623157e308,
        f64::INFINITY,
        f64::NEG_INFINITY,
        f64::NAN,
        -f64::NAN,
        1000.0,
        3.141592653589793,
        -123456.789,
    ]
}

#[test]
fn less_than_agrees_with_the_machine() {
    for &a in &samples() {
        for &b in &samples() {
            assert_eq!(d(a).lt(d(b)), a < b, "{a} < {b}");
        }
    }
}

#[test]
fn at_most_agrees_with_the_machine() {
    for &a in &samples() {
        for &b in &samples() {
            assert_eq!(d(a).le(d(b)), a <= b, "{a} <= {b}");
        }
    }
}

#[test]
fn classification_agrees_with_the_machine() {
    for &a in &samples() {
        assert_eq!(d(a).is_nan(), a.is_nan(), "{a}");
        assert_eq!(d(a).is_finite(), a.is_finite(), "{a}");
        assert_eq!(d(a).is_positive(), a > 0.0, "{a}");
    }
}

#[test]
fn larger_of_two_agrees_with_the_machine() {
    for &a in &samples() {
        for &b in &samples() {
            let got = f(d(a).max(d(b)));
            let want = a.max(b);
            if want.is_nan() {
                assert!(got.is_nan());
            } else {
                assert!(got == want, "max({a}, {b}) gave {got}");
            }
        }
    }
}

#[test]
fn clamp_agrees_with_the_machine() {
    for &a in &samples() {
        let got = f(d(a).clamp(d(0.6), d(2.5)));
        let want = a.clamp(0.6, 2.5);
        if want.is_nan() {
            assert!(got.is_nan());
        } else {
            assert_eq!(got.to_bits(), want.to_bits(), "clamp({a})");
        }
        let unit = f(d(a).clamp(d(0.0), d(1.0)));
        if a.is_nan() {
            assert!(unit.is_nan());
        } else {
            assert!(unit == a.clamp(0.0, 1.0));
        }
    }
}

#[test]
fn sign_operations_agree_with_the_machine() {
    for &a in &samples() {
        assert_eq!(d(a).abs().to_bits(), a.abs().to_bits(), "abs({a})");
        assert_eq!(d(a).neg().to_bits(), (-a).to_bits(), "neg({a})");
    }
}

#[test]
fn floor_replaces_what_is_small_or_not_finite() {
    assert_eq!(f(d(0.5).floor_at(d(1.0))), 1.0);
    assert_eq!(f(d(2.0).floor_at(d(1.0))), 2.0);
    assert_eq!(f(d(f64::NAN).floor_at(d(1.0))), 1.0);
    assert_eq!(f(d(f64::INFINITY).floor_at(d(1.0))), 1.0);
    assert_eq!(f(d(1.0).floor_at(d(1.0))), 1.0);
}

#[test]
fn named_patterns_are_the_numbers_they_stand_for() {
    assert_eq!(ZERO_BITS, 0.0f64.to_bits());
    assert_eq!(ONE_BITS, 1.0f64.to_bits());
    assert_eq!(SIGN_BIT, (-0.0f64).to_bits());
    assert_eq!(INFINITY_BITS, f64::INFINITY.to_bits());
    assert_eq!(DEFAULT_SCALE_BITS, 1000.0f64.to_bits());
    assert_eq!(DEFAULT_LAMBDA_BITS, 5.0f64.to_bits());
    assert_eq!(DEFAULT_EPSILON_BITS, 1e-3f64.to_bits());
    assert_eq!(MIN_EPSILON_BITS, 1e-9f64.to_bits());
    assert_eq!(TOLERANCE_GRADIENT_BITS, 1e-8f64.to_bits());
    assert_eq!(TOLERANCE_COST_BITS, 1e-10f64.to_bits());
    assert_eq!(LINE_SEARCH_DECREASE_BITS, 1e-4f64.to_bits());
    assert_eq!(LINE_SEARCH_CURVATURE_BITS, 0.9f64.to_bits());
    assert_eq!(HETERO_MIN_BITS, 0.6f64.to_bits());
    assert_eq!(HETERO_MAX_BITS, 2.5f64.to_bits());
    assert_eq!(MIN_SIGMA_BITS, 1e-6f64.to_bits());
    assert_eq!(LARGE_COST_BITS, 1e30f64.to_bits());
    assert_eq!(HALF_BITS, 0.5f64.to_bits());
    assert_eq!(TWO_BITS, 2.0f64.to_bits());
    assert_eq!(NEG_TWO_BITS, (-2.0f64).to_bits());
    assert_eq!(TWO_PI_BITS, (2.0 * std::f64::consts::PI).to_bits());
    assert_eq!(INITIAL_LEVEL_VARIANCE_BITS, 1.0e4f64.to_bits());
    assert_eq!(INITIAL_SLOPE_VARIANCE_BITS, 1.0e2f64.to_bits());
    assert_eq!(GRADIENT_STEP_BITS, 1e-4f64.to_bits());
    assert_eq!(TENTH_BITS, 0.1f64.to_bits());
    assert_eq!(MIN_DEVIATION_BITS, 1e-6f64.to_bits());
    assert_eq!(MIN_HUBER_DELTA_BITS, 1e-6f64.to_bits());
    assert_eq!(CONFIDENCE_Z_BITS, 1.96f64.to_bits());
    assert_eq!(DAMPING_TOLERANCE_BITS, 1e-12f64.to_bits());
    assert_eq!(AUTO_DELTA_FACTOR_BITS, 1.5f64.to_bits());
    assert_eq!(MIN_RESIDUAL_BITS, 1e-3f64.to_bits());
    assert_eq!(MIN_SLOPE_BITS, 1e-4f64.to_bits());
    assert_eq!(RESIDUAL_FLOOR_FACTOR_BITS, 0.25f64.to_bits());
    assert_eq!(SLOPE_FLOOR_FACTOR_BITS, 0.10f64.to_bits());
}

#[test]
fn weights_are_held_to_the_band() {
    assert_eq!(f(clamp_weight(d(0.1))), 0.6);
    assert_eq!(f(clamp_weight(d(1.3))), 1.3);
    assert_eq!(f(clamp_weight(d(9.0))), 2.5);
    assert!(f(clamp_weight(d(f64::NAN))).is_nan());
}

#[test]
fn reference_volatility_must_be_finite_and_above_zero() {
    assert!(is_reference_usable(d(0.01)));
    assert!(is_reference_usable(d(1e-12)));
    assert!(!is_reference_usable(d(0.0)));
    assert!(!is_reference_usable(d(-1.0)));
    assert!(!is_reference_usable(d(f64::INFINITY)));
    assert!(!is_reference_usable(d(f64::NAN)));
}

#[test]
fn scale_that_is_not_positive_gives_way_to_the_default() {
    assert_eq!(f(effective_scale(d(2.5))), 2.5);
    assert_eq!(f(effective_scale(d(0.0))), 1000.0);
    assert_eq!(f(effective_scale(d(-5.0))), 1000.0);
    assert_eq!(f(effective_scale(d(f64::NAN))), 1000.0);
}

#[test]
fn defaults_are_the_documented_ones() {
    let m = ModelConfig::default();
    assert_eq!(m.max_iters, 400);
    assert_eq!(m.history, 10);
    assert_eq!(f(m.scale), 1000.0);
    let t = TrendFilterConfig::default();
    assert_eq!(f(t.lambda), 5.0);
    assert_eq!(f(t.epsilon), 1e-3);
    assert_eq!(f(t.huber_delta), 0.0);
    assert_eq!(f(t.damping), 1.0);
    assert_eq!(t.max_iters, 400);
    assert_eq!(t.history, 10);
    assert_eq!(f(t.scale), 1000.0);
    assert!(t.validate().is_ok());
}
