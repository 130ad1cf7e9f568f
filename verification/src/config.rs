//! Hyperparameters of the two models and the rules they are held to.

use vstd::prelude::*;
use crate::ieee::Double;

verus! {

/// Iteration cap of the optimiser unless configured otherwise.
pub const DEFAULT_MAX_ITERS: u64 = 400;

/// Memory depth of the quasi-Newton optimiser unless configured otherwise.
pub const DEFAULT_HISTORY: usize = 10;

/// `1000.0`: the divisor applied to raw values unless a positive one is configured.
pub const DEFAULT_SCALE_BITS: u64 = 0x408F_4000_0000_0000;

/// `5.0`: the default smoothness weight.
pub const DEFAULT_LAMBDA_BITS: u64 = 0x4014_0000_0000_0000;

/// `1e-3`: the default smoothing constant of the penalty.
pub const DEFAULT_EPSILON_BITS: u64 = 0x3F50_624D_D2F1_A9FC;

/// `1e-9`: the least smoothing constant the objective works with.
pub const MIN_EPSILON_BITS: u64 = 0x3E11_2E0B_E826_D695;

/// `1e-8`: the gradient norm under which the optimiser stops.
pub const TOLERANCE_GRADIENT_BITS: u64 = 0x3E45_798E_E230_8C3A;

/// `1e-10`: the change of cost under which the optimiser stops.
pub const TOLERANCE_COST_BITS: u64 = 0x3DDB_7CDF_D9D7_BDBB;

/// `1e-4`: the sufficient-decrease constant of the line search.
pub const LINE_SEARCH_DECREASE_BITS: u64 = 0x3F1A_36E2_EB1C_432D;

/// `0.9`: the curvature constant of the line search.
pub const LINE_SEARCH_CURVATURE_BITS: u64 = 0x3FEC_CCCC_CCCC_CCCD;

/// The divisor that takes the place of a configured scale that is not positive.
pub open spec fn default_scale() -> Double {
    Double { bits: DEFAULT_SCALE_BITS }
}

/// The scale a training run works with: the configured one where it is a
/// positive number, the default otherwise.
pub open spec fn effective_scale_of(scale: Double) -> Double {
    if scale.positive() {
        scale
    } else {
        default_scale()
    }
}

/// Picks the working scale for a configured one.
pub fn effective_scale(scale: Double) -> (r: Double)
    ensures
        r == effective_scale_of(scale),
        r.positive(),
{
    if scale.is_positive() {
        scale
    } else {
        Double::from_bits(DEFAULT_SCALE_BITS)
    }
}

/// Settings of the local-linear-trend fit.
#[derive(Clone, Copy, Debug)]
pub struct ModelConfig {
    pub max_iters: u64,
    pub history: usize,
    pub scale: Double,
}

impl Default for ModelConfig {
    fn default() -> (c: ModelConfig)
        ensures
            c.max_iters == DEFAULT_MAX_ITERS,
            c.history == DEFAULT_HISTORY,
            c.scale == default_scale(),
    {
        ModelConfig {
            max_iters: DEFAULT_MAX_ITERS,
            history: DEFAULT_HISTORY,
            scale: Double::from_bits(DEFAULT_SCALE_BITS),
        }
    }
}

/// Settings of the trend-filter fit.
#[derive(Clone, Copy, Debug)]
pub struct TrendFilterConfig {
    pub lambda: Double,
    pub epsilon: Double,
    pub huber_delta: Double,
    pub damping: Double,
    pub max_iters: u64,
    pub history: usize,
    pub scale: Double,
}

/// The field that broke a rule; the first one in declaration order.
#[derive(Clone, Copy, Debug, PartialEq, Eq, Structural)]
pub enum ConfigError {
    /// `lambda` is not a finite number at or above zero.
    Lambda,
    /// `epsilon` is not a finite number above zero.
    Epsilon,
    /// `huber_delta` is not a finite number at or above zero.
    HuberDelta,
    /// `damping` is not a number between zero and one.
    Damping,
    /// `scale` is infinite or not a number.
    Scale,
}

impl ConfigError {
    /// A sentence for the person who wrote the configuration.
    pub fn message(&self) -> (s: &'static str)
        ensures
            s@ == (match *self {
                ConfigError::Lambda => "lambda must be finite and >= 0"@,
                ConfigError::Epsilon => "epsilon must be finite and > 0"@,
                ConfigError::HuberDelta => "huber_delta must be finite and >= 0"@,
                ConfigError::Damping => "damping must be within [0, 1]"@,
                ConfigError::Scale => "scale must be finite"@,
            }),
    {
        match self {
            ConfigError::Lambda => "lambda must be finite and >= 0",
            ConfigError::Epsilon => "epsilon must be finite and > 0",
            ConfigError::HuberDelta => "huber_delta must be finite and >= 0",
            ConfigError::Damping => "damping must be within [0, 1]",
            ConfigError::Scale => "scale must be finite",
        }
    }
}

impl TrendFilterConfig {
    /// `lambda` is finite and not negative.
    pub open spec fn lambda_ok(self) -> bool {
        self.lambda.finite() && Double::zero_spec().le_spec(self.lambda)
    }

    /// `epsilon` is finite and above zero.
    pub open spec fn epsilon_ok(self) -> bool {
        self.epsilon.finite() && self.epsilon.positive()
    }

    /// `huber_delta` is finite and not negative; zero asks for the value
    /// derived from the data.
    pub open spec fn huber_delta_ok(self) -> bool {
        self.huber_delta.finite() && Double::zero_spec().le_spec(self.huber_delta)
    }

    /// `damping` lies in the closed interval from zero to one.
    pub open spec fn damping_ok(self) -> bool {
        Double::zero_spec().le_spec(self.damping) && self.damping.le_spec(Double::one_spec())
    }

    /// `scale` is finite.
    pub open spec fn scale_ok(self) -> bool {
        self.scale.finite()
    }

    /// Every rule holds.
    pub open spec fn valid(self) -> bool {
        self.lambda_ok() && self.epsilon_ok() && self.huber_delta_ok() && self.damping_ok()
            && self.scale_ok()
    }

    /// What validation answers.
    pub open spec fn verdict(self) -> Result<(), ConfigError> {
        if !self.lambda_ok() {
            Err(ConfigError::Lambda)
        } else if !self.epsilon_ok() {
            Err(ConfigError::Epsilon)
        } else if !self.huber_delta_ok() {
            Err(ConfigError::HuberDelta)
        } else if !self.damping_ok() {
            Err(ConfigError::Damping)
        } else if !self.scale_ok() {
            Err(ConfigError::Scale)
        } else {
            Ok(())
        }
    }

    /// Holds the configuration to its rules, before any training work.
    pub fn validate(&self) -> (r: Result<(), ConfigError>)
        ensures
            r == self.verdict(),
            r.is_ok() <==> self.valid(),
    {
        let zero = Double::zero();
        if !(self.lambda.is_finite() && zero.le(self.lambda)) {
            Err(ConfigError::Lambda)
        } else if !(self.epsilon.is_finite() && self.epsilon.is_positive()) {
            Err(ConfigError::Epsilon)
        } else if !(self.huber_delta.is_finite() && zero.le(self.huber_delta)) {
            Err(ConfigError::HuberDelta)
        } else if !(zero.le(self.damping) && self.damping.le(Double::one())) {
            Err(ConfigError::Damping)
        } else if !self.scale.is_finite() {
            Err(ConfigError::Scale)
        } else {
            Ok(())
        }
    }

    /// The smoothness weight the objective uses: `lambda`, or zero in place
    /// of a negative one.
    pub fn penalty_weight(&self) -> (r: Double)
        ensures
            r == self.lambda.max_spec(Double::zero_spec()),
            self.valid() ==> r == self.lambda,
    {
        self.lambda.max(Double::zero())
    }

    /// The smoothing constant the objective uses: `epsilon`, floored at `1e-9`.
    pub fn smoothing(&self) -> (r: Double)
        ensures
            r == self.epsilon.max_spec(Double { bits: MIN_EPSILON_BITS }),
            r.positive(),
    {
        self.epsilon.max(Double::from_bits(MIN_EPSILON_BITS))
    }
}

impl Default for TrendFilterConfig {
    fn default() -> (c: TrendFilterConfig)
        ensures
            c.lambda.bits == DEFAULT_LAMBDA_BITS,
            c.epsilon.bits == DEFAULT_EPSILON_BITS,
            c.huber_delta == Double::zero_spec(),
            c.damping == Double::one_spec(),
            c.max_iters == DEFAULT_MAX_ITERS,
            c.history == DEFAULT_HISTORY,
            c.scale == default_scale(),
            c.valid(),
    {
        TrendFilterConfig {
            lambda: Double::from_bits(DEFAULT_LAMBDA_BITS),
            epsilon: Double::from_bits(DEFAULT_EPSILON_BITS),
            huber_delta: Double::zero(),
            damping: Double::one(),
            max_iters: DEFAULT_MAX_ITERS,
            history: DEFAULT_HISTORY,
            scale: Double::from_bits(DEFAULT_SCALE_BITS),
        }
    }
}

} // verus!
