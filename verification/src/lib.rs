//! Forecasting of a daily territory-area series: a local-linear-trend model
//! fitted by maximum likelihood, an L1-style trend filter fitted by
//! penalised smoothing, and the dated forecast both lead to.
//!
//! Numbers are carried as IEEE-754 binary64 bit patterns ([`ieee::Double`]),
//! so that every comparison, clamp, floor and sentinel the models decide on
//! is an integer fact that is proved. What is added, multiplied or rooted
//! goes through [`arith::Arithmetic`], which the caller supplies; the
//! contracts say which operations on which operands give each result, and
//! assume nothing of what the arithmetic answers. The
//! quasi-Newton optimiser stands between [`model::train_from_series`] and
//! [`model::TrainingTask::finish`], and is the caller's too.

pub mod arith;
pub mod calendar;
pub mod config;
pub mod filter;
pub mod forecast;
pub mod ieee;
pub mod model;
pub mod objective;
pub mod persist;
pub mod rank;
pub mod report;
pub mod series;
pub mod stats;
pub mod trend_filter;
pub mod weights;
