//! The two training objectives behind one interface: a cost and its gradient.

use vstd::prelude::*;
use crate::arith::Arithmetic;
use crate::filter::{large_cost, is_nll, is_partial, LocalLinearTrendProblem};
use crate::ieee::Double;
use crate::trend_filter::{is_trend_cost, is_trend_gradient, TrendFilterProblem};

verus! {

/// Which of the two models an objective belongs to.
#[derive(Clone, Copy, Debug, PartialEq, Eq, Structural)]
pub enum ModelKind {
    /// The local-linear-trend model, fitted by maximum likelihood.
    LocalLinearTrend,
    /// The trend filter, fitted by penalised smoothing.
    TrendFilter,
}

/// What the optimiser minimises.
#[derive(Debug)]
pub enum Objective {
    /// The negative log-likelihood of the local-linear-trend model.
    Likelihood(LocalLinearTrendProblem),
    /// The penalised Huber loss of the trend filter.
    Smoothing(TrendFilterProblem),
}

impl Objective {
    /// The model of the objective.
    pub open spec fn kind_spec(self) -> ModelKind {
        match self {
            Objective::Likelihood(_) => ModelKind::LocalLinearTrend,
            Objective::Smoothing(_) => ModelKind::TrendFilter,
        }
    }

    /// The number of parameters the objective is defined on.
    pub open spec fn arity(self) -> nat {
        match self {
            Objective::Likelihood(_) => 3,
            Objective::Smoothing(p) => p.y.len() as nat,
        }
    }

    /// The model of the objective.
    pub fn kind(&self) -> (k: ModelKind)
        ensures
            k == self.kind_spec(),
    {
        match self {
            Objective::Likelihood(_) => ModelKind::LocalLinearTrend,
            Objective::Smoothing(_) => ModelKind::TrendFilter,
        }
    }

    /// The cost at a parameter vector. A vector of another length than the
    /// objective is defined on costs the sentinel, so that no trial point
    /// ever fails the optimiser.
    pub fn cost<A: Arithmetic>(&self, ar: &A, param: &Vec<Double>) -> (cost: Double)
        ensures
            match *self {
                Objective::Likelihood(p) => is_nll(ar, p.y@, p.weights@, param@, cost),
                Objective::Smoothing(p) => is_trend_cost(ar, p, param@, cost),
            },
            param.len() != self.arity() ==> cost == large_cost(),
            self.kind_spec() == ModelKind::LocalLinearTrend ==> cost.finite(),
    {
        match self {
            Objective::Likelihood(problem) => problem.cost(ar, param),
            Objective::Smoothing(problem) => problem.cost(ar, param),
        }
    }

    /// The gradient of the cost at a parameter vector: one entry per parameter.
    pub fn gradient<A: Arithmetic>(&self, ar: &A, param: &Vec<Double>) -> (grad: Vec<Double>)
        ensures
            match *self {
                Objective::Likelihood(p) => forall|i: int|
                    0 <= i < grad.len() ==> is_partial(
                        ar,
                        p.y@,
                        p.weights@,
                        param@,
                        i,
                        #[trigger] grad[i],
                    ),
                Objective::Smoothing(p) => is_trend_gradient(ar, p, param@, grad@),
            },
            grad.len() == param.len(),
            self.kind_spec() == ModelKind::TrendFilter && param.len() != self.arity()
                ==> forall|i: int|
                0 <= i < grad.len() ==> #[trigger] grad[i] == Double::zero_spec(),
    {
        match self {
            Objective::Likelihood(problem) => problem.gradient(ar, param),
            Objective::Smoothing(problem) => problem.gradient(ar, param),
        }
    }
}

} // verus!
