//! The arithmetic the models are computed with.

use vstd::prelude::*;
use crate::ieee::Double;

verus! {

/// Double-precision arithmetic, supplied by the caller. The library decides
/// and orders; whatever it adds, multiplies or takes a root of goes through
/// these operations. Nothing is assumed of what they answer: a contract
/// names the answers (`answers_sum` and the like) and says which operation
/// on which operands each result comes from.
pub trait Arithmetic {
    /// `a + b`.
    fn sum(&self, a: Double, b: Double) -> Double;

    /// `a - b`.
    fn difference(&self, a: Double, b: Double) -> Double;

    /// `a * b`.
    fn product(&self, a: Double, b: Double) -> Double;

    /// `a / b`.
    fn quotient(&self, a: Double, b: Double) -> Double;

    /// `a * b + c`, rounded once.
    fn fused(&self, a: Double, b: Double, c: Double) -> Double;

    /// The square root of `a`.
    fn square_root(&self, a: Double) -> Double;

    /// The natural logarithm of `a`.
    fn natural_log(&self, a: Double) -> Double;

    /// `e` to the power `a`.
    fn exponential(&self, a: Double) -> Double;

    /// `a` to the power `b`.
    fn power(&self, a: Double, b: Double) -> Double;

    /// The number nearest to a count.
    fn of_count(&self, n: usize) -> Double;
}

/// `r` is what the arithmetic answers for `a + b`. Nothing is assumed of
/// the answer: this only names it, so that a contract can say which
/// operation a result came from, and on which operands.
pub open spec fn answers_sum<A: Arithmetic>(ar: &A, a: Double, b: Double, r: Double) -> bool {
    call_ensures(A::sum, (ar, a, b), r)
}

/// `r` is what the arithmetic answers for `a * b`.
pub open spec fn answers_product<A: Arithmetic>(ar: &A, a: Double, b: Double, r: Double) -> bool {
    call_ensures(A::product, (ar, a, b), r)
}

/// `r` is what the arithmetic answers for `a * b + c`, rounded once.
pub open spec fn answers_fused<A: Arithmetic>(
    ar: &A,
    a: Double,
    b: Double,
    c: Double,
    r: Double,
) -> bool {
    call_ensures(A::fused, (ar, a, b, c), r)
}

/// `r` is what the arithmetic answers for `a - b`.
pub open spec fn answers_difference<A: Arithmetic>(ar: &A, a: Double, b: Double, r: Double) -> bool {
    call_ensures(A::difference, (ar, a, b), r)
}

/// `r` is what the arithmetic answers for `a / b`.
pub open spec fn answers_quotient<A: Arithmetic>(ar: &A, a: Double, b: Double, r: Double) -> bool {
    call_ensures(A::quotient, (ar, a, b), r)
}

/// `r` is what the arithmetic answers for the square root of `a`.
pub open spec fn answers_square_root<A: Arithmetic>(ar: &A, a: Double, r: Double) -> bool {
    call_ensures(A::square_root, (ar, a), r)
}

/// `r` is what the arithmetic answers for the natural logarithm of `a`.
pub open spec fn answers_natural_log<A: Arithmetic>(ar: &A, a: Double, r: Double) -> bool {
    call_ensures(A::natural_log, (ar, a), r)
}

/// `r` is what the arithmetic answers for `e` to the power `a`.
pub open spec fn answers_exponential<A: Arithmetic>(ar: &A, a: Double, r: Double) -> bool {
    call_ensures(A::exponential, (ar, a), r)
}

/// `r` is what the arithmetic answers for `a` to the power `b`.
pub open spec fn answers_power<A: Arithmetic>(ar: &A, a: Double, b: Double, r: Double) -> bool {
    call_ensures(A::power, (ar, a, b), r)
}

/// `r` is what the arithmetic answers for the number nearest to the count `n`.
pub open spec fn answers_count<A: Arithmetic>(ar: &A, n: usize, r: Double) -> bool {
    call_ensures(A::of_count, (ar, n), r)
}

} // verus!
