//! The arithmetic that tensor elements must offer.

use vstd::prelude::*;

verus! {

/// The element type of a tensor, with the arithmetic that the operators of
/// this library use.
///
/// Nothing is asked of the operations: they need not be exact, nor obey the
/// laws of a field. The contracts of this library say of a value only that
/// it is what an operation returned for given operands, in the words of the
/// relations below; whatever an implementation promises of its operations
/// then holds of the values that the library computes with them.
pub trait Scalar: Copy {
    /// The neutral element of addition.
    fn zero() -> Self;

    /// The sum `self + rhs`.
    fn plus(self, rhs: Self) -> Self;

    /// The product `self * rhs`.
    fn times(self, rhs: Self) -> Self;

    /// The quotient `self / rhs`.
    fn over(self, rhs: Self) -> Self;

    /// The opposite `-self`.
    fn negated(self) -> Self;

    /// The power `self` to the `n`.
    fn powi(self, n: i32) -> Self;
}

/// `r` is a zero: a value that `zero` returns.
pub open spec fn is_zero<T: Scalar>(r: T) -> bool {
    call_ensures(T::zero, (), r)
}

/// `r` is a sum of `a` and `b`: a value that `plus` returns for them.
pub open spec fn is_sum<T: Scalar>(a: T, b: T, r: T) -> bool {
    call_ensures(T::plus, (a, b), r)
}

/// `r` is a product of `a` and `b`: a value that `times` returns for them.
pub open spec fn is_product<T: Scalar>(a: T, b: T, r: T) -> bool {
    call_ensures(T::times, (a, b), r)
}

/// `r` is a quotient of `a` by `b`: a value that `over` returns for them.
pub open spec fn is_quotient<T: Scalar>(a: T, b: T, r: T) -> bool {
    call_ensures(T::over, (a, b), r)
}

/// `r` is an opposite of `a`: a value that `negated` returns for it.
pub open spec fn is_opposite<T: Scalar>(a: T, r: T) -> bool {
    call_ensures(T::negated, (a,), r)
}

/// `r` is a power of `a` to the `n`: a value that `powi` returns for them.
pub open spec fn is_power<T: Scalar>(a: T, n: i32, r: T) -> bool {
    call_ensures(T::powi, (a, n), r)
}

} // verus!
