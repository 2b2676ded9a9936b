//! The arithmetic that the accumulators need from their sample type, and the
//! vocabulary in which their contracts speak about it.
use vstd::prelude::*;

verus! {

/// A number type with the operations of floating-point arithmetic that the
/// accumulators use.
///
/// The methods carry no contract: nothing is assumed about what an
/// implementation computes, not even that the same operands give the same
/// result twice. What is proved about the accumulators is therefore stated in
/// terms of the operations themselves, through the predicates of this module:
/// `is_sum(a, b, r)` reads "`r` is a value that `a.plus(b)` may return".
pub trait Scalar: Copy {
    /// The additive identity.
    fn zero() -> Self;

    /// The multiplicative identity.
    fn one() -> Self;

    /// The value that stands for "not a number".
    fn nan() -> Self;

    /// The number `n`, converted to this type.
    fn from_count(n: usize) -> Self;

    /// `self + rhs`.
    fn plus(self, rhs: Self) -> Self;

    /// `self - rhs`.
    fn minus(self, rhs: Self) -> Self;

    /// `self * rhs`.
    fn times(self, rhs: Self) -> Self;

    /// `self / rhs`.
    fn over(self, rhs: Self) -> Self;
}

/// `r` is a value that `V::zero()` may return.
pub open spec fn is_zero<V: Scalar>(r: V) -> bool {
    call_ensures(V::zero, (), r)
}

/// `r` is a value that `V::one()` may return.
pub open spec fn is_one<V: Scalar>(r: V) -> bool {
    call_ensures(V::one, (), r)
}

/// `r` is a value that `V::nan()` may return.
pub open spec fn is_nan<V: Scalar>(r: V) -> bool {
    call_ensures(V::nan, (), r)
}

/// `r` is a value that `V::from_count(n)` may return.
pub open spec fn is_count<V: Scalar>(n: nat, r: V) -> bool {
    n <= usize::MAX && call_ensures(V::from_count, (n as usize,), r)
}

/// `r` is a value that `a.plus(b)` may return.
pub open spec fn is_sum<V: Scalar>(a: V, b: V, r: V) -> bool {
    call_ensures(V::plus, (a, b), r)
}

/// `r` is a value that `a.minus(b)` may return.
pub open spec fn is_difference<V: Scalar>(a: V, b: V, r: V) -> bool {
    call_ensures(V::minus, (a, b), r)
}

/// `r` is a value that `a.times(b)` may return.
pub open spec fn is_product<V: Scalar>(a: V, b: V, r: V) -> bool {
    call_ensures(V::times, (a, b), r)
}

/// `r` is a value that `a.over(b)` may return.
pub open spec fn is_quotient<V: Scalar>(a: V, b: V, r: V) -> bool {
    call_ensures(V::over, (a, b), r)
}

/// `total` is a value that adding up `samples` from left to right, starting
/// from a zero, may give.
pub open spec fn is_total<V: Scalar>(samples: Seq<V>, total: V) -> bool
    decreases samples.len(),
{
    if samples.len() == 0 {
        is_zero(total)
    } else {
        exists|before: V|
            is_total(samples.drop_last(), before) && #[trigger] is_sum(
                before,
                samples.last(),
                total,
            )
    }
}

/// `mean` is a value that the arithmetic mean of `samples` may come to: a
/// left-to-right total divided by the converted number of samples. Of no
/// samples at all, the mean is "not a number".
pub open spec fn is_mean<V: Scalar>(samples: Seq<V>, mean: V) -> bool {
    if samples.len() == 0 {
        is_nan(mean)
    } else {
        exists|total: V, n: V|
            is_total(samples, total) && is_count(samples.len(), n) && #[trigger] is_quotient(
                total,
                n,
                mean,
            )
    }
}

/// Adding one more sample to a total gives a total of the longer sequence.
pub proof fn lemma_total_push<V: Scalar>(samples: Seq<V>, before: V, value: V, total: V)
    requires
        is_total(samples, before),
        is_sum(before, value, total),
    ensures
        is_total(samples.push(value), total),
{
    let longer = samples.push(value);
    assert(longer.drop_last() =~= samples);
    assert(longer.last() == value);
}

} // verus!
