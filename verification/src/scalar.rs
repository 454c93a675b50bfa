//! The numbers that the detector computes with.
//!
//! Everything here is written over a type of numbers, [`Scalar`], and states which operations are
//! applied to which values, and in which order. Rounding makes the order matter: two sums of the
//! same products, taken in two orders, are two different numbers.
//!
//! Nothing is promised of an operation itself. A contract that speaks of a computed number says what
//! it is where the operations that it is computed with are functions of their arguments, as
//! [`functional_plus`] says of addition. (In floating point all values that are no number count as
//! one.) What does not depend on a computed number is stated without such a condition. A short
//! function also states the operations whose results it returns, which holds of any type.

use vstd::prelude::*;

verus! {

/// A type of numbers, with the operations that inference and the volume gate need.
pub trait Scalar: Copy {
    /// The number nearest to `num / den`.
    fn ratio(num: i32, den: i32) -> Self;

    /// The number whose IEEE 754 single-precision encoding is `bits`.
    fn from_bits(bits: u32) -> Self;

    /// A PCM sample as a number.
    fn from_sample(sample: i16) -> Self;

    /// A count as a number.
    fn from_count(count: usize) -> Self;

    /// The nearest count, ties away from zero, clipped to what a count can hold.
    fn to_count(self) -> usize;

    /// `self + other`.
    fn plus(self, other: Self) -> Self;

    /// `self - other`.
    fn minus(self, other: Self) -> Self;

    /// `self * other`.
    fn times(self, other: Self) -> Self;

    /// `self / other`.
    fn over(self, other: Self) -> Self;

    /// `self * factor + addend`, rounded once.
    fn times_plus(self, factor: Self, addend: Self) -> Self;

    /// The larger of the two.
    fn max(self, other: Self) -> Self;

    /// `-self`.
    fn neg(self) -> Self;

    /// The square root.
    fn sqrt(self) -> Self;

    /// The exponential, base e.
    fn exp(self) -> Self;

    /// The hyperbolic tangent.
    fn tanh(self) -> Self;

    /// The logarithm, base 10.
    fn log10(self) -> Self;

    /// `self < other`.
    fn below(self, other: Self) -> bool;

    /// `self >= other`.
    fn at_least(self, other: Self) -> bool;
}

/// Numbers of more precision than `S`, in which the squares of a window's samples are added up.
pub trait Wide<S: Scalar>: Copy {
    /// Zero.
    fn zero() -> Self;

    /// A PCM sample as a number.
    fn from_sample(sample: i16) -> Self;

    /// A count as a number.
    fn from_count(count: usize) -> Self;

    /// `self + other`.
    fn plus(self, other: Self) -> Self;

    /// `self * other`.
    fn times(self, other: Self) -> Self;

    /// `self / other`.
    fn over(self, other: Self) -> Self;

    /// The square root.
    fn sqrt(self) -> Self;

    /// The nearest number of the narrower type.
    fn narrow(self) -> S;
}

/// What `Scalar::ratio` returns.
pub open spec fn ratio_of<S: Scalar>(num: i32, den: i32) -> S {
    choose|r: S| call_ensures(S::ratio, (num, den), r)
}

/// What `Scalar::from_bits` returns.
pub open spec fn decoded<S: Scalar>(bits: u32) -> S {
    choose|r: S| call_ensures(S::from_bits, (bits,), r)
}

/// What `Scalar::from_sample` returns.
pub open spec fn sample_of<S: Scalar>(sample: i16) -> S {
    choose|r: S| call_ensures(S::from_sample, (sample,), r)
}

/// What `Scalar::from_count` returns.
pub open spec fn count_of<S: Scalar>(count: usize) -> S {
    choose|r: S| call_ensures(S::from_count, (count,), r)
}

/// What `Scalar::to_count` returns.
pub open spec fn rounded<S: Scalar>(x: S) -> usize {
    choose|r: usize| call_ensures(S::to_count, (x,), r)
}

/// What `Scalar::plus` returns.
pub open spec fn sum<S: Scalar>(x: S, y: S) -> S {
    choose|r: S| call_ensures(S::plus, (x, y), r)
}

/// What `Scalar::minus` returns.
pub open spec fn difference<S: Scalar>(x: S, y: S) -> S {
    choose|r: S| call_ensures(S::minus, (x, y), r)
}

/// What `Scalar::times` returns.
pub open spec fn product<S: Scalar>(x: S, y: S) -> S {
    choose|r: S| call_ensures(S::times, (x, y), r)
}

/// What `Scalar::over` returns.
pub open spec fn quotient<S: Scalar>(x: S, y: S) -> S {
    choose|r: S| call_ensures(S::over, (x, y), r)
}

/// What `Scalar::times_plus` returns.
pub open spec fn fused<S: Scalar>(x: S, y: S, z: S) -> S {
    choose|r: S| call_ensures(S::times_plus, (x, y, z), r)
}

/// What `Scalar::max` returns.
pub open spec fn larger<S: Scalar>(x: S, y: S) -> S {
    choose|r: S| call_ensures(S::max, (x, y), r)
}

/// What `Scalar::neg` returns.
pub open spec fn negated<S: Scalar>(x: S) -> S {
    choose|r: S| call_ensures(S::neg, (x,), r)
}

/// What `Scalar::sqrt` returns.
pub open spec fn root<S: Scalar>(x: S) -> S {
    choose|r: S| call_ensures(S::sqrt, (x,), r)
}

/// What `Scalar::exp` returns.
pub open spec fn exponential<S: Scalar>(x: S) -> S {
    choose|r: S| call_ensures(S::exp, (x,), r)
}

/// What `Scalar::tanh` returns.
pub open spec fn hyperbolic_tangent<S: Scalar>(x: S) -> S {
    choose|r: S| call_ensures(S::tanh, (x,), r)
}

/// What `Scalar::log10` returns.
pub open spec fn common_log<S: Scalar>(x: S) -> S {
    choose|r: S| call_ensures(S::log10, (x,), r)
}

/// What `Scalar::below` returns.
pub open spec fn less<S: Scalar>(x: S, y: S) -> bool {
    choose|r: bool| call_ensures(S::below, (x, y), r)
}

/// What `Scalar::at_least` returns.
pub open spec fn not_less<S: Scalar>(x: S, y: S) -> bool {
    choose|r: bool| call_ensures(S::at_least, (x, y), r)
}

/// What `Wide::zero` returns.
pub open spec fn wide_zero<S: Scalar, W: Wide<S>>() -> W {
    choose|r: W| call_ensures(<W as Wide<S>>::zero, (), r)
}

/// What `Wide::from_sample` returns.
pub open spec fn wide_sample<S: Scalar, W: Wide<S>>(sample: i16) -> W {
    choose|r: W| call_ensures(<W as Wide<S>>::from_sample, (sample,), r)
}

/// What `Wide::from_count` returns.
pub open spec fn wide_count<S: Scalar, W: Wide<S>>(count: usize) -> W {
    choose|r: W| call_ensures(<W as Wide<S>>::from_count, (count,), r)
}

/// What `Wide::plus` returns.
pub open spec fn wide_sum<S: Scalar, W: Wide<S>>(x: W, y: W) -> W {
    choose|r: W| call_ensures(<W as Wide<S>>::plus, (x, y), r)
}

/// What `Wide::times` returns.
pub open spec fn wide_product<S: Scalar, W: Wide<S>>(x: W, y: W) -> W {
    choose|r: W| call_ensures(<W as Wide<S>>::times, (x, y), r)
}

/// What `Wide::over` returns.
pub open spec fn wide_quotient<S: Scalar, W: Wide<S>>(x: W, y: W) -> W {
    choose|r: W| call_ensures(<W as Wide<S>>::over, (x, y), r)
}

/// What `Wide::sqrt` returns.
pub open spec fn wide_root<S: Scalar, W: Wide<S>>(x: W) -> W {
    choose|r: W| call_ensures(<W as Wide<S>>::sqrt, (x,), r)
}

/// What `Wide::narrow` returns.
pub open spec fn narrowed<S: Scalar, W: Wide<S>>(x: W) -> S {
    choose|r: S| call_ensures(<W as Wide<S>>::narrow, (x,), r)
}

/// `Scalar::ratio` is a function of its arguments: given the same, it returns the same.
pub open spec fn functional_ratio<S: Scalar>() -> bool {
    forall|num: i32, den: i32, r: S| #[trigger]
        call_ensures(S::ratio, (num, den), r) ==> r == ratio_of::<S>(num, den)
}

/// `Scalar::from_bits` is a function of its arguments: given the same, it returns the same.
pub open spec fn functional_from_bits<S: Scalar>() -> bool {
    forall|bits: u32, r: S| #[trigger]
        call_ensures(S::from_bits, (bits,), r) ==> r == decoded::<S>(bits)
}

/// `Scalar::from_sample` is a function of its arguments: given the same, it returns the same.
pub open spec fn functional_from_sample<S: Scalar>() -> bool {
    forall|sample: i16, r: S| #[trigger]
        call_ensures(S::from_sample, (sample,), r) ==> r == sample_of::<S>(sample)
}

/// `Scalar::from_count` is a function of its arguments: given the same, it returns the same.
pub open spec fn functional_from_count<S: Scalar>() -> bool {
    forall|count: usize, r: S| #[trigger]
        call_ensures(S::from_count, (count,), r) ==> r == count_of::<S>(count)
}

/// `Scalar::to_count` is a function of its arguments: given the same, it returns the same.
pub open spec fn functional_to_count<S: Scalar>() -> bool {
    forall|x: S, r: usize| #[trigger]
        call_ensures(S::to_count, (x,), r) ==> r == rounded::<S>(x)
}

/// `Scalar::plus` is a function of its arguments: given the same, it returns the same.
pub open spec fn functional_plus<S: Scalar>() -> bool {
    forall|x: S, y: S, r: S| #[trigger]
        call_ensures(S::plus, (x, y), r) ==> r == sum::<S>(x, y)
}

/// `Scalar::minus` is a function of its arguments: given the same, it returns the same.
pub open spec fn functional_minus<S: Scalar>() -> bool {
    forall|x: S, y: S, r: S| #[trigger]
        call_ensures(S::minus, (x, y), r) ==> r == difference::<S>(x, y)
}

/// `Scalar::times` is a function of its arguments: given the same, it returns the same.
pub open spec fn functional_times<S: Scalar>() -> bool {
    forall|x: S, y: S, r: S| #[trigger]
        call_ensures(S::times, (x, y), r) ==> r == product::<S>(x, y)
}

/// `Scalar::over` is a function of its arguments: given the same, it returns the same.
pub open spec fn functional_over<S: Scalar>() -> bool {
    forall|x: S, y: S, r: S| #[trigger]
        call_ensures(S::over, (x, y), r) ==> r == quotient::<S>(x, y)
}

/// `Scalar::times_plus` is a function of its arguments: given the same, it returns the same.
pub open spec fn functional_times_plus<S: Scalar>() -> bool {
    forall|x: S, y: S, z: S, r: S| #[trigger]
        call_ensures(S::times_plus, (x, y, z), r) ==> r == fused::<S>(x, y, z)
}

/// `Scalar::max` is a function of its arguments: given the same, it returns the same.
pub open spec fn functional_max<S: Scalar>() -> bool {
    forall|x: S, y: S, r: S| #[trigger]
        call_ensures(S::max, (x, y), r) ==> r == larger::<S>(x, y)
}

/// `Scalar::neg` is a function of its arguments: given the same, it returns the same.
pub open spec fn functional_neg<S: Scalar>() -> bool {
    forall|x: S, r: S| #[trigger]
        call_ensures(S::neg, (x,), r) ==> r == negated::<S>(x)
}

/// `Scalar::sqrt` is a function of its arguments: given the same, it returns the same.
pub open spec fn functional_sqrt<S: Scalar>() -> bool {
    forall|x: S, r: S| #[trigger]
        call_ensures(S::sqrt, (x,), r) ==> r == root::<S>(x)
}

/// `Scalar::exp` is a function of its arguments: given the same, it returns the same.
pub open spec fn functional_exp<S: Scalar>() -> bool {
    forall|x: S, r: S| #[trigger]
        call_ensures(S::exp, (x,), r) ==> r == exponential::<S>(x)
}

/// `Scalar::tanh` is a function of its arguments: given the same, it returns the same.
pub open spec fn functional_tanh<S: Scalar>() -> bool {
    forall|x: S, r: S| #[trigger]
        call_ensures(S::tanh, (x,), r) ==> r == hyperbolic_tangent::<S>(x)
}

/// `Scalar::log10` is a function of its arguments: given the same, it returns the same.
pub open spec fn functional_log10<S: Scalar>() -> bool {
    forall|x: S, r: S| #[trigger]
        call_ensures(S::log10, (x,), r) ==> r == common_log::<S>(x)
}

/// `Scalar::below` is a function of its arguments: given the same, it returns the same.
pub open spec fn functional_below<S: Scalar>() -> bool {
    forall|x: S, y: S, r: bool| #[trigger]
        call_ensures(S::below, (x, y), r) ==> r == less::<S>(x, y)
}

/// `Scalar::at_least` is a function of its arguments: given the same, it returns the same.
pub open spec fn functional_at_least<S: Scalar>() -> bool {
    forall|x: S, y: S, r: bool| #[trigger]
        call_ensures(S::at_least, (x, y), r) ==> r == not_less::<S>(x, y)
}

/// Every operation of `W` is a function of its arguments.
pub open spec fn functional_wide<S: Scalar, W: Wide<S>>() -> bool {
    &&& forall|r: W| #[trigger]
        call_ensures(<W as Wide<S>>::zero, (), r) ==> r == wide_zero::<S, W>()
    &&& forall|sample: i16, r: W| #[trigger]
        call_ensures(<W as Wide<S>>::from_sample, (sample,), r) ==> r == wide_sample::<S, W>(sample)
    &&& forall|count: usize, r: W| #[trigger]
        call_ensures(<W as Wide<S>>::from_count, (count,), r) ==> r == wide_count::<S, W>(count)
    &&& forall|x: W, y: W, r: W| #[trigger]
        call_ensures(<W as Wide<S>>::plus, (x, y), r) ==> r == wide_sum::<S, W>(x, y)
    &&& forall|x: W, y: W, r: W| #[trigger]
        call_ensures(<W as Wide<S>>::times, (x, y), r) ==> r == wide_product::<S, W>(x, y)
    &&& forall|x: W, y: W, r: W| #[trigger]
        call_ensures(<W as Wide<S>>::over, (x, y), r) ==> r == wide_quotient::<S, W>(x, y)
    &&& forall|x: W, r: W| #[trigger]
        call_ensures(<W as Wide<S>>::sqrt, (x,), r) ==> r == wide_root::<S, W>(x)
    &&& forall|x: W, r: S| #[trigger]
        call_ensures(<W as Wide<S>>::narrow, (x,), r) ==> r == narrowed::<S, W>(x)
}

/// Zero.
pub open spec fn zero<S: Scalar>() -> S {
    ratio_of(0, 1)
}

/// One.
pub open spec fn one<S: Scalar>() -> S {
    ratio_of(1, 1)
}

} // verus!
