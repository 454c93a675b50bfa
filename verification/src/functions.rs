//! What it takes for the operations of a number type to be functions, and that their names then stand
//! for what they return.

use vstd::prelude::*;

use crate::engine::{functional_cell, functional_inference, functional_spectrum};
use crate::layers::{functional_conv, functional_logistic};
use crate::pcm::functional_scaling;
use crate::scalar::{
    common_log, count_of, decoded, difference, exponential, functional_at_least, functional_below,
    functional_exp, functional_from_bits, functional_from_count, functional_from_sample,
    functional_log10, functional_max, functional_minus, functional_neg, functional_over,
    functional_plus, functional_ratio, functional_sqrt, functional_tanh, functional_times,
    functional_times_plus, functional_to_count, functional_wide, fused, hyperbolic_tangent, larger,
    less, narrowed, negated, not_less, one, product, quotient, ratio_of, root, rounded, sample_of,
    sum, wide_count, wide_product, wide_quotient, wide_root, wide_sample, wide_sum, wide_zero, zero,
    Scalar, Wide,
};
use crate::simd::{functional_dot, functional_relu};
use crate::state::{functional_advance, functional_timing};
use crate::volume::{functional_loudness, functional_smoothing};

verus! {

/// `Scalar::ratio` is a function exactly where it never returns two values for the same arguments, and
/// its name stands for a value that it does return.
pub proof fn law_functional_ratio<S: Scalar>(num: i32, den: i32, r: S)
    requires
        call_ensures(S::ratio, (num, den), r),
    ensures
        call_ensures(S::ratio, (num, den), ratio_of::<S>(num, den)),
        functional_ratio::<S>() ==> r == ratio_of::<S>(num, den),
        (forall|num: i32, den: i32, r: S, q: S| #[trigger]
            call_ensures(S::ratio, (num, den), r) && #[trigger] call_ensures(S::ratio, (num, den), q) ==> r
                == q) ==> functional_ratio::<S>(),
{
}

/// `Scalar::from_bits` is a function exactly where it never returns two values for the same arguments, and
/// its name stands for a value that it does return.
pub proof fn law_functional_from_bits<S: Scalar>(bits: u32, r: S)
    requires
        call_ensures(S::from_bits, (bits,), r),
    ensures
        call_ensures(S::from_bits, (bits,), decoded::<S>(bits)),
        functional_from_bits::<S>() ==> r == decoded::<S>(bits),
        (forall|bits: u32, r: S, q: S| #[trigger]
            call_ensures(S::from_bits, (bits,), r) && #[trigger] call_ensures(S::from_bits, (bits,), q) ==> r
                == q) ==> functional_from_bits::<S>(),
{
}

/// `Scalar::from_sample` is a function exactly where it never returns two values for the same arguments, and
/// its name stands for a value that it does return.
pub proof fn law_functional_from_sample<S: Scalar>(sample: i16, r: S)
    requires
        call_ensures(S::from_sample, (sample,), r),
    ensures
        call_ensures(S::from_sample, (sample,), sample_of::<S>(sample)),
        functional_from_sample::<S>() ==> r == sample_of::<S>(sample),
        (forall|sample: i16, r: S, q: S| #[trigger]
            call_ensures(S::from_sample, (sample,), r) && #[trigger] call_ensures(S::from_sample, (sample,), q) ==> r
                == q) ==> functional_from_sample::<S>(),
{
}

/// `Scalar::from_count` is a function exactly where it never returns two values for the same arguments, and
/// its name stands for a value that it does return.
pub proof fn law_functional_from_count<S: Scalar>(count: usize, r: S)
    requires
        call_ensures(S::from_count, (count,), r),
    ensures
        call_ensures(S::from_count, (count,), count_of::<S>(count)),
        functional_from_count::<S>() ==> r == count_of::<S>(count),
        (forall|count: usize, r: S, q: S| #[trigger]
            call_ensures(S::from_count, (count,), r) && #[trigger] call_ensures(S::from_count, (count,), q) ==> r
                == q) ==> functional_from_count::<S>(),
{
}

/// `Scalar::to_count` is a function exactly where it never returns two values for the same arguments, and
/// its name stands for a value that it does return.
pub proof fn law_functional_to_count<S: Scalar>(x: S, r: usize)
    requires
        call_ensures(S::to_count, (x,), r),
    ensures
        call_ensures(S::to_count, (x,), rounded(x)),
        functional_to_count::<S>() ==> r == rounded(x),
        (forall|x: S, r: usize, q: usize| #[trigger]
            call_ensures(S::to_count, (x,), r) && #[trigger] call_ensures(S::to_count, (x,), q) ==> r
                == q) ==> functional_to_count::<S>(),
{
}

/// `Scalar::plus` is a function exactly where it never returns two values for the same arguments, and
/// its name stands for a value that it does return.
pub proof fn law_functional_plus<S: Scalar>(x: S, y: S, r: S)
    requires
        call_ensures(S::plus, (x, y), r),
    ensures
        call_ensures(S::plus, (x, y), sum(x, y)),
        functional_plus::<S>() ==> r == sum(x, y),
        (forall|x: S, y: S, r: S, q: S| #[trigger]
            call_ensures(S::plus, (x, y), r) && #[trigger] call_ensures(S::plus, (x, y), q) ==> r
                == q) ==> functional_plus::<S>(),
{
}

/// `Scalar::minus` is a function exactly where it never returns two values for the same arguments, and
/// its name stands for a value that it does return.
pub proof fn law_functional_minus<S: Scalar>(x: S, y: S, r: S)
    requires
        call_ensures(S::minus, (x, y), r),
    ensures
        call_ensures(S::minus, (x, y), difference(x, y)),
        functional_minus::<S>() ==> r == difference(x, y),
        (forall|x: S, y: S, r: S, q: S| #[trigger]
            call_ensures(S::minus, (x, y), r) && #[trigger] call_ensures(S::minus, (x, y), q) ==> r
                == q) ==> functional_minus::<S>(),
{
}

/// `Scalar::times` is a function exactly where it never returns two values for the same arguments, and
/// its name stands for a value that it does return.
pub proof fn law_functional_times<S: Scalar>(x: S, y: S, r: S)
    requires
        call_ensures(S::times, (x, y), r),
    ensures
        call_ensures(S::times, (x, y), product(x, y)),
        functional_times::<S>() ==> r == product(x, y),
        (forall|x: S, y: S, r: S, q: S| #[trigger]
            call_ensures(S::times, (x, y), r) && #[trigger] call_ensures(S::times, (x, y), q) ==> r
                == q) ==> functional_times::<S>(),
{
}

/// `Scalar::over` is a function exactly where it never returns two values for the same arguments, and
/// its name stands for a value that it does return.
pub proof fn law_functional_over<S: Scalar>(x: S, y: S, r: S)
    requires
        call_ensures(S::over, (x, y), r),
    ensures
        call_ensures(S::over, (x, y), quotient(x, y)),
        functional_over::<S>() ==> r == quotient(x, y),
        (forall|x: S, y: S, r: S, q: S| #[trigger]
            call_ensures(S::over, (x, y), r) && #[trigger] call_ensures(S::over, (x, y), q) ==> r
                == q) ==> functional_over::<S>(),
{
}

/// `Scalar::times_plus` is a function exactly where it never returns two values for the same arguments, and
/// its name stands for a value that it does return.
pub proof fn law_functional_times_plus<S: Scalar>(x: S, y: S, z: S, r: S)
    requires
        call_ensures(S::times_plus, (x, y, z), r),
    ensures
        call_ensures(S::times_plus, (x, y, z), fused(x, y, z)),
        functional_times_plus::<S>() ==> r == fused(x, y, z),
        (forall|x: S, y: S, z: S, r: S, q: S| #[trigger]
            call_ensures(S::times_plus, (x, y, z), r) && #[trigger] call_ensures(S::times_plus, (x, y, z), q) ==> r
                == q) ==> functional_times_plus::<S>(),
{
}

/// `Scalar::max` is a function exactly where it never returns two values for the same arguments, and
/// its name stands for a value that it does return.
pub proof fn law_functional_max<S: Scalar>(x: S, y: S, r: S)
    requires
        call_ensures(S::max, (x, y), r),
    ensures
        call_ensures(S::max, (x, y), larger(x, y)),
        functional_max::<S>() ==> r == larger(x, y),
        (forall|x: S, y: S, r: S, q: S| #[trigger]
            call_ensures(S::max, (x, y), r) && #[trigger] call_ensures(S::max, (x, y), q) ==> r
                == q) ==> functional_max::<S>(),
{
}

/// `Scalar::neg` is a function exactly where it never returns two values for the same arguments, and
/// its name stands for a value that it does return.
pub proof fn law_functional_neg<S: Scalar>(x: S, r: S)
    requires
        call_ensures(S::neg, (x,), r),
    ensures
        call_ensures(S::neg, (x,), negated(x)),
        functional_neg::<S>() ==> r == negated(x),
        (forall|x: S, r: S, q: S| #[trigger]
            call_ensures(S::neg, (x,), r) && #[trigger] call_ensures(S::neg, (x,), q) ==> r
                == q) ==> functional_neg::<S>(),
{
}

/// `Scalar::sqrt` is a function exactly where it never returns two values for the same arguments, and
/// its name stands for a value that it does return.
pub proof fn law_functional_sqrt<S: Scalar>(x: S, r: S)
    requires
        call_ensures(S::sqrt, (x,), r),
    ensures
        call_ensures(S::sqrt, (x,), root(x)),
        functional_sqrt::<S>() ==> r == root(x),
        (forall|x: S, r: S, q: S| #[trigger]
            call_ensures(S::sqrt, (x,), r) && #[trigger] call_ensures(S::sqrt, (x,), q) ==> r
                == q) ==> functional_sqrt::<S>(),
{
}

/// `Scalar::exp` is a function exactly where it never returns two values for the same arguments, and
/// its name stands for a value that it does return.
pub proof fn law_functional_exp<S: Scalar>(x: S, r: S)
    requires
        call_ensures(S::exp, (x,), r),
    ensures
        call_ensures(S::exp, (x,), exponential(x)),
        functional_exp::<S>() ==> r == exponential(x),
        (forall|x: S, r: S, q: S| #[trigger]
            call_ensures(S::exp, (x,), r) && #[trigger] call_ensures(S::exp, (x,), q) ==> r
                == q) ==> functional_exp::<S>(),
{
}

/// `Scalar::tanh` is a function exactly where it never returns two values for the same arguments, and
/// its name stands for a value that it does return.
pub proof fn law_functional_tanh<S: Scalar>(x: S, r: S)
    requires
        call_ensures(S::tanh, (x,), r),
    ensures
        call_ensures(S::tanh, (x,), hyperbolic_tangent(x)),
        functional_tanh::<S>() ==> r == hyperbolic_tangent(x),
        (forall|x: S, r: S, q: S| #[trigger]
            call_ensures(S::tanh, (x,), r) && #[trigger] call_ensures(S::tanh, (x,), q) ==> r
                == q) ==> functional_tanh::<S>(),
{
}

/// `Scalar::log10` is a function exactly where it never returns two values for the same arguments, and
/// its name stands for a value that it does return.
pub proof fn law_functional_log10<S: Scalar>(x: S, r: S)
    requires
        call_ensures(S::log10, (x,), r),
    ensures
        call_ensures(S::log10, (x,), common_log(x)),
        functional_log10::<S>() ==> r == common_log(x),
        (forall|x: S, r: S, q: S| #[trigger]
            call_ensures(S::log10, (x,), r) && #[trigger] call_ensures(S::log10, (x,), q) ==> r
                == q) ==> functional_log10::<S>(),
{
}

/// `Scalar::below` is a function exactly where it never returns two values for the same arguments, and
/// its name stands for a value that it does return.
pub proof fn law_functional_below<S: Scalar>(x: S, y: S, r: bool)
    requires
        call_ensures(S::below, (x, y), r),
    ensures
        call_ensures(S::below, (x, y), less(x, y)),
        functional_below::<S>() ==> r == less(x, y),
        (forall|x: S, y: S, r: bool, q: bool| #[trigger]
            call_ensures(S::below, (x, y), r) && #[trigger] call_ensures(S::below, (x, y), q) ==> r
                == q) ==> functional_below::<S>(),
{
}

/// `Scalar::at_least` is a function exactly where it never returns two values for the same arguments, and
/// its name stands for a value that it does return.
pub proof fn law_functional_at_least<S: Scalar>(x: S, y: S, r: bool)
    requires
        call_ensures(S::at_least, (x, y), r),
    ensures
        call_ensures(S::at_least, (x, y), not_less(x, y)),
        functional_at_least::<S>() ==> r == not_less(x, y),
        (forall|x: S, y: S, r: bool, q: bool| #[trigger]
            call_ensures(S::at_least, (x, y), r) && #[trigger] call_ensures(S::at_least, (x, y), q) ==> r
                == q) ==> functional_at_least::<S>(),
{
}

/// No operation of `W` returns two values for the same arguments.
pub open spec fn single_valued<S: Scalar, W: Wide<S>>() -> bool {
    &&& forall|r: W, q: W| #[trigger]
        call_ensures(<W as Wide<S>>::zero, (), r) && #[trigger] call_ensures(
            <W as Wide<S>>::zero,
            (),
            q,
        ) ==> r == q
    &&& forall|sample: i16, r: W, q: W| #[trigger]
        call_ensures(<W as Wide<S>>::from_sample, (sample,), r) && #[trigger] call_ensures(
            <W as Wide<S>>::from_sample,
            (sample,),
            q,
        ) ==> r == q
    &&& forall|count: usize, r: W, q: W| #[trigger]
        call_ensures(<W as Wide<S>>::from_count, (count,), r) && #[trigger] call_ensures(
            <W as Wide<S>>::from_count,
            (count,),
            q,
        ) ==> r == q
    &&& forall|x: W, y: W, r: W, q: W| #[trigger]
        call_ensures(<W as Wide<S>>::plus, (x, y), r) && #[trigger] call_ensures(
            <W as Wide<S>>::plus,
            (x, y),
            q,
        ) ==> r == q
    &&& forall|x: W, y: W, r: W, q: W| #[trigger]
        call_ensures(<W as Wide<S>>::times, (x, y), r) && #[trigger] call_ensures(
            <W as Wide<S>>::times,
            (x, y),
            q,
        ) ==> r == q
    &&& forall|x: W, y: W, r: W, q: W| #[trigger]
        call_ensures(<W as Wide<S>>::over, (x, y), r) && #[trigger] call_ensures(
            <W as Wide<S>>::over,
            (x, y),
            q,
        ) ==> r == q
    &&& forall|x: W, r: W, q: W| #[trigger]
        call_ensures(<W as Wide<S>>::sqrt, (x,), r) && #[trigger] call_ensures(
            <W as Wide<S>>::sqrt,
            (x,),
            q,
        ) ==> r == q
    &&& forall|x: W, r: S, q: S| #[trigger]
        call_ensures(<W as Wide<S>>::narrow, (x,), r) && #[trigger] call_ensures(
            <W as Wide<S>>::narrow,
            (x,),
            q,
        ) ==> r == q
}

/// The operations of `W` are functions exactly where none returns two values for the same arguments.
pub proof fn law_functional_wide<S: Scalar, W: Wide<S>>()
    ensures
        functional_wide::<S, W>() == single_valued::<S, W>(),
{
}

/// What `Wide::zero` is named to return, it returns.
pub proof fn law_wide_zero<S: Scalar, W: Wide<S>>(r: W)
    requires
        call_ensures(<W as Wide<S>>::zero, (), r),
    ensures
        call_ensures(<W as Wide<S>>::zero, (), wide_zero::<S, W>()),
        functional_wide::<S, W>() ==> r == wide_zero::<S, W>(),
{
}

/// What `Wide::from_sample` is named to return, it returns.
pub proof fn law_wide_from_sample<S: Scalar, W: Wide<S>>(sample: i16, r: W)
    requires
        call_ensures(<W as Wide<S>>::from_sample, (sample,), r),
    ensures
        call_ensures(<W as Wide<S>>::from_sample, (sample,), wide_sample::<S, W>(sample)),
        functional_wide::<S, W>() ==> r == wide_sample::<S, W>(sample),
{
}

/// What `Wide::from_count` is named to return, it returns.
pub proof fn law_wide_from_count<S: Scalar, W: Wide<S>>(count: usize, r: W)
    requires
        call_ensures(<W as Wide<S>>::from_count, (count,), r),
    ensures
        call_ensures(<W as Wide<S>>::from_count, (count,), wide_count::<S, W>(count)),
        functional_wide::<S, W>() ==> r == wide_count::<S, W>(count),
{
}

/// What `Wide::plus` is named to return, it returns.
pub proof fn law_wide_plus<S: Scalar, W: Wide<S>>(x: W, y: W, r: W)
    requires
        call_ensures(<W as Wide<S>>::plus, (x, y), r),
    ensures
        call_ensures(<W as Wide<S>>::plus, (x, y), wide_sum::<S, W>(x, y)),
        functional_wide::<S, W>() ==> r == wide_sum::<S, W>(x, y),
{
}

/// What `Wide::times` is named to return, it returns.
pub proof fn law_wide_times<S: Scalar, W: Wide<S>>(x: W, y: W, r: W)
    requires
        call_ensures(<W as Wide<S>>::times, (x, y), r),
    ensures
        call_ensures(<W as Wide<S>>::times, (x, y), wide_product::<S, W>(x, y)),
        functional_wide::<S, W>() ==> r == wide_product::<S, W>(x, y),
{
}

/// What `Wide::over` is named to return, it returns.
pub proof fn law_wide_over<S: Scalar, W: Wide<S>>(x: W, y: W, r: W)
    requires
        call_ensures(<W as Wide<S>>::over, (x, y), r),
    ensures
        call_ensures(<W as Wide<S>>::over, (x, y), wide_quotient::<S, W>(x, y)),
        functional_wide::<S, W>() ==> r == wide_quotient::<S, W>(x, y),
{
}

/// What `Wide::sqrt` is named to return, it returns.
pub proof fn law_wide_sqrt<S: Scalar, W: Wide<S>>(x: W, r: W)
    requires
        call_ensures(<W as Wide<S>>::sqrt, (x,), r),
    ensures
        call_ensures(<W as Wide<S>>::sqrt, (x,), wide_root::<S, W>(x)),
        functional_wide::<S, W>() ==> r == wide_root::<S, W>(x),
{
}

/// What `Wide::narrow` is named to return, it returns.
pub proof fn law_wide_narrow<S: Scalar, W: Wide<S>>(x: W, r: S)
    requires
        call_ensures(<W as Wide<S>>::narrow, (x,), r),
    ensures
        call_ensures(<W as Wide<S>>::narrow, (x,), narrowed::<S, W>(x)),
        functional_wide::<S, W>() ==> r == narrowed::<S, W>(x),
{
}

/// Zero and one are what `Scalar::ratio` gives for them.
pub proof fn law_zero_and_one<S: Scalar>(z: S, u: S)
    requires
        functional_ratio::<S>(),
        call_ensures(S::ratio, (0i32, 1i32), z),
        call_ensures(S::ratio, (1i32, 1i32), u),
    ensures
        zero::<S>() == z,
        one::<S>() == u,
{
}

/// Every operation of `S` is a function.
pub open spec fn functional_all<S: Scalar>() -> bool {
    &&& functional_ratio::<S>()
    &&& functional_from_bits::<S>()
    &&& functional_from_sample::<S>()
    &&& functional_from_count::<S>()
    &&& functional_to_count::<S>()
    &&& functional_plus::<S>()
    &&& functional_minus::<S>()
    &&& functional_times::<S>()
    &&& functional_over::<S>()
    &&& functional_times_plus::<S>()
    &&& functional_max::<S>()
    &&& functional_neg::<S>()
    &&& functional_sqrt::<S>()
    &&& functional_exp::<S>()
    &&& functional_tanh::<S>()
    &&& functional_log10::<S>()
    &&& functional_below::<S>()
    &&& functional_at_least::<S>()
}

/// Where every operation is a function, no contract asks for more.
pub proof fn law_functional_all<S: Scalar>(simd: bool)
    requires
        functional_all::<S>(),
    ensures
        functional_scaling::<S>(),
        functional_dot::<S>(simd),
        functional_relu::<S>(simd),
        functional_logistic::<S>(),
        functional_conv::<S>(),
        functional_spectrum::<S>(simd),
        functional_cell::<S>(simd),
        functional_inference::<S>(simd),
        functional_loudness::<S>(),
        functional_smoothing::<S>(),
        functional_timing::<S>(),
        functional_advance::<S>(),
{
}

} // verus!
