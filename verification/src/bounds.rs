//! With weights of bounded size in the last layer, every confidence lies between zero and one.
//!
//! The recurrent cell's output is cut off before the last layer weighs it, so what is weighed lies
//! between zero and one whatever the window and the memory held, values that are no number included.
//! The weighted sum is then bounded, and so it compares with itself.

use vstd::prelude::*;

use crate::engine::{Memory, Weights, H};
use crate::layers::{logistic, reflected};
use crate::range::{between, comparable, comparing, law_confidence_range, orderly};
use crate::scalar::{fused, hyperbolic_tangent, larger, product, sum, zero, Scalar};
use crate::simd::{
    clipped, fold_lanes, fused_strided, lane_clip, lane_clipped, relu_in_lanes, relu_product,
    strided,
};

verus! {

/// How many bounds a logit can add up: one for each value of the cell's output, and one for the bias.
pub const BOUNDS: usize = 129;

/// Sums stay bounded. `within(x, n)` says that `x` is no larger than `n` bounds, `light(w)` that `w` is
/// no larger than one, and `unit(u)` that `u` lies between zero and one. A logistic times a hyperbolic
/// tangent, cut off in either way, is a unit; adding a light number times a unit, rounded once or
/// twice, adds one bound; adding two sums adds their bounds; and what is within 129 bounds compares
/// with itself.
///
/// In single precision the bound can be any power of two up to 2^120: up to 129 times the bound is
/// then a number, and rounding does not go beyond a number.
#[verifier::opaque]
pub open spec fn keeps_bounds<S: Scalar>(
    within: spec_fn(S, nat) -> bool,
    light: spec_fn(S) -> bool,
    unit: spec_fn(S) -> bool,
) -> bool {
    &&& forall|g: S, c: S|
        {
            let h = #[trigger] product(logistic(g), hyperbolic_tangent(c));
            unit(larger(h, zero())) && unit(lane_clip(h))
        }
    &&& within(zero(), 0)
    &&& forall|x: S, n: nat, w: S, u: S|
        #![trigger within(x, n), light(w), unit(u)]
        within(x, n) && light(w) && unit(u) && n < BOUNDS ==> {
            &&& within(sum(x, product(w, u)), n + 1)
            &&& within(fused(w, u, x), n + 1)
        }
    &&& forall|x: S, m: nat, y: S, n: nat|
        #![trigger within(x, m), within(y, n)]
        within(x, m) && within(y, n) && m + n <= BOUNDS ==> within(sum(x, y), m + n)
    &&& forall|x: S, n: nat| #[trigger] within(x, n) && n <= BOUNDS ==> comparable(x)
}

/// The last layer's weights and its bias are no larger than the bound.
pub open spec fn bounded_weights<S: Scalar>(
    within: spec_fn(S, nat) -> bool,
    light: spec_fn(S) -> bool,
    w: Weights<S>,
) -> bool {
    &&& forall|i: int| 0 <= i < w.dec_weight.len() ==> light(#[trigger] w.dec_weight[i])
    &&& within(w.dec_bias, 1)
}

proof fn lemma_product<S: Scalar>(
    within: spec_fn(S, nat) -> bool,
    light: spec_fn(S) -> bool,
    unit: spec_fn(S) -> bool,
    x: S,
    n: nat,
    w: S,
    u: S,
)
    requires
        keeps_bounds(within, light, unit),
        within(x, n),
        light(w),
        unit(u),
        n < BOUNDS,
    ensures
        within(sum(x, product(w, u)), n + 1),
        within(fused(w, u, x), n + 1),
{
    reveal(keeps_bounds);
}

proof fn lemma_sum<S: Scalar>(
    within: spec_fn(S, nat) -> bool,
    light: spec_fn(S) -> bool,
    unit: spec_fn(S) -> bool,
    x: S,
    m: nat,
    y: S,
    n: nat,
)
    requires
        keeps_bounds(within, light, unit),
        within(x, m),
        within(y, n),
        m + n <= BOUNDS,
    ensures
        within(sum(x, y), m + n),
{
    reveal(keeps_bounds);
}

proof fn lemma_unit<S: Scalar>(
    within: spec_fn(S, nat) -> bool,
    light: spec_fn(S) -> bool,
    unit: spec_fn(S) -> bool,
    g: S,
    c: S,
)
    requires
        keeps_bounds(within, light, unit),
    ensures
        unit(larger(product(logistic(g), hyperbolic_tangent(c)), zero())),
        unit(lane_clip(product(logistic(g), hyperbolic_tangent(c)))),
{
    reveal(keeps_bounds);
}

proof fn lemma_ends<S: Scalar>(
    within: spec_fn(S, nat) -> bool,
    light: spec_fn(S) -> bool,
    unit: spec_fn(S) -> bool,
)
    requires
        keeps_bounds(within, light, unit),
    ensures
        within(zero(), 0),
        forall|x: S| #[trigger] within(x, 129) ==> comparable(x),
{
    reveal(keeps_bounds);
}

/// `n` more products add `n` bounds.
proof fn lemma_strided<S: Scalar>(
    within: spec_fn(S, nat) -> bool,
    light: spec_fn(S) -> bool,
    unit: spec_fn(S) -> bool,
    a: Seq<S>,
    b: Seq<S>,
    x: S,
    m: nat,
    start: int,
    step: int,
    n: int,
)
    requires
        keeps_bounds(within, light, unit),
        forall|i: int| 0 <= i < a.len() ==> light(#[trigger] a[i]),
        forall|i: int| 0 <= i < a.len() ==> unit(#[trigger] b[i]),
        within(x, m),
        0 <= start,
        0 < step,
        0 <= n,
        m + n <= BOUNDS,
        n > 0 ==> start + (n - 1) * step < a.len(),
    ensures
        within(strided(x, a, b, start, step, n), (m + n) as nat),
        within(fused_strided(x, a, b, start, step, n), (m + n) as nat),
    decreases n,
{
    if n > 0 {
        let i = start + (n - 1) * step;
        assert(0 <= (n - 1) * step && (n - 2) * step <= (n - 1) * step) by (nonlinear_arith)
            requires
                1 <= n,
                0 < step,
        ;
        lemma_strided(within, light, unit, a, b, x, m, start, step, n - 1);
        let k = (m + (n - 1)) as nat;
        assert(k + 1 == (m + n) as nat);
        lemma_product(
            within,
            light,
            unit,
            strided(x, a, b, start, step, n - 1),
            k,
            a[i],
            b[i],
        );
        lemma_product(
            within,
            light,
            unit,
            fused_strided(x, a, b, start, step, n - 1),
            k,
            a[i],
            b[i],
        );
    }
}

/// Folding eight lanes adds their bounds.
proof fn lemma_fold<S: Scalar>(
    within: spec_fn(S, nat) -> bool,
    light: spec_fn(S) -> bool,
    unit: spec_fn(S) -> bool,
    v: Seq<S>,
    n: nat,
)
    requires
        keeps_bounds(within, light, unit),
        forall|l: int| 0 <= l < 8 ==> within(#[trigger] v[l], n),
        8 * n <= BOUNDS,
    ensures
        within(fold_lanes(v), 8 * n),
{
    let (s04, s15) = (sum(v[0], v[4]), sum(v[1], v[5]));
    let (s26, s37) = (sum(v[2], v[6]), sum(v[3], v[7]));
    lemma_sum(within, light, unit, v[0], n, v[4], n);
    lemma_sum(within, light, unit, v[1], n, v[5], n);
    lemma_sum(within, light, unit, v[2], n, v[6], n);
    lemma_sum(within, light, unit, v[3], n, v[7], n);
    lemma_sum(within, light, unit, s04, n + n, s15, n + n);
    lemma_sum(within, light, unit, s26, n + n, s37, n + n);
    let half = (n + n) + (n + n);
    lemma_sum(within, light, unit, sum(s04, s15), half, sum(s26, s37), half);
    assert(half + half == 8 * n);
}

/// The weighted sum of values that become units when they are cut off has one bound for each.
proof fn lemma_relu<S: Scalar>(
    within: spec_fn(S, nat) -> bool,
    light: spec_fn(S) -> bool,
    unit: spec_fn(S) -> bool,
    simd: bool,
    a: Seq<S>,
    b: Seq<S>,
)
    requires
        keeps_bounds(within, light, unit),
        a.len() == b.len(),
        a.len() <= BOUNDS,
        forall|i: int| 0 <= i < a.len() ==> light(#[trigger] a[i]),
        forall|i: int|
            0 <= i < b.len() ==> unit(larger(#[trigger] b[i], zero())) && unit(lane_clip(b[i])),
    ensures
        within(relu_product(simd, a, b), a.len()),
{
    let n = a.len() as int;
    let c = clipped(b);
    let d = lane_clipped(b);
    lemma_ends(within, light, unit);
    assert forall|i: int| 0 <= i < a.len() implies unit(#[trigger] c[i]) by {
        assert(unit(larger(b[i], zero())));
    }
    assert forall|i: int| 0 <= i < a.len() implies unit(#[trigger] d[i]) by {
        assert(unit(lane_clip(b[i])));
    }
    if simd {
        let q = (n / 8) as nat;
        let v = Seq::new(8, |l: int| fused_strided(zero(), a, d, l, 8, n / 8));
        assert forall|l: int| 0 <= l < 8 implies within(#[trigger] v[l], q) by {
            lemma_strided(within, light, unit, a, d, zero(), 0, l, 8, n / 8);
        }
        lemma_fold(within, light, unit, v, q);
        lemma_strided(within, light, unit, a, c, fold_lanes(v), 8 * q, n / 8 * 8, 1, n % 8);
        assert(relu_in_lanes(a, b) == strided(fold_lanes(v), a, c, n / 8 * 8, 1, n % 8));
        assert(8 * q + n % 8 == n);
    } else {
        lemma_strided(within, light, unit, a, c, zero(), 0, 0, 1, n);
    }
}

/// Where the last layer's weights are bounded, the logit of any window after any memory compares with
/// itself, and the confidence lies between zero and one.
pub proof fn law_confidence_of_bounded_weights<S: Scalar>(
    within: spec_fn(S, nat) -> bool,
    light: spec_fn(S) -> bool,
    unit: spec_fn(S) -> bool,
    w: Weights<S>,
    m: Memory<S>,
    samples: Seq<S>,
)
    requires
        orderly::<S>(),
        comparing::<S>(),
        keeps_bounds(within, light, unit),
        w.sized(),
        bounded_weights(within, light, w),
    ensures
        comparable(w.logit(m, samples)),
        between(w.inferred(m, samples).1),
{
    let frame = w.encoded(w.spectrum(reflected(m.context + samples, 64), 4), 4);
    let xh = frame + m.h;
    let h = w.stepped(m, frame).h;
    assert forall|i: int| 0 <= i < h.len() implies unit(larger(#[trigger] h[i], zero())) && unit(
        lane_clip(h[i]),
    ) by {
        let g = w.gate(xh, 3 * H + i);
        let c = w.next_c(xh, m.c, i);
        lemma_unit(within, light, unit, g, c);
        assert(h[i] == product(logistic(g), hyperbolic_tangent(c)));
    }
    lemma_relu(within, light, unit, w.simd, w.dec_weight, h);
    let weighted = relu_product(w.simd, w.dec_weight, h);
    lemma_sum(within, light, unit, w.dec_bias, 1, weighted, 128);
    lemma_ends(within, light, unit);
    assert(within(w.logit(m, samples), 129));
    law_confidence_range(w, m, samples);
}

} // verus!
