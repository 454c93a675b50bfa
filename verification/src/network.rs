//! What the parts of the network compute: on whole numbers, exactly what they stand for.

use vstd::prelude::*;

use crate::engine::{laid_out, Memory, Weights};
use crate::layers::{conv_sum, convolved, lemma_row_and_column, logistic, reflected, tap, Conv};
use crate::scalar::{
    exponential, fused, hyperbolic_tangent, larger, less, negated, not_less, one, product, quotient,
    ratio_of, root, sum, zero, Scalar,
};
use crate::simd::{
    block_lane, clipped, dot_product, fold_lanes, fused_strided, lane_clip, lane_clipped,
    relu_in_lanes, relu_product, strided, summed_lane,
};
use crate::whole::{
    cut_off, cuts_off, exact_up_to, law_dot_of_whole_numbers, law_relu_of_whole_numbers,
    lemma_whole_product, lemma_whole_sum, products, size, sizes, stand_for, total,
};

verus! {

/// The logistic of any odds that are a whole number: where they stand `k` to one against, it is one in
/// `k + 1`.
pub proof fn law_logistic_of_whole_odds<S: Scalar>(x: S, k: i32)
    requires
        0 <= k < 0x100_0000,
        exponential(negated(x)) == ratio_of::<S>(k, 1),
        sum::<S>(one(), ratio_of(k, 1)) == ratio_of::<S>((k + 1) as i32, 1),
        quotient::<S>(one(), ratio_of((k + 1) as i32, 1)) == ratio_of::<S>(1, (k + 1) as i32),
    ensures
        logistic(x) == ratio_of::<S>(1, (k + 1) as i32),
{
}

/// The order of numbers that compare is kept by the exponential and by adding one, and turned round by
/// negation and by dividing one by it.
pub open spec fn logistic_order<S: Scalar>() -> bool {
    &&& forall|x: S, y: S| not_less(y, x) ==> #[trigger] not_less(negated(x), negated(y))
    &&& forall|x: S, y: S| not_less(y, x) ==> #[trigger] not_less(exponential(y), exponential(x))
    &&& forall|x: S, y: S| #[trigger]
        not_less(y, x) ==> not_less(exponential(x), zero()) && not_less(exponential(y), zero())
    &&& forall|x: S, y: S|
        not_less(y, x) && not_less(x, zero()) ==> #[trigger] not_less(sum(one(), y), sum(one(), x))
    &&& not_less::<S>(zero(), zero())
    &&& sum::<S>(one(), zero()) == one::<S>()
    &&& forall|x: S, y: S|
        not_less(y, x) && not_less(x, one()) ==> #[trigger] not_less(
            quotient(one(), x),
            quotient(one(), y),
        )
}

/// The logistic never falls.
pub proof fn law_logistic_rises<S: Scalar>(x: S, y: S)
    requires
        logistic_order::<S>(),
        not_less(y, x),
    ensures
        not_less(logistic(y), logistic(x)),
{
    let e = exponential(negated(x));
    let f = exponential(negated(y));
    assert(not_less(negated(x), negated(y)));
    assert(not_less(e, f));
    assert(not_less(f, zero()) && not_less(e, zero()));
    assert(not_less(sum(one(), e), sum(one(), f)));
    assert(not_less(sum(one(), f), sum(one(), zero())));
}

/// The padding mirrors the input around its last value.
pub proof fn law_reflection<T>(input: Seq<T>, pad: nat)
    requires
        pad == 0 || pad < input.len(),
    ensures
        reflected(input, pad).len() == input.len() + pad,
        reflected(input, pad).take(input.len() as int) == input,
        forall|j: int|
            0 < j <= pad ==> reflected(input, pad)[input.len() - 1 + j] == #[trigger] reflected(
                input,
                pad,
            )[input.len() - 1 - j],
{
    let r = reflected(input, pad);
    let n = input.len() as int;
    assert(r.take(n) =~= input);
    assert forall|j: int| 0 < j <= pad implies r[n - 1 + j] == #[trigger] r[n - 1 - j] by {
        assert(r[n - 1 + j] == input[n - 2 - (j - 1)]);
        assert(r[n - 1 - j] == input[n - 1 - j]);
    }
}

/// Value `p` of channel `ci` of whole numbers; there are zeros before and behind a channel.
pub open spec fn value_at(x: Seq<int>, in_len: int, ci: int, p: int) -> int {
    if 0 <= p < in_len {
        x[ci * in_len + p]
    } else {
        0
    }
}

/// What is added up for value `t` of output channel `co`: for each input channel the three values
/// around place `t * stride`, each times its weight.
pub open spec fn conv_terms(
    weight: Seq<int>,
    x: Seq<int>,
    in_ch: int,
    in_len: int,
    co: int,
    place: int,
) -> Seq<int> {
    Seq::new(
        (3 * in_ch) as nat,
        |k: int| weight[co * in_ch * 3 + k] * value_at(x, in_len, k / 3, place + k % 3 - 1),
    )
}

proof fn lemma_total_step(p: Seq<int>, n: int)
    requires
        0 <= n < p.len(),
    ensures
        total(p.take(n + 1)) == total(p.take(n)) + p[n],
{
    assert(p.take(n + 1).drop_last() =~= p.take(n));
}

proof fn lemma_total_bounds(p: Seq<int>, n: int)
    requires
        0 <= n <= p.len(),
    ensures
        -total(sizes(p).take(n)) <= total(p.take(n)) <= total(sizes(p).take(n)),
        0 <= total(sizes(p).take(n)) <= total(sizes(p)),
{
    lemma_total_prefix(p, n);
    lemma_total_rest(p, n);
}

proof fn lemma_total_prefix(p: Seq<int>, n: int)
    requires
        0 <= n <= p.len(),
    ensures
        -total(sizes(p).take(n)) <= total(p.take(n)) <= total(sizes(p).take(n)),
        0 <= total(sizes(p).take(n)),
    decreases n,
{
    if n > 0 {
        lemma_total_prefix(p, n - 1);
        lemma_total_step(p, n - 1);
        lemma_total_step(sizes(p), n - 1);
    }
}

proof fn lemma_total_rest(p: Seq<int>, n: int)
    requires
        0 <= n <= p.len(),
    ensures
        total(sizes(p).take(n)) <= total(sizes(p)),
    decreases p.len() - n,
{
    if n == p.len() {
        assert(sizes(p).take(n) =~= sizes(p));
    } else {
        lemma_total_rest(p, n + 1);
        lemma_total_step(sizes(p), n);
    }
}

/// One product is added exactly.
proof fn lemma_term<S: Scalar>(
    limit: int,
    whole: spec_fn(int) -> S,
    stands: spec_fn(S, int) -> bool,
    bias: int,
    p: Seq<int>,
    k: int,
    u: S,
    v: S,
    a: int,
    b: int,
)
    requires
        exact_up_to(limit, whole, stands),
        size(bias) + total(sizes(p)) <= limit,
        0 <= k < p.len(),
        stands(u, a),
        stands(v, b),
        p[k] == a * b,
    ensures
        sum(whole(bias + total(p.take(k))), product(u, v)) == whole(bias + total(p.take(k + 1))),
{
    lemma_total_bounds(p, k);
    lemma_total_bounds(p, k + 1);
    lemma_total_step(p, k);
    lemma_total_step(sizes(p), k);
    let m = bias + total(p.take(k));
    assert(size(m) <= limit && size(a * b) <= limit && size(m + a * b) <= limit);
    lemma_whole_product(limit, whole, stands, m, u, a, v, b);
}

/// A tap of values that stand for whole numbers stands for the value there.
proof fn lemma_tap<S: Scalar>(
    stands: spec_fn(S, int) -> bool,
    input: Seq<S>,
    x: Seq<int>,
    in_ch: int,
    in_len: int,
    ci: int,
    p: int,
)
    requires
        stand_for(stands, input, x),
        stands(zero(), 0),
        x.len() == in_ch * in_len,
        0 <= ci < in_ch,
    ensures
        stands(tap(input, in_len, ci, p), value_at(x, in_len, ci, p - 1)),
{
    if 1 <= p <= in_len {
        assert(0 <= ci * in_len && ci * in_len + in_len <= in_ch * in_len) by (nonlinear_arith)
            requires
                0 <= ci < in_ch,
                0 <= in_len,
        ;
        assert(ci * in_len + p - 1 == ci * in_len + (p - 1));
        assert(stands(input[ci * in_len + (p - 1)], x[ci * in_len + (p - 1)]));
    }
}

proof fn lemma_conv_sum<S: Scalar>(
    limit: int,
    whole: spec_fn(int) -> S,
    stands: spec_fn(S, int) -> bool,
    e: Conv<S>,
    input: Seq<S>,
    weight: Seq<int>,
    bias: int,
    x: Seq<int>,
    in_ch: int,
    in_len: int,
    co: int,
    place: int,
    n: int,
)
    requires
        exact_up_to(limit, whole, stands),
        stands(zero(), 0),
        stand_for(stands, e.weight, weight),
        stand_for(stands, input, x),
        x.len() == in_ch * in_len,
        0 <= co < e.out_ch,
        weight.len() == e.out_ch * in_ch * 3,
        e.bias[co] == whole(bias),
        size(bias) + total(sizes(conv_terms(weight, x, in_ch, in_len, co, place))) <= limit,
        0 <= n <= in_ch,
    ensures
        conv_sum(e, input, in_ch, in_len, co, place, n) == whole(
            bias + total(conv_terms(weight, x, in_ch, in_len, co, place).take(3 * n)),
        ),
    decreases n,
{
    let p = conv_terms(weight, x, in_ch, in_len, co, place);
    if n == 0 {
        assert(p.take(0) =~= Seq::<int>::empty());
    } else {
        let ci = n - 1;
        lemma_conv_sum(
            limit,
            whole,
            stands,
            e,
            input,
            weight,
            bias,
            x,
            in_ch,
            in_len,
            co,
            place,
            n - 1,
        );
        let w = (co * in_ch + ci) * 3;
        assert(w == co * in_ch * 3 + 3 * ci) by (nonlinear_arith)
            requires
                w == (co * in_ch + ci) * 3,
        ;
        assert(0 <= w && w + 3 <= e.out_ch * in_ch * 3) by (nonlinear_arith)
            requires
                w == (co * in_ch + ci) * 3,
                0 <= co < e.out_ch,
                0 <= ci < in_ch,
        ;
        lemma_tap(stands, input, x, in_ch, in_len, ci, place);
        lemma_tap(stands, input, x, in_ch, in_len, ci, place + 1);
        lemma_tap(stands, input, x, in_ch, in_len, ci, place + 2);
        assert(stands(e.weight[w], weight[w]));
        assert(stands(e.weight[w + 1], weight[w + 1]));
        assert(stands(e.weight[w + 2], weight[w + 2]));
        let k = 3 * ci;
        assert(p[k] == weight[w] * value_at(x, in_len, ci, place - 1)) by {
            assert(k / 3 == ci && k % 3 == 0);
        }
        assert(p[k + 1] == weight[w + 1] * value_at(x, in_len, ci, place)) by {
            assert((k + 1) / 3 == ci && (k + 1) % 3 == 1);
        }
        assert(p[k + 2] == weight[w + 2] * value_at(x, in_len, ci, place + 1)) by {
            assert((k + 2) / 3 == ci && (k + 2) % 3 == 2);
        }
        lemma_term(
            limit,
            whole,
            stands,
            bias,
            p,
            k,
            e.weight[w],
            tap(input, in_len, ci, place),
            weight[w],
            value_at(x, in_len, ci, place - 1),
        );
        lemma_term(
            limit,
            whole,
            stands,
            bias,
            p,
            k + 1,
            e.weight[w + 1],
            tap(input, in_len, ci, place + 1),
            weight[w + 1],
            value_at(x, in_len, ci, place),
        );
        lemma_term(
            limit,
            whole,
            stands,
            bias,
            p,
            k + 2,
            e.weight[w + 2],
            tap(input, in_len, ci, place + 2),
            weight[w + 2],
            value_at(x, in_len, ci, place + 1),
        );
        assert(3 * n == k + 3);
    }
}

/// The convolution of whole numbers is exact: value `t` of output channel `co` is the channel's bias
/// plus every input channel's three values around place `t * stride`, each times its weight, cut off
/// at zero. It holds for any number of channels, any length and any stride.
pub proof fn law_convolution_of_whole_numbers<S: Scalar>(
    limit: int,
    whole: spec_fn(int) -> S,
    stands: spec_fn(S, int) -> bool,
    e: Conv<S>,
    input: Seq<S>,
    weight: Seq<int>,
    bias: int,
    x: Seq<int>,
    in_ch: int,
    in_len: int,
    stride: int,
    ol: int,
    co: int,
    t: int,
)
    requires
        exact_up_to(limit, whole, stands),
        stands(zero(), 0),
        forall|n: int|
            size(n) <= limit ==> larger(#[trigger] whole(n), zero()) == whole(cut_off(n)),
        stand_for(stands, e.weight, weight),
        stand_for(stands, input, x),
        0 <= in_ch,
        x.len() == in_ch * in_len,
        0 <= co < e.out_ch,
        0 <= t < ol,
        weight.len() == e.out_ch * in_ch * 3,
        e.bias[co] == whole(bias),
        size(bias) + total(sizes(conv_terms(weight, x, in_ch, in_len, co, t * stride))) <= limit,
    ensures
        convolved(e, input, in_ch, in_len, stride, ol).len() == e.out_ch * ol,
        convolved(e, input, in_ch, in_len, stride, ol)[co * ol + t] == whole(
            cut_off(bias + total(conv_terms(weight, x, in_ch, in_len, co, t * stride))),
        ),
{
    let place = t * stride;
    let p = conv_terms(weight, x, in_ch, in_len, co, place);
    lemma_place(co, t, e.out_ch, ol);
    lemma_conv_sum(
        limit,
        whole,
        stands,
        e,
        input,
        weight,
        bias,
        x,
        in_ch,
        in_len,
        co,
        place,
        in_ch,
    );
    assert(p.take(3 * in_ch) =~= p);
    lemma_total_bounds(p, p.len() as int);
    assert(sizes(p).take(p.len() as int) =~= sizes(p));
    assert(size(bias + total(p)) <= limit);
}

proof fn lemma_place(i: int, j: int, rows: int, cols: int)
    requires
        0 <= i < rows,
        0 <= j < cols,
    ensures
        0 <= i * cols + j < rows * cols,
        (i * cols + j) / cols == i,
        (i * cols + j) % cols == j,
{
    let k = i * cols + j;
    assert(0 <= k && k < rows * cols) by (nonlinear_arith)
        requires
            k == i * cols + j,
            0 <= i < rows,
            0 <= j < cols,
    ;
    lemma_row_and_column(k, rows, cols);
    let q = k / cols;
    let r = k % cols;
    assert(q == i) by (nonlinear_arith)
        requires
            q * cols + r == i * cols + j,
            0 <= r < cols,
            0 <= j < cols,
    ;
    assert(q * cols == i * cols);
}

/// A stride skips values: value `t` of a convolution with a stride is value `t * stride` of the one
/// without.
pub proof fn law_stride_skips_values<S: Scalar>(
    e: Conv<S>,
    input: Seq<S>,
    in_ch: int,
    in_len: int,
    stride: int,
    ol: int,
    co: int,
    t: int,
)
    requires
        0 <= co < e.out_ch,
        0 <= t < ol,
        0 <= t * stride < in_len,
    ensures
        convolved(e, input, in_ch, in_len, stride, ol)[co * ol + t] == convolved(
            e,
            input,
            in_ch,
            in_len,
            1,
            in_len,
        )[co * in_len + t * stride],
{
    lemma_place(co, t, e.out_ch, ol);
    lemma_place(co, t * stride, e.out_ch, in_len);
}

/// The spectrum at a later time is the spectrum at the start of what is heard from then on, and the
/// magnitudes lie frequency by frequency.
pub proof fn law_spectrum_moves_along<S: Scalar>(
    w: Weights<S>,
    padded: Seq<S>,
    out_len: int,
    f: int,
    t: int,
)
    requires
        0 <= f < 129,
        0 <= t < out_len,
        padded.len() >= 128 * t + 256,
    ensures
        w.magnitude(padded, f, t) == w.magnitude(padded.skip(128 * t), f, 0),
        w.spectrum(padded, out_len).len() == 129 * out_len,
        w.spectrum(padded, out_len)[f * out_len + t] == w.magnitude(padded, f, t),
{
    assert(padded.skip(128 * t).subrange(0, 256) =~= padded.subrange(t * 128, t * 128 + 256));
    lemma_place(f, t, 129, out_len);
}

/// The magnitude of whole numbers is exact: where the real and the imaginary part, the dot products of
/// rows `f` and `129 + f` with the 256 values from `128 * t` on, and the magnitude are whole numbers,
/// it is the one whose square is the sum of their squares.
pub proof fn law_magnitude_of_whole_numbers<S: Scalar>(
    limit: int,
    whole: spec_fn(int) -> S,
    stands: spec_fn(S, int) -> bool,
    w: Weights<S>,
    padded: Seq<S>,
    f: int,
    t: int,
    real_row: Seq<int>,
    imaginary_row: Seq<int>,
    x: Seq<int>,
    k: int,
)
    requires
        exact_up_to(limit, whole, stands),
        stands(whole(total(products(real_row, x))), total(products(real_row, x))),
        product(
            whole(total(products(imaginary_row, x))),
            whole(total(products(imaginary_row, x))),
        ) == whole(
            total(products(imaginary_row, x)) * total(products(imaginary_row, x)),
        ),
        root(whole(k * k)) == whole(k),
        w.sized(),
        0 <= f < 129,
        0 <= t,
        padded.len() >= 128 * t + 256,
        real_row.len() == 256,
        imaginary_row.len() == 256,
        x.len() == 256,
        stand_for(stands, w.stft_basis.skip(256 * f), real_row),
        stand_for(stands, w.stft_basis.skip(256 * (129 + f)), imaginary_row),
        stand_for(stands, padded.skip(128 * t), x),
        total(sizes(products(real_row, x))) <= limit,
        total(sizes(products(imaginary_row, x))) <= limit,
        0 <= k,
        k * k == total(products(real_row, x)) * total(products(real_row, x)) + total(
            products(imaginary_row, x),
        ) * total(products(imaginary_row, x)),
        k * k <= limit,
    ensures
        w.magnitude(padded, f, t) == whole(k),
{
    let re = total(products(real_row, x));
    let im = total(products(imaginary_row, x));
    let frame = padded.subrange(t * 128, t * 128 + 256);
    let a = w.stft_basis.subrange(f * 256, (f + 1) * 256);
    let b = w.stft_basis.subrange((f + 129) * 256, (f + 130) * 256);
    assert forall|i: int| 0 <= i < 256 implies stands(#[trigger] a[i], real_row[i]) by {
        assert(w.stft_basis.skip(256 * f)[i] == a[i]);
    }
    assert forall|i: int| 0 <= i < 256 implies stands(#[trigger] b[i], imaginary_row[i]) by {
        assert(w.stft_basis.skip(256 * (129 + f))[i] == b[i]);
    }
    assert forall|i: int| 0 <= i < 256 implies stands(#[trigger] frame[i], x[i]) by {
        assert(padded.skip(128 * t)[i] == frame[i]);
    }
    law_dot_of_whole_numbers(limit, whole, stands, a, frame, real_row, x);
    law_dot_of_whole_numbers(limit, whole, stands, b, frame, imaginary_row, x);
    assert(0 <= re * re && 0 <= im * im) by (nonlinear_arith);
    lemma_whole_product(limit, whole, stands, im * im, whole(re), re, whole(re), re);
    assert(im * im + re * re == k * k);
}

/// The four convolutions one after the other: 129 channels of 4 values become 128 of 4, 64 of 2, 64 of
/// 1 and 128 of 1.
pub proof fn law_encoder<S: Scalar>(w: Weights<S>, spectrum: Seq<S>)
    ensures
        ({
            let a = convolved(w.enc[0], spectrum, 129, 4, 1, 4);
            let b = convolved(w.enc[1], a, 128, 4, 2, 2);
            let c = convolved(w.enc[2], b, 64, 2, 2, 1);
            w.encoded(spectrum, 4) == convolved(w.enc[3], c, 64, 1, 1, 1)
        }),
{
    reveal_with_fuel(Weights::encoded, 5);
}

/// A gate of whole numbers is exact: the row's weights times the cell's input and its output so far,
/// and the row's bias, added up.
pub proof fn law_gate_of_whole_numbers<S: Scalar>(
    limit: int,
    whole: spec_fn(int) -> S,
    stands: spec_fn(S, int) -> bool,
    w: Weights<S>,
    xh: Seq<S>,
    g: int,
    row: Seq<int>,
    x: Seq<int>,
    bias: int,
)
    requires
        exact_up_to(limit, whole, stands),
        w.sized(),
        0 <= g < 512,
        row.len() == 256,
        x.len() == 256,
        stand_for(stands, w.lstm_w.skip(256 * g), row),
        stand_for(stands, xh, x),
        w.lstm_bias[g] == whole(bias),
        total(sizes(products(row, x))) + size(bias) <= limit,
    ensures
        w.gate(xh, g) == whole(total(products(row, x)) + bias),
{
    let a = w.lstm_w.subrange(g * 256, g * 256 + 256);
    let p = products(row, x);
    assert forall|i: int| 0 <= i < 256 implies stands(#[trigger] a[i], row[i]) by {
        assert(w.lstm_w.skip(256 * g)[i] == a[i]);
    }
    law_dot_of_whole_numbers(limit, whole, stands, a, xh, row, x);
    lemma_total_bounds(p, 256);
    assert(p.take(256) =~= p && sizes(p).take(256) =~= sizes(p));
    lemma_whole_sum(limit, whole, stands, total(p), bias);
}

/// Gates are alike: rows with the same weights and the same bias give the same, wherever they stand.
pub proof fn law_gates_are_alike<S: Scalar>(
    w: Weights<S>,
    v: Weights<S>,
    xh: Seq<S>,
    g: int,
    i: int,
)
    requires
        w.simd == v.simd,
        w.lstm_w.subrange(g * 256, g * 256 + 256) == v.lstm_w.subrange(i * 256, i * 256 + 256),
        w.lstm_bias[g] == v.lstm_bias[i],
    ensures
        w.gate(xh, g) == v.gate(xh, i),
{
}

/// A step of the cell: of the four gates of place `i`, rows `i`, `128 + i`, `256 + i` and `384 + i`, the
/// second says how much of the inner state is kept, the first how much of the third is added, and the
/// fourth how much of the new inner state comes out.
pub proof fn law_step_of_the_cell<S: Scalar>(w: Weights<S>, m: Memory<S>, frame: Seq<S>, i: int)
    requires
        0 <= i < 128,
    ensures
        ({
            let xh = frame + m.h;
            let after = w.stepped(m, frame);
            let kept = product(logistic(w.gate(xh, 128 + i)), m.c[i]);
            let added = product(
                logistic(w.gate(xh, i)),
                hyperbolic_tangent(w.gate(xh, 256 + i)),
            );
            &&& after.h.len() == 128
            &&& after.c.len() == 128
            &&& after.context == m.context
            &&& after.c[i] == sum(kept, added)
            &&& after.h[i] == product(
                logistic(w.gate(xh, 384 + i)),
                hyperbolic_tangent(after.c[i]),
            )
        }),
{
}

/// A cell that forgets nothing and lets nothing in keeps its inner state; one that forgets all and lets
/// all in takes over the candidate; and one that lets nothing out puts out zero.
pub proof fn law_open_and_closed_gates<S: Scalar>(
    w: Weights<S>,
    m: Memory<S>,
    frame: Seq<S>,
    i: int,
)
    requires
        0 <= i < 128,
    ensures
        ({
            let xh = frame + m.h;
            let c = m.c[i];
            let candidate = hyperbolic_tangent(w.gate(xh, 256 + i));
            let after = w.stepped(m, frame);
            let input = logistic(w.gate(xh, i));
            let forget = logistic(w.gate(xh, 128 + i));
            let output = logistic(w.gate(xh, 384 + i));
            &&& forget == one::<S>() && input == zero::<S>() && sum(
                product(one(), c),
                product(zero(), candidate),
            ) == c ==> after.c[i] == c
            &&& forget == zero::<S>() && input == one::<S>() && sum(
                product(zero(), c),
                product(one(), candidate),
            ) == candidate ==> after.c[i] == candidate
            &&& output == zero::<S>() && product(zero(), hyperbolic_tangent(after.c[i]))
                == zero::<S>() ==> after.h[i] == zero::<S>()
        }),
{
}

/// The places of the cell are alike: with the same gates and the same inner state, two places put out
/// the same.
pub proof fn law_places_are_alike<S: Scalar>(
    w: Weights<S>,
    m: Memory<S>,
    frame: Seq<S>,
    i: int,
    j: int,
)
    requires
        0 <= i < 128,
        0 <= j < 128,
        m.c[i] == m.c[j],
        forall|k: int|
            0 <= k < 4 ==> w.gate(frame + m.h, 128 * k + i) == #[trigger] w.gate(
                frame + m.h,
                128 * k + j,
            ),
    ensures
        w.stepped(m, frame).c[i] == w.stepped(m, frame).c[j],
        w.stepped(m, frame).h[i] == w.stepped(m, frame).h[j],
{
    let xh = frame + m.h;
    assert(w.gate(xh, 128 * 0 + i) == w.gate(xh, 128 * 0 + j));
    assert(w.gate(xh, 128 * 1 + i) == w.gate(xh, 128 * 1 + j));
    assert(w.gate(xh, 128 * 2 + i) == w.gate(xh, 128 * 2 + j));
    assert(w.gate(xh, 128 * 3 + i) == w.gate(xh, 128 * 3 + j));
}

/// A window goes through the network once: behind the context it is padded by its mirror image, its
/// spectrum at four times goes through the four convolutions and then through one step of the cell, and
/// its last 64 samples are the next context.
pub proof fn law_inference<S: Scalar>(w: Weights<S>, m: Memory<S>, samples: Seq<S>)
    requires
        m.context.len() == 64,
        samples.len() == 512,
    ensures
        ({
            let heard = m.context + samples;
            let padded = heard + Seq::new(64, |i: int| heard[574 - i]);
            let frame = w.encoded(w.spectrum(padded, 4), 4);
            let after = w.inferred(m, samples).0;
            &&& after.h == w.stepped(m, frame).h
            &&& after.c == w.stepped(m, frame).c
            &&& after.context == samples.skip(448)
        }),
{
    let heard = m.context + samples;
    let padded = heard + Seq::new(64, |i: int| heard[574 - i]);
    assert(padded =~= reflected(heard, 64));
    assert(heard.subrange(512, 576) =~= samples.skip(448));
}

/// The logit of whole numbers is exact: the last layer's bias, and its weights times the cell's output
/// cut off at zero, added up.
pub proof fn law_logit_of_whole_numbers<S: Scalar>(
    limit: int,
    whole: spec_fn(int) -> S,
    stands: spec_fn(S, int) -> bool,
    w: Weights<S>,
    m: Memory<S>,
    samples: Seq<S>,
    x: Seq<int>,
    y: Seq<int>,
    bias: int,
)
    requires
        exact_up_to(limit, whole, stands),
        cuts_off(stands),
        w.sized(),
        x.len() == 128,
        y.len() == 128,
        stand_for(stands, w.dec_weight, x),
        stand_for(stands, w.inferred(m, samples).0.h, y),
        w.dec_bias == whole(bias),
        size(bias) + total(sizes(products(x, y.map_values(|n: int| cut_off(n))))) <= limit,
    ensures
        w.logit(m, samples) == whole(
            bias + total(products(x, y.map_values(|n: int| cut_off(n)))),
        ),
{
    let h = w.inferred(m, samples).0.h;
    let p = products(x, y.map_values(|n: int| cut_off(n)));
    law_relu_of_whole_numbers(limit, whole, stands, w.dec_weight, h, x, y);
    lemma_total_bounds(p, 128);
    assert(p.take(128) =~= p && sizes(p).take(128) =~= sizes(p));
    lemma_whole_sum(limit, whole, stands, bias, total(p));
}

/// Where every weight is found: number for number, the parts of the file are the parts of the network.
pub proof fn law_where_the_weights_are<S: Scalar>(simd: bool, floats: Seq<S>, g: int, j: int, i: int)
    requires
        floats.len() >= 309_633,
        0 <= g < 512,
        0 <= j < 128,
        0 <= i,
    ensures
        ({
            let w = laid_out(simd, floats);
            &&& w.simd == simd
            &&& w.lstm_w[g * 256 + j] == floats[177_408 + g * 128 + j]
            &&& w.lstm_w[g * 256 + 128 + j] == floats[242_944 + g * 128 + j]
            &&& w.lstm_bias[g] == sum(floats[308_480 + g], floats[308_992 + g])
            &&& w.dec_weight[j] == floats[309_504 + j]
            &&& w.dec_bias == floats[309_632]
            &&& i < 66_048 ==> w.stft_basis[i] == floats[i]
            &&& i < 49_536 ==> w.enc[0].weight[i] == floats[66_048 + i]
            &&& i < 128 ==> w.enc[0].bias[i] == floats[115_584 + i]
            &&& i < 24_576 ==> w.enc[1].weight[i] == floats[115_712 + i]
            &&& i < 64 ==> w.enc[1].bias[i] == floats[140_288 + i]
            &&& i < 12_288 ==> w.enc[2].weight[i] == floats[140_352 + i]
            &&& i < 64 ==> w.enc[2].bias[i] == floats[152_640 + i]
            &&& i < 24_576 ==> w.enc[3].weight[i] == floats[152_704 + i]
            &&& i < 128 ==> w.enc[3].bias[i] == floats[177_280 + i]
            &&& w.enc[0].out_ch == 128 && w.enc[0].in_ch == 129
            &&& w.enc[1].out_ch == 64 && w.enc[1].in_ch == 128
            &&& w.enc[2].out_ch == 64 && w.enc[2].in_ch == 64
            &&& w.enc[3].out_ch == 128 && w.enc[3].in_ch == 64
        }),
{
    let k = g * 256 + j;
    assert(k / 256 == g && k % 256 == j);
    let l = g * 256 + 128 + j;
    assert(l / 256 == g && l % 256 == 128 + j);
}

/// A blank memory is silence: every one of its values is zero, and there are 128, 128 and 64 of them.
pub proof fn law_blank_memory<S: Scalar>(z: S, i: int)
    requires
        0 <= i,
    ensures
        Memory::filled(z).h.len() == 128,
        Memory::filled(z).c.len() == 128,
        Memory::filled(z).context.len() == 64,
        i < 128 ==> Memory::filled(z).h[i] == z && Memory::filled(z).c[i] == z,
        i < 64 ==> Memory::filled(z).context[i] == z,
        Memory::<S>::blank() == Memory::filled(zero::<S>()),
{
}

/// A lane lets pass what is above zero, and makes zero of everything else, of what compares with
/// nothing too.
pub proof fn law_lanes_cut_off<S: Scalar>(x: S)
    ensures
        less(zero(), x) ==> lane_clip(x) == x,
        !less(zero(), x) ==> lane_clip(x) == zero::<S>(),
{
}

/// How a magnitude is rounded: of the two dot products the imaginary one is squared first, the square
/// of the real one is added to it with one rounding, and the root is taken.
pub proof fn law_rounding_of_magnitudes<S: Scalar>(
    w: Weights<S>,
    padded: Seq<S>,
    f: int,
    t: int,
    x: Seq<S>,
)
    requires
        w.sized(),
        0 <= f < 129,
        0 <= t,
        padded.len() >= 128 * t + 256,
        x == padded.skip(128 * t).take(256),
    ensures
        ({
            let re = dot_product(w.simd, w.stft_basis.skip(256 * f).take(256), x);
            let im = dot_product(w.simd, w.stft_basis.skip(256 * (129 + f)).take(256), x);
            w.magnitude(padded, f, t) == root(fused(re, re, product(im, im)))
        }),
{
    assert(x =~= padded.subrange(t * 128, t * 128 + 256));
    assert(w.stft_basis.skip(256 * f).take(256) =~= w.stft_basis.subrange(f * 256, (f + 1) * 256));
    assert(w.stft_basis.skip(256 * (129 + f)).take(256) =~= w.stft_basis.subrange(
        (f + 129) * 256,
        (f + 130) * 256,
    ));
}

/// Numbers added one after the other, from `start` on.
pub open spec fn in_turn<S: Scalar>(start: S, terms: Seq<S>) -> S {
    terms.fold_left(start, |acc: S, x: S| sum(acc, x))
}

/// Products added one after the other, from `start` on, each product and its addition rounded once.
pub open spec fn fused_in_turn<S: Scalar>(start: S, pairs: Seq<(S, S)>) -> S {
    pairs.fold_left(start, |acc: S, p: (S, S)| fused(p.0, p.1, acc))
}

/// Every `step`th value, `n` of them, from `start` on.
pub open spec fn every<T>(a: Seq<T>, start: int, step: int, n: int) -> Seq<T> {
    Seq::new(n as nat, |j: int| a[start + j * step])
}

/// The products of values, place by place.
pub open spec fn multiplied<S: Scalar>(a: Seq<S>, b: Seq<S>) -> Seq<S> {
    Seq::new(a.len(), |j: int| product(a[j], b[j]))
}

/// The values in pairs, place by place.
pub open spec fn paired<S>(a: Seq<S>, b: Seq<S>) -> Seq<(S, S)> {
    Seq::new(a.len(), |j: int| (a[j], b[j]))
}

proof fn lemma_in_turn<S: Scalar>(acc: S, a: Seq<S>, b: Seq<S>, start: int, step: int, n: int)
    requires
        0 <= n,
    ensures
        strided(acc, a, b, start, step, n) == in_turn(
            acc,
            multiplied(every(a, start, step, n), every(b, start, step, n)),
        ),
        fused_strided(acc, a, b, start, step, n) == fused_in_turn(
            acc,
            paired(every(a, start, step, n), every(b, start, step, n)),
        ),
    decreases n,
{
    let terms = multiplied(every(a, start, step, n), every(b, start, step, n));
    let pairs = paired(every(a, start, step, n), every(b, start, step, n));
    reveal_with_fuel(Seq::fold_left, 2);
    if n > 0 {
        lemma_in_turn(acc, a, b, start, step, n - 1);
        assert(terms.drop_last() =~= multiplied(
            every(a, start, step, n - 1),
            every(b, start, step, n - 1),
        ));
        assert(pairs.drop_last() =~= paired(
            every(a, start, step, n - 1),
            every(b, start, step, n - 1),
        ));
    }
}

/// The order of summation without vector registers, for any length: four sums of every fourth product,
/// what is left over added to the first, and then the four in turn.
pub proof fn law_order_without_lanes<S: Scalar>(a: Seq<S>, b: Seq<S>)
    ensures
        ({
            let n = a.len() as int;
            let q = n / 4;
            let part = |k: int|
                in_turn(zero::<S>(), multiplied(every(a, k, 4, q), every(b, k, 4, q)));
            let first = in_turn(
                part(0),
                multiplied(every(a, q * 4, 1, n % 4), every(b, q * 4, 1, n % 4)),
            );
            dot_product(false, a, b) == in_turn(first, seq![part(1), part(2), part(3)])
        }),
{
    let n = a.len() as int;
    let q = n / 4;
    lemma_in_turn(zero(), a, b, 0, 4, q);
    lemma_in_turn(zero(), a, b, 1, 4, q);
    lemma_in_turn(zero(), a, b, 2, 4, q);
    lemma_in_turn(zero(), a, b, 3, 4, q);
    lemma_in_turn(strided(zero(), a, b, 0, 4, q), a, b, q * 4, 1, n % 4);
    let part = |k: int| in_turn(zero::<S>(), multiplied(every(a, k, 4, q), every(b, k, 4, q)));
    let first = in_turn(
        part(0),
        multiplied(every(a, q * 4, 1, n % 4), every(b, q * 4, 1, n % 4)),
    );
    let s = seq![part(1), part(2), part(3)];
    reveal_with_fuel(Seq::fold_left, 5);
    assert(s.drop_last() =~= seq![part(1), part(2)]);
    assert(s.drop_last().drop_last() =~= seq![part(1)]);
    assert(s.drop_last().drop_last().drop_last() =~= Seq::<S>::empty());
}

/// The order of summation in vector registers, for any length: 32 sums of every 32nd product; the first
/// eight go on with every eighth product of what is left; of the four sums of a lane the outer and the
/// inner two are added; of the eight lanes first each with the fourth behind it, then neighbours; and
/// the last few products are added in turn.
pub proof fn law_order_in_lanes<S: Scalar>(a: Seq<S>, b: Seq<S>)
    ensures
        ({
            let n = a.len() as int;
            let q = n / 32;
            let e = n % 32 / 8;
            let block = |k: int|
                fused_in_turn(zero::<S>(), paired(every(a, k, 32, q), every(b, k, 32, q)));
            let lane = |l: int|
                sum(
                    sum(
                        fused_in_turn(
                            block(l),
                            paired(every(a, q * 32 + l, 8, e), every(b, q * 32 + l, 8, e)),
                        ),
                        block(8 + l),
                    ),
                    sum(block(16 + l), block(24 + l)),
                );
            let low = sum(sum(lane(0), lane(4)), sum(lane(1), lane(5)));
            let high = sum(sum(lane(2), lane(6)), sum(lane(3), lane(7)));
            dot_product(true, a, b) == in_turn(
                sum(low, high),
                multiplied(every(a, n / 8 * 8, 1, n % 8), every(b, n / 8 * 8, 1, n % 8)),
            )
        }),
{
    let n = a.len() as int;
    let q = n / 32;
    let e = n % 32 / 8;
    let block = |k: int|
        fused_in_turn(zero::<S>(), paired(every(a, k, 32, q), every(b, k, 32, q)));
    let lane = |l: int|
        sum(
            sum(
                fused_in_turn(
                    block(l),
                    paired(every(a, q * 32 + l, 8, e), every(b, q * 32 + l, 8, e)),
                ),
                block(8 + l),
            ),
            sum(block(16 + l), block(24 + l)),
        );
    let v = Seq::new(8, |l: int| summed_lane(a, b, l));
    assert forall|l: int| 0 <= l < 8 implies #[trigger] v[l] == lane(l) by {
        lemma_in_turn(zero(), a, b, l, 32, q);
        lemma_in_turn(zero(), a, b, 8 + l, 32, q);
        lemma_in_turn(zero(), a, b, 16 + l, 32, q);
        lemma_in_turn(zero(), a, b, 24 + l, 32, q);
        lemma_in_turn(block_lane(a, b, l), a, b, q * 32 + l, 8, e);
    }
    assert(v[0] == lane(0) && v[1] == lane(1) && v[2] == lane(2) && v[3] == lane(3));
    assert(v[4] == lane(4) && v[5] == lane(5) && v[6] == lane(6) && v[7] == lane(7));
    lemma_in_turn(fold_lanes(v), a, b, n / 8 * 8, 1, n % 8);
}

/// The order of summation of a dot product with values cut off at zero, for any length: one after the
/// other, or in eight lanes with the last few products in turn.
pub proof fn law_order_with_cut_off<S: Scalar>(a: Seq<S>, b: Seq<S>)
    ensures
        ({
            let n = a.len() as int;
            let c = Seq::new(b.len(), |i: int| larger(b[i], zero()));
            let d = Seq::new(b.len(), |i: int| lane_clip(b[i]));
            let lane = |l: int|
                fused_in_turn(zero::<S>(), paired(every(a, l, 8, n / 8), every(d, l, 8, n / 8)));
            let low = sum(sum(lane(0), lane(4)), sum(lane(1), lane(5)));
            let high = sum(sum(lane(2), lane(6)), sum(lane(3), lane(7)));
            &&& relu_product(false, a, b) == in_turn(
                zero(),
                multiplied(every(a, 0, 1, n), every(c, 0, 1, n)),
            )
            &&& relu_product(true, a, b) == in_turn(
                sum(low, high),
                multiplied(every(a, n / 8 * 8, 1, n % 8), every(c, n / 8 * 8, 1, n % 8)),
            )
        }),
{
    let n = a.len() as int;
    let c = Seq::new(b.len(), |i: int| larger(b[i], zero()));
    let d = Seq::new(b.len(), |i: int| lane_clip(b[i]));
    assert(c =~= clipped(b));
    assert(d =~= lane_clipped(b));
    let lane = |l: int|
        fused_in_turn(zero::<S>(), paired(every(a, l, 8, n / 8), every(d, l, 8, n / 8)));
    let v = Seq::new(8, |l: int| fused_strided(zero(), a, lane_clipped(b), l, 8, n / 8));
    assert forall|l: int| 0 <= l < 8 implies #[trigger] v[l] == lane(l) by {
        lemma_in_turn(zero(), a, d, l, 8, n / 8);
    }
    assert(v[0] == lane(0) && v[1] == lane(1) && v[2] == lane(2) && v[3] == lane(3));
    assert(v[4] == lane(4) && v[5] == lane(5) && v[6] == lane(6) && v[7] == lane(7));
    lemma_in_turn(zero(), a, c, 0, 1, n);
    lemma_in_turn(fold_lanes(v), a, c, n / 8 * 8, 1, n % 8);
    assert(relu_in_lanes(a, b) == strided(fold_lanes(v), a, clipped(b), n / 8 * 8, 1, n % 8));
}

/// The products that are added up for a value of output channel `co` at `place`, in their order: for each
/// input channel the three values around the place, zero where there is none, each times its weight.
pub open spec fn conv_products<S: Scalar>(
    e: Conv<S>,
    input: Seq<S>,
    in_ch: int,
    in_len: int,
    co: int,
    place: int,
) -> Seq<S> {
    Seq::new(
        (3 * in_ch) as nat,
        |k: int|
            {
                let p = place + k % 3 - 1;
                product(
                    e.weight[co * in_ch * 3 + k],
                    if 0 <= p < in_len {
                        input[k / 3 * in_len + p]
                    } else {
                        zero()
                    },
                )
            },
    )
}

proof fn lemma_in_turn_step<S: Scalar>(start: S, terms: Seq<S>, n: int)
    requires
        0 <= n < terms.len(),
    ensures
        in_turn(start, terms.take(n + 1)) == sum(in_turn(start, terms.take(n)), terms[n]),
{
    reveal_with_fuel(Seq::fold_left, 2);
    assert(terms.take(n + 1).drop_last() =~= terms.take(n));
}

proof fn lemma_conv_in_turn<S: Scalar>(
    e: Conv<S>,
    input: Seq<S>,
    in_ch: int,
    in_len: int,
    co: int,
    place: int,
    n: int,
)
    requires
        0 <= n <= in_ch,
    ensures
        conv_sum(e, input, in_ch, in_len, co, place, n) == in_turn(
            e.bias[co],
            conv_products(e, input, in_ch, in_len, co, place).take(3 * n),
        ),
    decreases n,
{
    let terms = conv_products(e, input, in_ch, in_len, co, place);
    if n == 0 {
        reveal_with_fuel(Seq::fold_left, 2);
        assert(terms.take(0) =~= Seq::<S>::empty());
    } else {
        let ci = n - 1;
        let k = 3 * ci;
        lemma_conv_in_turn(e, input, in_ch, in_len, co, place, n - 1);
        let w = (co * in_ch + ci) * 3;
        assert(w == co * in_ch * 3 + k) by (nonlinear_arith)
            requires
                w == (co * in_ch + ci) * 3,
                k == 3 * ci,
        ;
        assert(k / 3 == ci && k % 3 == 0);
        assert((k + 1) / 3 == ci && (k + 1) % 3 == 1);
        assert((k + 2) / 3 == ci && (k + 2) % 3 == 2);
        assert(terms[k] == product(e.weight[w], tap(input, in_len, ci, place)));
        assert(terms[k + 1] == product(e.weight[w + 1], tap(input, in_len, ci, place + 1)));
        assert(terms[k + 2] == product(e.weight[w + 2], tap(input, in_len, ci, place + 2)));
        lemma_in_turn_step(e.bias[co], terms, k);
        lemma_in_turn_step(e.bias[co], terms, k + 1);
        lemma_in_turn_step(e.bias[co], terms, k + 2);
        assert(3 * n == k + 3);
    }
}

/// The order of summation of a convolution, for any sizes: from the bias on, the products are added in
/// turn, and the sum is cut off at zero.
pub proof fn law_order_of_convolution<S: Scalar>(
    e: Conv<S>,
    input: Seq<S>,
    in_ch: int,
    in_len: int,
    stride: int,
    ol: int,
    co: int,
    t: int,
)
    requires
        0 <= in_ch,
        0 <= co < e.out_ch,
        0 <= t < ol,
    ensures
        convolved(e, input, in_ch, in_len, stride, ol)[co * ol + t] == larger(
            in_turn(e.bias[co], conv_products(e, input, in_ch, in_len, co, t * stride)),
            zero(),
        ),
{
    let terms = conv_products(e, input, in_ch, in_len, co, t * stride);
    lemma_place(co, t, e.out_ch, ol);
    lemma_conv_in_turn(e, input, in_ch, in_len, co, t * stride, in_ch);
    assert(terms.take(3 * in_ch) =~= terms);
}

/// How a gate is rounded: the dot product of its row with the cell's input and its output so far comes
/// first, and then its bias is added.
pub proof fn law_rounding_of_gates<S: Scalar>(w: Weights<S>, xh: Seq<S>, g: int)
    requires
        w.sized(),
        0 <= g < 512,
    ensures
        w.gate(xh, g) == sum(
            dot_product(w.simd, w.lstm_w.skip(256 * g).take(256), xh),
            w.lstm_bias[g],
        ),
{
    assert(w.lstm_w.skip(256 * g).take(256) =~= w.lstm_w.subrange(g * 256, g * 256 + 256));
}

} // verus!
