//! The layers that the engine is made of, apart from the weights that it holds.

use vstd::arithmetic::div_mod::lemma_fundamental_div_mod;
use vstd::arithmetic::div_mod::lemma_fundamental_div_mod_converse;
use vstd::arithmetic::mul::lemma_mul_inequality;
use vstd::prelude::*;

use crate::scalar::{
    exponential, functional_exp, functional_max, functional_neg, functional_over, functional_plus,
    functional_ratio, functional_times, larger, negated, one, product, quotient, sum, zero, Scalar,
};

verus! {

/// Row `i`, column `j` of a table with `rows` rows of `cols` values lies inside the table, and its
/// place gives back `i` and `j`.
proof fn lemma_place(i: int, j: int, rows: int, cols: int)
    requires
        0 <= i < rows,
        0 <= j < cols,
    ensures
        0 <= i * cols + j < rows * cols,
        (i * cols + j) / cols == i,
        (i * cols + j) % cols == j,
{
    assert(i * cols + cols <= rows * cols) by (nonlinear_arith)
        requires
            i + 1 <= rows,
            0 < cols,
    ;
    assert(0 <= i * cols) by (nonlinear_arith)
        requires
            0 <= i,
            0 < cols,
    ;
    lemma_fundamental_div_mod_converse(i * cols + j, cols, i, j);
}

/// Place `k` of a table with `rows` rows of `cols` values has a row and a column, and they give back
/// `k`.
pub proof fn lemma_row_and_column(k: int, rows: int, cols: int)
    requires
        0 <= k < rows * cols,
        0 <= cols,
    ensures
        0 < cols,
        0 <= k / cols < rows,
        0 <= k % cols < cols,
        k / cols * cols + k % cols == k,
{
    assert(cols != 0) by (nonlinear_arith)
        requires
            0 < rows * cols,
    ;
    lemma_fundamental_div_mod(k, cols);
    let q = k / cols;
    let r = k % cols;
    assert(k == q * cols + r && 0 <= q < rows && 0 <= r < cols) by (nonlinear_arith)
        requires
            0 < cols,
            k == cols * q + r,
            r == k % cols,
            0 <= k < rows * cols,
    ;
}

/// `1 / (1 + exp(-x))`.
pub open spec fn logistic<S: Scalar>(x: S) -> S {
    quotient(one(), sum(one(), exponential(negated(x))))
}

/// `r` comes of the operations of `1 / (1 + exp(-x))`.
pub open spec fn logistic_steps<S: Scalar>(x: S, r: S) -> bool {
    exists|u: S, v: S, n: S, e: S, d: S|
        {
            &&& #[trigger] call_ensures(S::ratio, (1i32, 1i32), u)
            &&& #[trigger] call_ensures(S::ratio, (1i32, 1i32), v)
            &&& #[trigger] call_ensures(S::neg, (x,), n)
            &&& #[trigger] call_ensures(S::exp, (n,), e)
            &&& #[trigger] call_ensures(S::plus, (v, e), d)
            &&& call_ensures(S::over, (u, d), r)
        }
}

/// The operations that the logistic function is computed with are functions.
pub open spec fn functional_logistic<S: Scalar>() -> bool {
    &&& functional_ratio::<S>()
    &&& functional_plus::<S>()
    &&& functional_over::<S>()
    &&& functional_neg::<S>()
    &&& functional_exp::<S>()
}

/// The logistic function.
pub fn sigmoid<S: Scalar>(x: S) -> (r: S)
    ensures
        logistic_steps(x, r),
        functional_logistic::<S>() ==> r == quotient(
            one(),
            sum(one(), exponential(negated(x))),
        ),
        functional_logistic::<S>() ==> r == logistic(x),
{
    let u = S::ratio(1, 1);
    let v = S::ratio(1, 1);
    let n = x.neg();
    let e = n.exp();
    let d = v.plus(e);
    u.over(d)
}

/// `input`, then the `pad` values before its last one, backwards.
pub open spec fn reflected<T>(input: Seq<T>, pad: nat) -> Seq<T> {
    input + Seq::new(pad, |i: int| input[input.len() - 2 - i])
}

/// `input` extended to the right by its mirror image around its last value.
pub fn reflect_pad_right<T: Copy>(input: &[T], pad: usize) -> (r: Vec<T>)
    requires
        pad == 0 || pad < input@.len(),
        input@.len() + pad <= usize::MAX,
    ensures
        r@.len() == input@.len() + pad,
        forall|i: int| 0 <= i < input@.len() ==> #[trigger] r@[i] == input@[i],
        forall|j: int|
            input@.len() <= j < r@.len() ==> #[trigger] r@[j] == input@[2 * (input@.len() - 1) - j],
        r@ == reflected(input@, pad as nat),
{
    let n: usize = input.len();
    let mut out: Vec<T> = Vec::with_capacity(n + pad);
    for i in 0..n
        invariant
            n == input@.len(),
            out@ == input@.take(i as int),
    {
        out.push(input[i]);
        assert(input@.take(i + 1) =~= input@.take(i as int).push(input@[i as int]));
    }
    assert(input@.take(n as int) =~= input@);
    for i in 0..pad
        invariant
            n == input@.len(),
            pad == 0 || pad < n,
            out@ == reflected(input@, i as nat),
    {
        out.push(input[n - 2 - i]);
        assert(reflected(input@, (i + 1) as nat) =~= reflected(input@, i as nat).push(
            input@[n - 2 - i],
        ));
    }
    out
}

/// A copy of the values from `from` up to `to`.
pub fn copied<T: Copy>(values: &[T], from: usize, to: usize) -> (r: Vec<T>)
    requires
        from <= to <= values@.len(),
    ensures
        r@ == values@.subrange(from as int, to as int),
{
    let mut out: Vec<T> = Vec::with_capacity(to - from);
    for i in from..to
        invariant
            from <= to <= values@.len(),
            out@ == values@.subrange(from as int, i as int),
    {
        out.push(values[i]);
        assert(values@.subrange(from as int, i + 1) =~= values@.subrange(
            from as int,
            i as int,
        ).push(values@[i as int]));
    }
    out
}

/// `n` times `value`.
pub fn repeated<T: Copy>(value: T, n: usize) -> (r: Vec<T>)
    ensures
        r@ == Seq::new(n as nat, |i: int| value),
{
    let mut out: Vec<T> = Vec::with_capacity(n);
    for i in 0..n
        invariant
            out@ == Seq::new(i as nat, |k: int| value),
    {
        out.push(value);
        assert(Seq::new((i + 1) as nat, |k: int| value) =~= Seq::new(
            i as nat,
            |k: int| value,
        ).push(value));
    }
    out
}

/// A convolution over time with three taps.
pub struct Conv1dW<S> {
    /// Three weights for each pair of output and input channel, output channel first.
    pub weight: Vec<S>,
    /// One number for each output channel.
    pub bias: Vec<S>,
    /// How many channels come out.
    pub out_ch: usize,
    /// How many channels go in.
    pub in_ch: usize,
}

/// The weights of a convolution as mathematical values.
#[verifier::ext_equal]
pub struct Conv<S> {
    pub weight: Seq<S>,
    pub bias: Seq<S>,
    pub out_ch: int,
    pub in_ch: int,
}

impl<S> View for Conv1dW<S> {
    type V = Conv<S>;

    open spec fn view(&self) -> Conv<S> {
        Conv {
            weight: self.weight@,
            bias: self.bias@,
            out_ch: self.out_ch as int,
            in_ch: self.in_ch as int,
        }
    }
}

/// Value `p` of channel `ci`, counted from one: zero before the first value and after the last.
pub open spec fn tap<S: Scalar>(input: Seq<S>, in_len: int, ci: int, p: int) -> S {
    if 1 <= p <= in_len {
        input[ci * in_len + p - 1]
    } else {
        zero()
    }
}

/// The bias of output channel `co`, plus the first `n` input channels' products with the values at
/// `p`, `p + 1` and `p + 2`.
pub open spec fn conv_sum<S: Scalar>(
    e: Conv<S>,
    input: Seq<S>,
    in_ch: int,
    in_len: int,
    co: int,
    p: int,
    n: int,
) -> S
    decreases n,
{
    if n <= 0 {
        e.bias[co]
    } else {
        let ci = n - 1;
        let before = conv_sum(e, input, in_ch, in_len, co, p, n - 1);
        let w = (co * in_ch + ci) * 3;
        sum(
            sum(
                sum(before, product(e.weight[w], tap(input, in_len, ci, p))),
                product(e.weight[w + 1], tap(input, in_len, ci, p + 1)),
            ),
            product(e.weight[w + 2], tap(input, in_len, ci, p + 2)),
        )
    }
}

/// The convolution of `input`, cut off at zero: `ol` values for each output channel, one every
/// `stride` values.
pub open spec fn convolved<S: Scalar>(
    e: Conv<S>,
    input: Seq<S>,
    in_ch: int,
    in_len: int,
    stride: int,
    ol: int,
) -> Seq<S> {
    Seq::new(
        (e.out_ch * ol) as nat,
        |k: int|
            larger(conv_sum(e, input, in_ch, in_len, k / ol, k % ol * stride, in_ch), zero()),
    )
}

/// The sizes fit each other, and every window of three values lies inside the padded input.
pub open spec fn conv_fits<S: Scalar>(
    e: Conv<S>,
    input: Seq<S>,
    in_ch: int,
    in_len: int,
    stride: int,
    ol: int,
) -> bool {
    &&& input.len() >= in_ch * in_len
    &&& e.weight.len() >= e.out_ch * in_ch * 3
    &&& e.bias.len() >= e.out_ch
    &&& in_ch * (in_len + 2) <= usize::MAX
    &&& in_len + 2 <= usize::MAX
    &&& e.out_ch * ol <= usize::MAX
    &&& ol > 0 ==> (ol - 1) * stride + 3 <= in_len + 2
}

/// `input` with a zero before and after each channel's values.
fn padded_channels<S: Scalar>(input: &[S], in_ch: usize, in_len: usize) -> (r: Vec<S>)
    requires
        input@.len() >= in_ch * in_len,
        in_ch * (in_len + 2) <= usize::MAX,
        in_len + 2 <= usize::MAX,
    ensures
        r@.len() == in_ch * (in_len + 2),
        functional_ratio::<S>() ==> forall|k: int|
            0 <= k < r@.len() ==> #[trigger] r@[k] == tap(
                input@,
                in_len as int,
                k / (in_len + 2),
                k % (in_len + 2),
            ),
{
    let pl: usize = in_len + 2;
    let n: usize = in_ch * pl;
    let mut padded: Vec<S> = Vec::with_capacity(n);
    for k in 0..n
        invariant
            input.len() >= in_ch * in_len,
            pl == in_len + 2,
            n == in_ch * pl,
            padded@.len() == k,
            functional_ratio::<S>() ==> forall|i: int|
                0 <= i < k ==> #[trigger] padded@[i] == tap(
                    input@,
                    in_len as int,
                    i / (in_len + 2),
                    i % (in_len + 2),
                ),
    {
        proof {
            lemma_row_and_column(k as int, in_ch as int, pl as int);
        }
        let ci: usize = k / pl;
        let p: usize = k % pl;
        if 1 <= p && p <= in_len {
            proof {
                lemma_place(ci as int, p - 1, in_ch as int, in_len as int);
            }
            padded.push(input[ci * in_len + (p - 1)]);
        } else {
            padded.push(S::ratio(0, 1));
        }
    }
    padded
}

/// The operations that a convolution is computed with are functions.
pub open spec fn functional_conv<S: Scalar>() -> bool {
    &&& functional_ratio::<S>()
    &&& functional_plus::<S>()
    &&& functional_times::<S>()
    &&& functional_max::<S>()
}

/// Convolution with three taps over zero-padded input, cut off at zero.
pub fn conv1d_k3_pad1_relu<S: Scalar>(
    input: &[S],
    in_ch: usize,
    in_len: usize,
    e: &Conv1dW<S>,
    stride: usize,
    ol: usize,
) -> (r: Vec<S>)
    requires
        conv_fits(e@, input@, in_ch as int, in_len as int, stride as int, ol as int),
    ensures
        r@.len() == e.out_ch * ol,
        functional_conv::<S>() ==> r@ == convolved(
            e@,
            input@,
            in_ch as int,
            in_len as int,
            stride as int,
            ol as int,
        ),
{
    let pl: usize = in_len + 2;
    let padded = padded_channels(input, in_ch, in_len);
    let out_ch: usize = e.out_ch;
    let n: usize = out_ch * ol;
    let mut output: Vec<S> = Vec::with_capacity(n);
    let ghost expected = convolved(
        e@,
        input@,
        in_ch as int,
        in_len as int,
        stride as int,
        ol as int,
    );
    for k in 0..n
        invariant
            conv_fits(e@, input@, in_ch as int, in_len as int, stride as int, ol as int),
            pl == in_len + 2,
            out_ch == e.out_ch,
            n == out_ch * ol,
            padded@.len() == in_ch * pl,
            functional_conv::<S>() ==> forall|i: int|
                0 <= i < padded@.len() ==> #[trigger] padded@[i] == tap(
                    input@,
                    in_len as int,
                    i / (in_len + 2),
                    i % (in_len + 2),
                ),
            expected == convolved(
                e@,
                input@,
                in_ch as int,
                in_len as int,
                stride as int,
                ol as int,
            ),
            output@.len() == k,
            functional_conv::<S>() ==> forall|i: int|
                0 <= i < k ==> #[trigger] output@[i] == expected[i],
    {
        proof {
            lemma_row_and_column(k as int, out_ch as int, ol as int);
            lemma_mul_inequality((k % ol) as int, ol - 1, stride as int);
        }
        let co: usize = k / ol;
        let t: usize = k % ol;
        assert(t * stride + 3 <= pl);
        assert(0 <= t * stride) by (nonlinear_arith);
        let ps: usize = t * stride;
        let mut total = e.bias[co];
        for ci in 0..in_ch
            invariant
                conv_fits(e@, input@, in_ch as int, in_len as int, stride as int, ol as int),
                pl == in_len + 2,
                co < e.out_ch,
                ps + 3 <= pl,
                padded@.len() == in_ch * pl,
                functional_conv::<S>() ==> forall|i: int|
                    0 <= i < padded@.len() ==> #[trigger] padded@[i] == tap(
                        input@,
                        in_len as int,
                        i / (in_len + 2),
                        i % (in_len + 2),
                    ),
                functional_conv::<S>() ==> total == conv_sum(
                    e@,
                    input@,
                    in_ch as int,
                    in_len as int,
                    co as int,
                    ps as int,
                    ci as int,
                ),
        {
            proof {
                lemma_place(co as int, ci as int, e.out_ch as int, in_ch as int);
                lemma_place(ci as int, ps as int, in_ch as int, pl as int);
                lemma_place(ci as int, ps + 1, in_ch as int, pl as int);
                lemma_place(ci as int, ps + 2, in_ch as int, pl as int);
                assert(0 <= co * in_ch) by (nonlinear_arith);
            }
            assert((co * in_ch + ci) * 3 + 2 < e.weight.len());
            let wb: usize = (co * in_ch + ci) * 3;
            let xb: usize = ci * pl + ps;
            total = total.plus(e.weight[wb].times(padded[xb]));
            total = total.plus(e.weight[wb + 1].times(padded[xb + 1]));
            total = total.plus(e.weight[wb + 2].times(padded[xb + 2]));
        }
        output.push(total.max(S::ratio(0, 1)));
    }
    proof {
        if functional_conv::<S>() {
            assert(output@ =~= expected);
        }
    }
    output
}

} // verus!
