//! The inference engine.
//!
//! Short-time spectrum, four convolutions, one recurrent cell, and a linear layer with the logistic
//! function behind it. The weights come from a flat sequence of numbers.

use vstd::prelude::*;
use vstd::slice::slice_subrange;

use crate::layers::{
    conv1d_k3_pad1_relu, convolved, copied, functional_conv, functional_logistic,
    lemma_row_and_column, logistic, reflect_pad_right, reflected, repeated, sigmoid, Conv, Conv1dW,
};
use crate::pcm::{decode_floats, decoding_steps, floats_of};
use crate::scalar::{
    count_of, functional_from_bits, functional_from_count, functional_over, functional_plus,
    functional_ratio, functional_sqrt, functional_tanh, functional_times_plus, fused,
    hyperbolic_tangent, product, quotient, root, sum, zero, Scalar,
};
use crate::simd::{
    dot, dot_product, dot_relu, functional_dot, functional_relu, relu_product,
};
use crate::text::{too_small, too_small_text};

verus! {

/// Width of the recurrent state.
pub const H: usize = 128;

/// Rows of the recurrent cell's weights: four gates.
pub const GATES: usize = 512;

/// Samples of the previous window that are put before the next one.
pub const CONTEXT_16K: usize = 64;

/// Columns of the recurrent cell's weights: its input, then its state.
pub const COMBINED: usize = 256;

/// Number of PCM samples per inference window at 16 kHz.
pub const SAMPLES_PER_WINDOW: usize = 512;

/// Number of bytes per inference window, two for each sample.
pub const BYTES_PER_WINDOW: usize = SAMPLES_PER_WINDOW * 2;

/// How many numbers the weights take.
pub const WEIGHT_COUNT: usize = 309_633;

/// Where the first convolution's weights start, behind the spectrum's 258 rows of 256.
pub const E0_WEIGHT: usize = 66_048;

/// Where the first convolution's biases start.
pub const E0_BIAS: usize = 115_584;

/// Where the second convolution's weights start.
pub const E1_WEIGHT: usize = 115_712;

/// Where the second convolution's biases start.
pub const E1_BIAS: usize = 140_288;

/// Where the third convolution's weights start.
pub const E2_WEIGHT: usize = 140_352;

/// Where the third convolution's biases start.
pub const E2_BIAS: usize = 152_640;

/// Where the fourth convolution's weights start.
pub const E3_WEIGHT: usize = 152_704;

/// Where the fourth convolution's biases start.
pub const E3_BIAS: usize = 177_280;

/// Where the cell's weights for its input start.
pub const INPUT_WEIGHT: usize = 177_408;

/// Where the cell's weights for its state start.
pub const STATE_WEIGHT: usize = 242_944;

/// Where the cell's biases for its input start.
pub const INPUT_BIAS: usize = 308_480;

/// Where the cell's biases for its state start.
pub const STATE_BIAS: usize = 308_992;

/// Where the last layer's weights start.
pub const DEC_WEIGHT: usize = 309_504;

/// Where the last layer's bias is.
pub const DEC_BIAS: usize = 309_632;

/// What the engine remembers from window to window.
#[verifier::ext_equal]
pub struct Memory<S> {
    /// The recurrent cell's output.
    pub h: Seq<S>,
    /// The recurrent cell's inner state.
    pub c: Seq<S>,
    /// The last samples of the previous window.
    pub context: Seq<S>,
}

impl<S: Scalar> Memory<S> {
    /// The three parts have their sizes.
    pub open spec fn sized(self) -> bool {
        &&& self.h.len() == H
        &&& self.c.len() == H
        &&& self.context.len() == CONTEXT_16K
    }

    /// The memory that holds nothing but `z`.
    pub open spec fn filled(z: S) -> Memory<S> {
        Memory {
            h: Seq::new(H as nat, |i: int| z),
            c: Seq::new(H as nat, |i: int| z),
            context: Seq::new(CONTEXT_16K as nat, |i: int| z),
        }
    }

    /// The memory holds nothing but a zero.
    pub open spec fn zeroed(self) -> bool {
        exists|z: S| #[trigger]
            call_ensures(S::ratio, (0i32, 1i32), z) && self == Memory::filled(z)
    }

    /// The memory before the first window: all zeros.
    pub open spec fn blank() -> Memory<S> {
        Memory::filled(zero())
    }
}

/// The engine's memory, see [`Memory`].
pub struct InferState<S> {
    h: Vec<S>,
    c: Vec<S>,
    context: Vec<S>,
}

impl<S> View for InferState<S> {
    type V = Memory<S>;

    closed spec fn view(&self) -> Memory<S> {
        Memory { h: self.h@, c: self.c@, context: self.context@ }
    }
}

impl<S: Scalar> InferState<S> {
    /// A blank memory.
    pub fn new() -> (r: Self)
        ensures
            r@.sized(),
            r@.zeroed(),
            functional_ratio::<S>() ==> r@ == Memory::<S>::blank(),
    {
        let z = S::ratio(0, 1);
        let r = InferState {
            h: repeated(z, H),
            c: repeated(z, H),
            context: repeated(z, CONTEXT_16K),
        };
        assert(r@ =~= Memory::filled(z));
        r
    }

    /// Blanks the memory.
    pub fn reset(&mut self)
        ensures
            final(self)@.sized(),
            final(self)@.zeroed(),
            functional_ratio::<S>() ==> final(self)@ == Memory::<S>::blank(),
    {
        let z = S::ratio(0, 1);
        self.h = repeated(z, H);
        self.c = repeated(z, H);
        self.context = repeated(z, CONTEXT_16K);
        assert(self@ =~= Memory::filled(z));
    }
}

/// The engine's weights as mathematical values.
#[verifier::ext_equal]
pub struct Weights<S> {
    /// 129 rows of 256 for the real part of the spectrum, then 129 for the imaginary part.
    pub stft_basis: Seq<S>,
    /// The four convolutions.
    pub enc: Seq<Conv<S>>,
    /// For each gate row, 128 weights for the input and 128 for the state.
    pub lstm_w: Seq<S>,
    /// One number for each gate row.
    pub lstm_bias: Seq<S>,
    /// One weight for each value of the recurrent cell's output.
    pub dec_weight: Seq<S>,
    /// The number that the weighted sum starts from.
    pub dec_bias: S,
    /// The order in which dot products are summed.
    pub simd: bool,
}

/// Channels after the first `i` convolutions.
pub open spec fn channels_after(i: int) -> int {
    if i <= 0 {
        129
    } else if i == 1 {
        128
    } else if i <= 3 {
        64
    } else {
        128
    }
}

/// Values per channel after the first `i` convolutions of a window.
pub open spec fn length_after(i: int) -> int {
    if i <= 1 {
        4
    } else if i == 2 {
        2
    } else {
        1
    }
}

/// The step of convolution `i`.
pub open spec fn stride_of(i: int) -> int {
    if i == 1 || i == 2 {
        2
    } else {
        1
    }
}

impl<S: Scalar> Weights<S> {
    /// Every part has its size.
    pub open spec fn sized(self) -> bool {
        &&& self.stft_basis.len() == 258 * 256
        &&& self.enc.len() == 4
        &&& forall|i: int|
            0 <= i < 4 ==> {
                &&& (#[trigger] self.enc[i]).out_ch == channels_after(i + 1)
                &&& self.enc[i].in_ch == channels_after(i)
                &&& self.enc[i].weight.len() == channels_after(i + 1) * channels_after(i) * 3
                &&& self.enc[i].bias.len() == channels_after(i + 1)
            }
        &&& self.lstm_w.len() == 512 * 256
        &&& self.lstm_bias.len() == GATES
        &&& self.dec_weight.len() == H
    }

    /// The magnitude of frequency `f` in the 256 values from `128 * t` on.
    pub open spec fn magnitude(self, padded: Seq<S>, f: int, t: int) -> S {
        let x = padded.subrange(t * 128, t * 128 + 256);
        let re = dot_product(self.simd, self.stft_basis.subrange(f * 256, (f + 1) * 256), x);
        let im = dot_product(
            self.simd,
            self.stft_basis.subrange((f + 129) * 256, (f + 130) * 256),
            x,
        );
        root(fused(re, re, product(im, im)))
    }

    /// The magnitudes of all 129 frequencies at `out_len` times, frequency by frequency.
    pub open spec fn spectrum(self, padded: Seq<S>, out_len: int) -> Seq<S> {
        Seq::new(
            (129 * out_len) as nat,
            |k: int| self.magnitude(padded, k / out_len, k % out_len),
        )
    }

    /// The spectrum after the first `n` convolutions.
    pub open spec fn encoded(self, spectrum: Seq<S>, n: int) -> Seq<S>
        decreases n,
    {
        if n <= 0 {
            spectrum
        } else {
            let i = n - 1;
            convolved(
                self.enc[i],
                self.encoded(spectrum, i),
                channels_after(i),
                length_after(i),
                stride_of(i),
                length_after(n),
            )
        }
    }

    /// Gate row `g` for the cell's input followed by its output so far.
    pub open spec fn gate(self, xh: Seq<S>, g: int) -> S {
        sum(
            dot_product(self.simd, self.lstm_w.subrange(g * COMBINED, g * COMBINED + COMBINED), xh),
            self.lstm_bias[g],
        )
    }

    /// Value `i` of the cell's inner state after a step from inner state `c`.
    pub open spec fn next_c(self, xh: Seq<S>, c: Seq<S>, i: int) -> S {
        let input = logistic(self.gate(xh, i));
        let forget = logistic(self.gate(xh, H + i));
        let candidate = hyperbolic_tangent(self.gate(xh, 2 * H + i));
        sum(product(forget, c[i]), product(input, candidate))
    }

    /// Value `i` of the cell's output after a step from inner state `c`.
    pub open spec fn next_h(self, xh: Seq<S>, c: Seq<S>, i: int) -> S {
        let output = logistic(self.gate(xh, 3 * H + i));
        product(output, hyperbolic_tangent(self.next_c(xh, c, i)))
    }

    /// The memory after one step of the cell on `frame`.
    pub open spec fn stepped(self, m: Memory<S>, frame: Seq<S>) -> Memory<S> {
        Memory {
            h: Seq::new(H as nat, |i: int| self.next_h(frame + m.h, m.c, i)),
            c: Seq::new(H as nat, |i: int| self.next_c(frame + m.h, m.c, i)),
            context: m.context,
        }
    }

    /// The probability of speech that the cell's output `h` stands for.
    pub open spec fn probability(self, h: Seq<S>) -> S {
        logistic(sum(self.dec_bias, relu_product(self.simd, self.dec_weight, h)))
    }

    /// The value whose logistic is the confidence of a window.
    pub open spec fn logit(self, m: Memory<S>, samples: Seq<S>) -> S {
        let spectrum = self.spectrum(reflected(m.context + samples, 64), 4);
        let after = self.stepped(m, self.encoded(spectrum, 4));
        sum(self.dec_bias, relu_product(self.simd, self.dec_weight, after.h))
    }

    /// The memory after a window, and the confidence that it holds speech.
    pub open spec fn inferred(self, m: Memory<S>, samples: Seq<S>) -> (Memory<S>, S) {
        let input = m.context + samples;
        let spectrum = self.spectrum(reflected(input, 64), 4);
        let after = self.stepped(m, self.encoded(spectrum, 4));
        let memory = Memory {
            context: input.subrange(input.len() - CONTEXT_16K, input.len() as int),
            ..after
        };
        (memory, quotient(sum(zero(), self.probability(after.h)), count_of(1)))
    }
}

/// The confidence of a window is the logistic of its logit: the mean over the one step that a window
/// takes changes nothing, where adding to zero and dividing by one leave the logistic as it is. The
/// logit is computed from the cell's output, which the memory keeps.
pub proof fn law_confidence_is_the_logistic<S: Scalar>(
    w: Weights<S>,
    m: Memory<S>,
    samples: Seq<S>,
)
    requires
        forall|x: S| sum(zero(), #[trigger] logistic(x)) == logistic(x),
        forall|x: S| quotient(#[trigger] logistic(x), count_of(1)) == logistic(x),
    ensures
        w.inferred(m, samples).1 == logistic(w.logit(m, samples)),
        w.logit(m, samples) == sum(
            w.dec_bias,
            relu_product(w.simd, w.dec_weight, w.inferred(m, samples).0.h),
        ),
{
    let x = w.logit(m, samples);
    assert(sum(zero(), logistic(x)) == logistic(x));
    assert(quotient(logistic(x), count_of(1)) == logistic(x));
}

/// For each of the 512 gate rows, its 128 weights for the input and then its 128 for the state.
pub open spec fn interleaved<S>(input: Seq<S>, state: Seq<S>) -> Seq<S> {
    Seq::new(
        512 * 256,
        |k: int|
            if k % 256 < 128 {
                input[k / 256 * 128 + k % 256]
            } else {
                state[k / 256 * 128 + (k % 256 - 128)]
            },
    )
}

/// The convolution from `in_ch` to `out_ch` channels whose weights start at `weight` and whose
/// biases lie from `bias` up to `end`.
pub open spec fn conv_at<S>(
    floats: Seq<S>,
    weight: int,
    bias: int,
    end: int,
    out_ch: int,
    in_ch: int,
) -> Conv<S> {
    Conv {
        weight: floats.subrange(weight, bias),
        bias: floats.subrange(bias, end),
        out_ch,
        in_ch,
    }
}

/// The weights that a flat sequence of numbers holds, one part behind the other.
pub open spec fn laid_out<S: Scalar>(simd: bool, floats: Seq<S>) -> Weights<S> {
    let f = floats;
    let input_bias = f.subrange(INPUT_BIAS as int, STATE_BIAS as int);
    let state_bias = f.subrange(STATE_BIAS as int, DEC_WEIGHT as int);
    Weights {
        stft_basis: f.subrange(0, E0_WEIGHT as int),
        enc: seq![
            conv_at(f, E0_WEIGHT as int, E0_BIAS as int, E1_WEIGHT as int, 128, 129),
            conv_at(f, E1_WEIGHT as int, E1_BIAS as int, E2_WEIGHT as int, 64, 128),
            conv_at(f, E2_WEIGHT as int, E2_BIAS as int, E3_WEIGHT as int, 64, 64),
            conv_at(f, E3_WEIGHT as int, E3_BIAS as int, INPUT_WEIGHT as int, 128, 64),
        ],
        lstm_w: interleaved(
            f.subrange(INPUT_WEIGHT as int, STATE_WEIGHT as int),
            f.subrange(STATE_WEIGHT as int, INPUT_BIAS as int),
        ),
        lstm_bias: Seq::new(GATES as nat, |i: int| sum(input_bias[i], state_bias[i])),
        dec_weight: f.subrange(DEC_WEIGHT as int, DEC_BIAS as int),
        dec_bias: f[DEC_BIAS as int],
        simd,
    }
}

/// The weights are those that a flat sequence of numbers holds: every part is copied from it, and only
/// the bias of a gate row is computed, by adding two of the numbers.
pub open spec fn assembled<S: Scalar>(w: Weights<S>, simd: bool, floats: Seq<S>) -> bool {
    &&& w == (Weights { lstm_bias: w.lstm_bias, ..laid_out(simd, floats) })
    &&& w.lstm_bias.len() == GATES
    &&& forall|i: int|
        0 <= i < GATES ==> call_ensures(
            S::plus,
            (floats[INPUT_BIAS + i], floats[STATE_BIAS + i]),
            #[trigger] w.lstm_bias[i],
        )
}

/// The weights are those that numbers decoded from the bytes hold.
pub open spec fn assembled_from_bytes<S: Scalar>(
    w: Weights<S>,
    simd: bool,
    bytes: Seq<u8>,
) -> bool {
    exists|floats: Seq<S>| #[trigger]
        decoding_steps(bytes, floats) && assembled(w, simd, floats)
}

/// The input weights in gate rows that hold them and the state weights.
pub open spec fn input_rows<S>(rows: Seq<S>) -> Seq<S> {
    Seq::new(512 * 128, |k: int| rows[k / 128 * 256 + k % 128])
}

/// The state weights in gate rows that hold the input weights and them.
pub open spec fn state_rows<S>(rows: Seq<S>) -> Seq<S> {
    Seq::new(512 * 128, |k: int| rows[k / 128 * 256 + 128 + k % 128])
}

/// The weights take up exactly the first 309,633 numbers: the parts have their sizes, and one behind
/// the other, the cell's rows taken apart again, they are those numbers, without a gap or an overlap.
/// The two biases of each row are kept as their sum, so they are read from the numbers.
pub proof fn law_weights_fill_the_file<S: Scalar>(simd: bool, floats: Seq<S>)
    requires
        floats.len() >= WEIGHT_COUNT,
    ensures
        laid_out(simd, floats).sized(),
        ({
            let w = laid_out(simd, floats);
            floats.take(WEIGHT_COUNT as int) == w.stft_basis + w.enc[0].weight + w.enc[0].bias
                + w.enc[1].weight + w.enc[1].bias + w.enc[2].weight + w.enc[2].bias
                + w.enc[3].weight + w.enc[3].bias + input_rows(w.lstm_w) + state_rows(w.lstm_w)
                + floats.subrange(INPUT_BIAS as int, DEC_WEIGHT as int) + w.dec_weight
                + seq![w.dec_bias]
        }),
{
    let w = laid_out(simd, floats);
    let wih = floats.subrange(INPUT_WEIGHT as int, STATE_WEIGHT as int);
    let whh = floats.subrange(STATE_WEIGHT as int, INPUT_BIAS as int);
    assert(input_rows(w.lstm_w) =~= wih);
    assert(state_rows(w.lstm_w) =~= whh);
    assert(floats.take(WEIGHT_COUNT as int) =~= w.stft_basis + w.enc[0].weight + w.enc[0].bias
        + w.enc[1].weight + w.enc[1].bias + w.enc[2].weight + w.enc[2].bias + w.enc[3].weight
        + w.enc[3].bias + wih + whh + floats.subrange(INPUT_BIAS as int, DEC_WEIGHT as int)
        + w.dec_weight + seq![w.dec_bias]);
}

/// Numbers behind the first 309,633 are ignored.
pub proof fn law_surplus_numbers_are_ignored<S: Scalar>(simd: bool, floats: Seq<S>)
    requires
        floats.len() >= WEIGHT_COUNT,
    ensures
        laid_out(simd, floats) == laid_out(simd, floats.take(WEIGHT_COUNT as int)),
{
    let f = floats;
    let g = floats.take(WEIGHT_COUNT as int);
    assert forall|i: int, j: int| 0 <= i <= j <= WEIGHT_COUNT implies #[trigger] f.subrange(i, j)
        == g.subrange(i, j) by {
        assert(f.subrange(i, j) =~= g.subrange(i, j));
    }
    assert(laid_out(simd, f).lstm_bias =~= laid_out(simd, g).lstm_bias);
    assert(laid_out(simd, f).enc =~= laid_out(simd, g).enc);
    assert(laid_out(simd, f) =~= laid_out(simd, g));
}

/// The engine: its weights, see [`Weights`].
pub struct Engine<S> {
    stft_basis: Vec<S>,
    enc: [Conv1dW<S>; 4],
    lstm_w: Vec<S>,
    lstm_bias: Vec<S>,
    dec_weight: Vec<S>,
    dec_bias: S,
    simd: bool,
}

impl<S> View for Engine<S> {
    type V = Weights<S>;

    closed spec fn view(&self) -> Weights<S> {
        Weights {
            stft_basis: self.stft_basis@,
            enc: self.enc@.map_values(|e: Conv1dW<S>| e@),
            lstm_w: self.lstm_w@,
            lstm_bias: self.lstm_bias@,
            dec_weight: self.dec_weight@,
            dec_bias: self.dec_bias,
            simd: self.simd,
        }
    }
}

/// The operations that a spectrum is computed with are functions.
pub open spec fn functional_spectrum<S: Scalar>(simd: bool) -> bool {
    &&& functional_dot::<S>(simd)
    &&& functional_times_plus::<S>()
    &&& functional_sqrt::<S>()
}

/// The operations that a step of the recurrent cell is computed with are functions.
pub open spec fn functional_cell<S: Scalar>(simd: bool) -> bool {
    &&& functional_dot::<S>(simd)
    &&& functional_logistic::<S>()
    &&& functional_tanh::<S>()
}

/// The operations that a confidence is computed with are functions.
pub open spec fn functional_inference<S: Scalar>(simd: bool) -> bool {
    &&& functional_spectrum::<S>(simd)
    &&& functional_conv::<S>()
    &&& functional_cell::<S>(simd)
    &&& functional_relu::<S>(simd)
    &&& functional_over::<S>()
    &&& functional_from_count::<S>()
}

impl<S: Scalar> Engine<S> {
    /// The engine whose weights a little-endian sequence of single-precision numbers holds; `simd`
    /// says that the machine has eight-lane fused multiply-add.
    pub fn from_bytes(data: &[u8], simd: bool) -> (r: Result<Self, String>)
        ensures
            match r {
                Ok(engine) => {
                    &&& data@.len() / 4 >= WEIGHT_COUNT
                    &&& engine@.sized()
                    &&& assembled_from_bytes(engine@, simd, data@)
                    &&& functional_from_bits::<S>() ==> assembled(
                        engine@,
                        simd,
                        floats_of::<S>(data@),
                    )
                    &&& functional_from_bits::<S>() && functional_plus::<S>() ==> engine@ == laid_out(
                        simd,
                        floats_of::<S>(data@),
                    )
                },
                Err(text) => {
                    &&& data@.len() / 4 < WEIGHT_COUNT
                    &&& text@ == too_small_text(data@.len() / 4)
                },
            },
    {
        let floats: Vec<S> = decode_floats(data);
        if floats.len() < WEIGHT_COUNT {
            return Err(too_small(floats.len()));
        }
        let engine = Engine::from_floats(floats.as_slice(), simd);
        assert(decoding_steps(data@, floats@) && assembled(engine@, simd, floats@));
        Ok(engine)
    }

    /// The engine with the weights that `floats` holds.
    pub fn from_floats(floats: &[S], simd: bool) -> (r: Self)
        requires
            floats@.len() >= WEIGHT_COUNT,
        ensures
            r@.sized(),
            assembled(r@, simd, floats@),
            functional_plus::<S>() ==> r@ == laid_out(simd, floats@),
    {
        let e0 = Conv1dW {
            weight: copied(floats, E0_WEIGHT, E0_BIAS),
            bias: copied(floats, E0_BIAS, E1_WEIGHT),
            out_ch: 128,
            in_ch: 129,
        };
        let e1 = Conv1dW {
            weight: copied(floats, E1_WEIGHT, E1_BIAS),
            bias: copied(floats, E1_BIAS, E2_WEIGHT),
            out_ch: 64,
            in_ch: 128,
        };
        let e2 = Conv1dW {
            weight: copied(floats, E2_WEIGHT, E2_BIAS),
            bias: copied(floats, E2_BIAS, E3_WEIGHT),
            out_ch: 64,
            in_ch: 64,
        };
        let e3 = Conv1dW {
            weight: copied(floats, E3_WEIGHT, E3_BIAS),
            bias: copied(floats, E3_BIAS, INPUT_WEIGHT),
            out_ch: 128,
            in_ch: 64,
        };
        let ghost f = floats@;
        let ghost convs = laid_out(simd, f).enc;
        assert(convs[0] =~= e0@ && convs[1] =~= e1@ && convs[2] =~= e2@ && convs[3] =~= e3@);

        let mut bias: Vec<S> = Vec::with_capacity(GATES);
        for i in 0..GATES
            invariant
                floats@.len() >= WEIGHT_COUNT,
                f == floats@,
                bias@.len() == i,
                forall|k: int|
                    0 <= k < i ==> call_ensures(
                        S::plus,
                        (f[INPUT_BIAS + k], f[STATE_BIAS + k]),
                        #[trigger] bias@[k],
                    ),
                functional_plus::<S>() ==> forall|k: int|
                    0 <= k < i ==> #[trigger] bias@[k] == sum(f[INPUT_BIAS + k], f[STATE_BIAS + k]),
        {
            bias.push(floats[INPUT_BIAS + i].plus(floats[STATE_BIAS + i]));
        }

        let ghost wih = f.subrange(INPUT_WEIGHT as int, STATE_WEIGHT as int);
        let ghost whh = f.subrange(STATE_WEIGHT as int, INPUT_BIAS as int);
        let mut lstm_w: Vec<S> = Vec::with_capacity(512 * 256);
        for k in 0..131072usize
            invariant
                floats@.len() >= WEIGHT_COUNT,
                f == floats@,
                wih == f.subrange(INPUT_WEIGHT as int, STATE_WEIGHT as int),
                whh == f.subrange(STATE_WEIGHT as int, INPUT_BIAS as int),
                lstm_w@.len() == k,
                forall|i: int| 0 <= i < k ==> #[trigger] lstm_w@[i] == interleaved(wih, whh)[i],
        {
            let g: usize = k / COMBINED;
            let j: usize = k % COMBINED;
            if j < H {
                lstm_w.push(floats[INPUT_WEIGHT + g * H + j]);
            } else {
                lstm_w.push(floats[STATE_WEIGHT + g * H + (j - H)]);
            }
        }

        let r = Engine {
            stft_basis: copied(floats, 0, E0_WEIGHT),
            enc: [e0, e1, e2, e3],
            lstm_w,
            lstm_bias: bias,
            dec_weight: copied(floats, DEC_WEIGHT, DEC_BIAS),
            dec_bias: floats[DEC_BIAS],
            simd,
        };
        proof {
            assert(r@.enc =~= convs);
            assert(r@.lstm_w =~= interleaved(wih, whh));
            assert(r@ =~= (Weights { lstm_bias: r@.lstm_bias, ..laid_out(simd, f) }));
            if functional_plus::<S>() {
                assert(r@.lstm_bias =~= laid_out(simd, f).lstm_bias);
                assert(r@ =~= laid_out(simd, f));
            }
        }
        r
    }

    /// The confidence that a window of 512 samples holds speech; the memory moves on by the window.
    pub fn infer(&self, samples: &[S], st: &mut InferState<S>) -> (r: S)
        requires
            self@.sized(),
            samples@.len() == SAMPLES_PER_WINDOW,
            old(st)@.sized(),
        ensures
            final(st)@.sized(),
            final(st)@.context == samples@.subrange(
                SAMPLES_PER_WINDOW - CONTEXT_16K,
                SAMPLES_PER_WINDOW as int,
            ),
            functional_inference::<S>(self@.simd) ==> (final(st)@, r) == self@.inferred(
                old(st)@,
                samples@,
            ),
    {
        let ghost m = st@;
        let mut input: Vec<S> = copied(st.context.as_slice(), 0, CONTEXT_16K);
        for i in 0..SAMPLES_PER_WINDOW
            invariant
                samples@.len() == SAMPLES_PER_WINDOW,
                m.context.len() == CONTEXT_16K,
                input@ == (m.context + samples@).take(CONTEXT_16K + i),
        {
            input.push(samples[i]);
            assert((m.context + samples@).take(CONTEXT_16K + i + 1) =~= (m.context + samples@).take(
                CONTEXT_16K + i,
            ).push(samples@[i as int]));
        }
        assert(input@ =~= m.context + samples@);
        st.context = copied(input.as_slice(), input.len() - CONTEXT_16K, input.len());
        assert(st.context@ =~= samples@.subrange(
            SAMPLES_PER_WINDOW - CONTEXT_16K,
            SAMPLES_PER_WINDOW as int,
        ));

        let padded = reflect_pad_right(input.as_slice(), 64);
        let stft_len: usize = (padded.len() - 256) / 128 + 1;
        let mut x = self.stft_magnitude(padded.as_slice(), stft_len);
        let ghost spectrum = x@;

        let strides: [usize; 4] = [1, 2, 2, 1];
        let mut ch: usize = 129;
        let mut len: usize = stft_len;
        for i in 0..4usize
            invariant
                self@.sized(),
                strides@ == seq![1usize, 2, 2, 1],
                ch == channels_after(i as int),
                len == length_after(i as int),
                x@.len() == ch * len,
                functional_inference::<S>(self@.simd) ==> x@ == self@.encoded(spectrum, i as int),
        {
            let stride: usize = strides[i];
            let new_len: usize = (len + 2 - 3) / stride + 1;
            proof {
                assert(stride == stride_of(i as int));
                assert(3int / 1 == 3 && 3int / 2 == 1 && 1int / 2 == 0 && 0int / 1 == 0);
                assert(i == 0 || i == 1 || i == 2 || i == 3);
                assert(new_len == length_after(i + 1));
            }
            let e = &self.enc[i];
            assert(self@.enc[i as int] == e@);
            x = conv1d_k3_pad1_relu(x.as_slice(), ch, len, e, stride, new_len);
            ch = e.out_ch;
            len = new_len;
        }

        let frame = x;
        self.lstm_cell(frame.as_slice(), &mut st.h, &mut st.c);
        let logit = self.dec_bias.plus(
            dot_relu(self.dec_weight.as_slice(), st.h.as_slice(), self.simd),
        );
        let prob_sum = S::ratio(0, 1).plus(sigmoid(logit));
        proof {
            if functional_inference::<S>(self@.simd) {
                assert(st@ =~= self@.inferred(m, samples@).0);
            }
        }
        prob_sum.over(S::from_count(len))
    }

    /// The magnitudes of all frequencies at `out_len` times.
    fn stft_magnitude(&self, padded: &[S], out_len: usize) -> (r: Vec<S>)
        requires
            self@.sized(),
            129 * out_len <= usize::MAX,
            out_len > 0 ==> padded@.len() >= (out_len - 1) * 128 + 256,
        ensures
            r@.len() == 129 * out_len,
            functional_spectrum::<S>(self@.simd) ==> r@ == self@.spectrum(padded@, out_len as int),
    {
        let n: usize = 129 * out_len;
        let mut mag: Vec<S> = Vec::with_capacity(n);
        for k in 0..n
            invariant
                self@.sized(),
                n == 129 * out_len,
                out_len > 0 ==> padded.len() >= (out_len - 1) * 128 + 256,
                mag@.len() == k,
                functional_spectrum::<S>(self@.simd) ==> forall|i: int|
                    0 <= i < k ==> #[trigger] mag@[i] == self@.magnitude(
                        padded@,
                        i / out_len as int,
                        i % out_len as int,
                    ),
        {
            proof {
                lemma_row_and_column(k as int, 129, out_len as int);
            }
            let f: usize = k / out_len;
            let t: usize = k % out_len;
            let x_off: usize = t * 128;
            let x = slice_subrange(padded, x_off, x_off + 256);
            let basis = self.stft_basis.as_slice();
            let re = dot(slice_subrange(basis, f * 256, (f + 1) * 256), x, self.simd);
            let im = dot(slice_subrange(basis, (f + 129) * 256, (f + 130) * 256), x, self.simd);
            mag.push(re.times_plus(re, im.times(im)).sqrt());
        }
        proof {
            if functional_spectrum::<S>(self@.simd) {
                assert(mag@ =~= self@.spectrum(padded@, out_len as int));
            }
        }
        mag
    }

    /// One step of the recurrent cell.
    fn lstm_cell(&self, input: &[S], h: &mut Vec<S>, c: &mut Vec<S>)
        requires
            self@.sized(),
            input@.len() == H,
            old(h)@.len() == H,
            old(c)@.len() == H,
        ensures
            final(h)@.len() == H,
            final(c)@.len() == H,
            functional_cell::<S>(self@.simd) ==> {
                &&& final(h)@ == Seq::new(
                    H as nat,
                    |i: int| self@.next_h(input@ + old(h)@, old(c)@, i),
                )
                &&& final(c)@ == Seq::new(
                    H as nat,
                    |i: int| self@.next_c(input@ + old(h)@, old(c)@, i),
                )
            },
    {
        let ghost xh0 = input@ + h@;
        let ghost c0 = c@;
        let mut xh: Vec<S> = copied(input, 0, H);
        for i in 0..H
            invariant
                input@.len() == H,
                h@.len() == H,
                xh@ == (input@ + h@).take(H + i),
        {
            xh.push(h[i]);
            assert((input@ + h@).take(H + i + 1) =~= (input@ + h@).take(H + i).push(h@[i as int]));
        }
        assert(xh@ =~= xh0);

        let mut gates: Vec<S> = Vec::with_capacity(GATES);
        for g in 0..GATES
            invariant
                self@.sized(),
                xh@ == xh0,
                xh@.len() == COMBINED,
                gates@.len() == g,
                functional_cell::<S>(self@.simd) ==> forall|i: int|
                    0 <= i < g ==> #[trigger] gates@[i] == self@.gate(xh0, i),
        {
            let row = g * COMBINED;
            let w = slice_subrange(self.lstm_w.as_slice(), row, row + COMBINED);
            gates.push(dot(w, xh.as_slice(), self.simd).plus(self.lstm_bias[g]));
        }

        for i in 0..H
            invariant
                gates@.len() == GATES,
                functional_cell::<S>(self@.simd) ==> forall|g: int|
                    0 <= g < GATES ==> #[trigger] gates@[g] == self@.gate(xh0, g),
                h@.len() == H,
                c@.len() == H,
                functional_cell::<S>(self@.simd) ==> forall|k: int|
                    0 <= k < i ==> #[trigger] h@[k] == self@.next_h(xh0, c0, k),
                functional_cell::<S>(self@.simd) ==> forall|k: int|
                    0 <= k < i ==> #[trigger] c@[k] == self@.next_c(xh0, c0, k),
                forall|k: int| i <= k < H ==> #[trigger] c@[k] == c0[k],
        {
            let ig = sigmoid(gates[i]);
            let fg = sigmoid(gates[H + i]);
            let gg = gates[2 * H + i].tanh();
            let og = sigmoid(gates[3 * H + i]);
            c[i] = fg.times(c[i]).plus(ig.times(gg));
            h[i] = og.times(c[i].tanh());
        }
        proof {
            if functional_cell::<S>(self@.simd) {
                assert(h@ =~= Seq::new(H as nat, |i: int| self@.next_h(xh0, c0, i)));
                assert(c@ =~= Seq::new(H as nat, |i: int| self@.next_c(xh0, c0, i)));
            }
        }
    }
}

} // verus!
