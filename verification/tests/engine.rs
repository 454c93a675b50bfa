use rustvani_vad::engine::{Engine, InferState, WEIGHT_COUNT};
use rustvani_vad::layers::{conv1d_k3_pad1_relu, copied, reflect_pad_right, repeated, sigmoid, Conv1dW};
use rustvani_vad::pcm::{decode_floats, decode_samples, decode_scaled};
use rustvani_vad::simd::{dot, dot_relu};
use rustvani_vad::text::{append_decimal, too_small, wrong_length};
use rustvani_vad::{
    Scalar, SileroVad, StateMachine, VadParams, VadState, Wide, BYTES_PER_WINDOW,
    SAMPLES_PER_WINDOW,
};

#[derive(Clone, Copy, Debug, PartialEq)]
struct Float(f32);

impl Scalar for Float {
    fn ratio(num: i32, den: i32) -> Self {
        Float(num as f32 / den as f32)
    }
    fn from_bits(bits: u32) -> Self {
        Float(f32::from_bits(bits))
    }
    fn from_sample(sample: i16) -> Self {
        Float(sample as f32)
    }
    fn from_count(count: usize) -> Self {
        Float(count as f32)
    }
    fn to_count(self) -> usize {
        self.0.round() as usize
    }
    fn plus(self, other: Self) -> Self {
        Float(self.0 + other.0)
    }
    fn minus(self, other: Self) -> Self {
        Float(self.0 - other.0)
    }
    fn times(self, other: Self) -> Self {
        Float(self.0 * other.0)
    }
    fn over(self, other: Self) -> Self {
        Float(self.0 / other.0)
    }
    fn times_plus(self, factor: Self, addend: Self) -> Self {
        Float(self.0.mul_add(factor.0, addend.0))
    }
    fn max(self, other: Self) -> Self {
        Float(self.0.max(other.0))
    }
    fn neg(self) -> Self {
        Float(-self.0)
    }
    fn sqrt(self) -> Self {
        Float(self.0.sqrt())
    }
    fn exp(self) -> Self {
        Float(self.0.exp())
    }
    fn tanh(self) -> Self {
        Float(self.0.tanh())
    }
    fn log10(self) -> Self {
        Float(self.0.log10())
    }
    fn below(self, other: Self) -> bool {
        self.0 < other.0
    }
    fn at_least(self, other: Self) -> bool {
        self.0 >= other.0
    }
}

#[derive(Clone, Copy, Debug, PartialEq)]
struct Double(f64);

impl Wide<Float> for Double {
    fn zero() -> Self {
        Double(0.0)
    }
    fn from_sample(sample: i16) -> Self {
        Double(sample as f64)
    }
    fn from_count(count: usize) -> Self {
        Double(count as f64)
    }
    fn plus(self, other: Self) -> Self {
        Double(self.0 + other.0)
    }
    fn times(self, other: Self) -> Self {
        Double(self.0 * other.0)
    }
    fn over(self, other: Self) -> Self {
        Double(self.0 / other.0)
    }
    fn sqrt(self) -> Self {
        Double(self.0.sqrt())
    }
    fn narrow(self) -> Float {
        Float(self.0 as f32)
    }
}

fn floats(values: &[f32]) -> Vec<Float> {
    values.iter().map(|&v| Float(v)).collect()
}

/// A reproducible series of small numbers, positive and negative.
fn series(seed: u32, n: usize, scale: f32) -> Vec<f32> {
    let mut x = seed;
    (0..n)
        .map(|_| {
            x = x.wrapping_mul(1664525).wrapping_add(1013904223);
            ((x >> 8) as f32 / 16777216.0 - 0.5) * scale
        })
        .collect()
}

// Dot products, written out with plain floating-point loops.

fn plain_dot(simd: bool, a: &[f32], b: &[f32]) -> f32 {
    let n = a.len();
    if !simd {
        let mut s = [0.0f32; 4];
        for i in 0..n / 4 {
            for k in 0..4 {
                s[k] += a[4 * i + k] * b[4 * i + k];
            }
        }
        for i in n / 4 * 4..n {
            s[0] += a[i] * b[i];
        }
        return s[0] + s[1] + s[2] + s[3];
    }
    let mut acc = [[0.0f32; 8]; 4];
    for i in 0..n / 32 {
        for r in 0..4 {
            for l in 0..8 {
                let j = 32 * i + 8 * r + l;
                acc[r][l] = a[j].mul_add(b[j], acc[r][l]);
            }
        }
    }
    let done = n / 32 * 32;
    for i in 0..(n - done) / 8 {
        for l in 0..8 {
            let j = done + 8 * i + l;
            acc[0][l] = a[j].mul_add(b[j], acc[0][l]);
        }
    }
    let mut v = [0.0f32; 8];
    for l in 0..8 {
        v[l] = (acc[0][l] + acc[1][l]) + (acc[2][l] + acc[3][l]);
    }
    let mut total = plain_fold(&v);
    for i in n / 8 * 8..n {
        total += a[i] * b[i];
    }
    total
}

fn plain_fold(v: &[f32; 8]) -> f32 {
    let s = [v[0] + v[4], v[1] + v[5], v[2] + v[6], v[3] + v[7]];
    (s[0] + s[1]) + (s[2] + s[3])
}

fn plain_dot_relu(simd: bool, a: &[f32], b: &[f32]) -> f32 {
    let n = a.len();
    let mut total = 0.0f32;
    let mut from = 0;
    if simd {
        let mut v = [0.0f32; 8];
        for i in 0..n / 8 {
            for l in 0..8 {
                let x = b[8 * i + l];
                v[l] = a[8 * i + l].mul_add(if x > 0.0 { x } else { 0.0 }, v[l]);
            }
        }
        total = plain_fold(&v);
        from = n / 8 * 8;
    }
    for i in from..n {
        total += a[i] * b[i].max(0.0);
    }
    total
}

// The network, written out with plain floating-point loops over the flat sequence of weights.

struct Plain {
    simd: bool,
    w: Vec<f32>,
    h: Vec<f32>,
    c: Vec<f32>,
    context: Vec<f32>,
}

fn plain_sigmoid(x: f32) -> f32 {
    1.0 / (1.0 + (-x).exp())
}

impl Plain {
    fn new(simd: bool, w: &[f32]) -> Plain {
        Plain {
            simd,
            w: w.to_vec(),
            h: vec![0.0; 128],
            c: vec![0.0; 128],
            context: vec![0.0; 64],
        }
    }

    fn conv(&self, at: usize, x: &[f32], in_ch: usize, len: usize, out_ch: usize, stride: usize) -> Vec<f32> {
        let ol = (len - 1) / stride + 1;
        let bias = at + out_ch * in_ch * 3;
        let mut out = Vec::new();
        for co in 0..out_ch {
            for t in 0..ol {
                let mut total = self.w[bias + co];
                for ci in 0..in_ch {
                    for k in 0..3 {
                        let p = t * stride + k;
                        let v = if p == 0 || p == len + 1 { 0.0 } else { x[ci * len + p - 1] };
                        total += self.w[at + (co * in_ch + ci) * 3 + k] * v;
                    }
                }
                out.push(total.max(0.0));
            }
        }
        out
    }

    fn infer(&mut self, samples: &[f32]) -> f32 {
        let mut input = self.context.clone();
        input.extend_from_slice(samples);
        self.context = input[512..].to_vec();
        for i in 0..64 {
            input.push(input[574 - i]);
        }
        let mut mag = vec![0.0f32; 129 * 4];
        for t in 0..4 {
            let x = &input[128 * t..128 * t + 256];
            for f in 0..129 {
                let re = plain_dot(self.simd, &self.w[f * 256..f * 256 + 256], x);
                let im = plain_dot(self.simd, &self.w[(f + 129) * 256..(f + 130) * 256], x);
                mag[f * 4 + t] = re.mul_add(re, im * im).sqrt();
            }
        }
        let x = self.conv(66048, &mag, 129, 4, 128, 1);
        let x = self.conv(115712, &x, 128, 4, 64, 2);
        let x = self.conv(140352, &x, 64, 2, 64, 2);
        let x = self.conv(152704, &x, 64, 1, 128, 1);
        assert_eq!(x.len(), 128);

        let mut xh = x;
        xh.extend_from_slice(&self.h);
        let mut gates = Vec::new();
        for g in 0..512 {
            let mut row = self.w[177408 + g * 128..177408 + g * 128 + 128].to_vec();
            row.extend_from_slice(&self.w[242944 + g * 128..242944 + g * 128 + 128]);
            let bias = self.w[308480 + g] + self.w[308992 + g];
            gates.push(plain_dot(self.simd, &row, &xh) + bias);
        }
        for i in 0..128 {
            let ig = plain_sigmoid(gates[i]);
            let fg = plain_sigmoid(gates[128 + i]);
            let gg = gates[256 + i].tanh();
            let og = plain_sigmoid(gates[384 + i]);
            self.c[i] = fg * self.c[i] + ig * gg;
            self.h[i] = og * self.c[i].tanh();
        }
        let logit = self.w[309632] + plain_dot_relu(self.simd, &self.w[309504..309632], &self.h);
        (0.0 + plain_sigmoid(logit)) / 1.0
    }
}

fn weights() -> Vec<f32> {
    series(7, WEIGHT_COUNT, 0.25)
}

fn bytes_of(values: &[f32]) -> Vec<u8> {
    values.iter().flat_map(|v| v.to_le_bytes()).collect()
}

fn window(seed: u32) -> Vec<u8> {
    series(seed, SAMPLES_PER_WINDOW, 40000.0)
        .iter()
        .flat_map(|&v| (v as i16).to_le_bytes())
        .collect()
}

fn plain_samples(bytes: &[u8]) -> Vec<f32> {
    bytes
        .chunks_exact(2)
        .map(|b| i16::from_le_bytes([b[0], b[1]]) as f32 / 32768.0)
        .collect()
}

#[test]
fn dot_of_whole_numbers() {
    for n in [0usize, 1, 3, 4, 5, 7, 8, 9, 15, 16, 31, 32, 33, 40, 47, 64, 71, 256] {
        let a: Vec<Float> = (0..n).map(|i| Float((i % 7) as f32 - 3.0)).collect();
        let b: Vec<Float> = (0..n).map(|i| Float((i % 5) as f32 - 1.0)).collect();
        let mut expected = 0.0;
        for i in 0..n {
            expected += a[i].0 * b[i].0;
        }
        assert_eq!(dot(&a, &b, false), Float(expected));
        assert_eq!(dot(&a, &b, true), Float(expected));
    }
    assert_eq!(dot(&floats(&[1.0, 2.0, 3.0]), &floats(&[4.0, 5.0, 6.0]), false), Float(32.0));
}

/// Whole numbers, and the products' sizes add up to exactly 2^24.
fn whole_numbers(n: usize) -> (Vec<f32>, Vec<f32>) {
    let mut a: Vec<f32> = (0..n).map(|i| (i * 37 % 101) as f32 - 50.0).collect();
    let mut b: Vec<f32> = (0..n).map(|i| (i * 53 % 71) as f32 - 35.0).collect();
    let used: f64 = a.iter().zip(&b).map(|(x, y)| (x * y).abs() as f64).sum();
    let left = 16777216.0 - used;
    assert!(left > 0.0);
    let at = n / 2;
    a.insert(at, -1.0);
    b.insert(at, left as f32);
    (a, b)
}

#[test]
fn dot_of_whole_numbers_is_exact_up_to_its_limit() {
    for n in 0..140usize {
        let (a, b) = whole_numbers(n);
        let exact: f64 = a.iter().zip(&b).map(|(&x, &y)| x as f64 * y as f64).sum();
        for simd in [false, true] {
            let got = dot(&floats(&a), &floats(&b), simd).0;
            assert_eq!(got.to_bits(), (exact as f32).to_bits());
        }
        let cut: f64 = a.iter().zip(&b).map(|(&x, &y)| x as f64 * (y as f64).max(0.0)).sum();
        for simd in [false, true] {
            let got = dot_relu(&floats(&a), &floats(&b), simd).0;
            assert_eq!(got as f64, cut);
        }
    }
    // Zeros of either sign stand for zero.
    for simd in [false, true] {
        let got = dot(&floats(&[-0.0; 45]), &floats(&[3.0; 45]), simd).0;
        assert_eq!(got.to_bits(), 0.0f32.to_bits());
        let got = dot_relu(&floats(&[2.0; 45]), &floats(&[-0.0; 45]), simd).0;
        assert_eq!(got.to_bits(), 0.0f32.to_bits());
    }
}

#[test]
fn a_mean_over_one_step_changes_nothing() {
    for x in series(21, 500, 60.0) {
        let p = sigmoid(Float(x));
        let mean = Float(0.0).plus(p).over(Float::from_count(1));
        assert_eq!(mean.0.to_bits(), p.0.to_bits());
        assert!((0.0..=1.0).contains(&p.0));
    }
    assert!(sigmoid(Float(f32::NAN)).0.is_nan());
}

#[test]
fn dot_adds_in_its_order() {
    for n in [1usize, 6, 12, 29, 45, 77, 130, 256] {
        let a = series(3, n, 2.0);
        let b = series(11, n + 2, 3.0);
        for simd in [false, true] {
            let got = dot(&floats(&a), &floats(&b), simd).0;
            assert_eq!(got.to_bits(), plain_dot(simd, &a, &b).to_bits());
        }
    }
}

#[test]
fn dot_keeps_the_order_where_it_shows() {
    // 1e8 + 1 is 1e8 in single precision, so the order decides what is left.
    let a = floats(&[1e8, 1.0, -1e8, 1.0]);
    let b = floats(&[1.0, 1.0, 1.0, 1.0]);
    assert_eq!(dot(&a, &b, false), Float(1.0));
    let a = floats(&[1e8, -1e8, 1.0, 1.0]);
    assert_eq!(dot(&a, &b, false), Float(2.0));
}

#[test]
fn dot_relu_cuts_off_negative_values() {
    let a = floats(&[1.0, 2.0, 3.0, 4.0, 5.0, 6.0, 7.0, 8.0, 9.0]);
    let b = floats(&[1.0, -1.0, 2.0, -2.0, 0.0, 1.0, -5.0, 1.0, 2.0]);
    assert_eq!(dot_relu(&a, &b, false), Float(1.0 + 6.0 + 6.0 + 8.0 + 18.0));
    assert_eq!(dot_relu(&a, &b, true), Float(1.0 + 6.0 + 6.0 + 8.0 + 18.0));
    for n in [1usize, 7, 8, 20, 128] {
        let a = series(5, n, 2.0);
        let b = series(9, n, 2.0);
        for simd in [false, true] {
            let got = dot_relu(&floats(&a), &floats(&b), simd).0;
            assert_eq!(got.to_bits(), plain_dot_relu(simd, &a, &b).to_bits());
        }
    }
}

#[test]
fn reflection() {
    assert_eq!(reflect_pad_right(&[1, 2, 3, 4], 2), vec![1, 2, 3, 4, 3, 2]);
    assert_eq!(reflect_pad_right(&[1, 2, 3, 4], 3), vec![1, 2, 3, 4, 3, 2, 1]);
    assert_eq!(reflect_pad_right(&[1, 2], 0), vec![1, 2]);
    let none: Vec<i32> = vec![];
    assert_eq!(reflect_pad_right(&none, 0), none);
}

#[test]
fn copies_and_repeats() {
    assert_eq!(copied(&[1, 2, 3, 4], 1, 3), vec![2, 3]);
    assert_eq!(repeated(7, 3), vec![7, 7, 7]);
}

#[test]
fn sigmoid_values() {
    assert_eq!(sigmoid(Float(0.0)), Float(0.5));
    assert_eq!(sigmoid(Float(2.0)), Float(1.0 / (1.0 + (-2.0f32).exp())));
    assert_eq!(sigmoid(Float(-200.0)), Float(0.0));
    assert_eq!(sigmoid(Float(200.0)), Float(1.0));
}

#[test]
fn convolution_by_hand() {
    // One input channel, two output channels; the second is cut off at zero.
    let e = Conv1dW {
        weight: floats(&[1.0, 10.0, 100.0, -1.0, -1.0, -1.0]),
        bias: floats(&[0.5, 1.0]),
        out_ch: 2,
        in_ch: 1,
    };
    let x = floats(&[1.0, 2.0, 3.0, 4.0]);
    let y = conv1d_k3_pad1_relu(&x, 1, 4, &e, 1, 4);
    assert_eq!(y, floats(&[210.5, 321.5, 432.5, 43.5, 0.0, 0.0, 0.0, 0.0]));
    let y = conv1d_k3_pad1_relu(&x, 1, 4, &e, 2, 2);
    assert_eq!(y, floats(&[210.5, 432.5, 0.0, 0.0]));
}

#[test]
fn convolution_over_two_channels() {
    let e = Conv1dW {
        weight: floats(&[1.0, 2.0, 3.0, 4.0, 5.0, 6.0]),
        bias: floats(&[0.0]),
        out_ch: 1,
        in_ch: 2,
    };
    let x = floats(&[1.0, 1.0, 10.0, 10.0]);
    let y = conv1d_k3_pad1_relu(&x, 2, 2, &e, 1, 2);
    assert_eq!(y, floats(&[2.0 + 3.0 + 50.0 + 60.0, 1.0 + 2.0 + 40.0 + 50.0]));
}

#[test]
fn pcm_samples() {
    let bytes = [0x00, 0x00, 0x01, 0x00, 0xff, 0xff, 0x00, 0x80, 0xff, 0x7f, 0x34, 0x12, 0x99];
    assert_eq!(decode_samples(&bytes), vec![0, 1, -1, -32768, 32767, 0x1234]);
    assert_eq!(decode_samples(&[]), vec![]);
    let scaled: Vec<Float> = decode_scaled(&bytes[6..10]);
    assert_eq!(scaled, floats(&[-1.0, 32767.0 / 32768.0]));
    for s in [i16::MIN, -12345, -256, -1, 0, 1, 255, 256, i16::MAX] {
        assert_eq!(decode_samples(&s.to_le_bytes()), vec![s]);
    }
}

#[test]
fn numbers_from_bytes() {
    let mut bytes = bytes_of(&[1.0, -2.5, 3.0e-8]);
    bytes.push(1);
    bytes.push(2);
    let got: Vec<Float> = decode_floats(&bytes);
    assert_eq!(got, floats(&[1.0, -2.5, 3.0e-8]));
}

#[test]
fn error_texts() {
    assert_eq!(too_small(0), "Weight file too small: 0 floats, expected >= 309633");
    assert_eq!(too_small(309632), "Weight file too small: 309632 floats, expected >= 309633");
    assert_eq!(wrong_length(1024, 7), "Expected 1024 bytes, got 7");
    for n in [0usize, 9, 10, 99, 100, 1234567890, usize::MAX] {
        let mut text = String::from("n = ");
        append_decimal(&mut text, n);
        assert_eq!(text, format!("n = {}", n));
    }
}

#[test]
fn weights_of_the_wrong_size_are_refused() {
    let short = bytes_of(&weights()[1..]);
    match SileroVad::<Float>::from_bytes(&short, false) {
        Err(text) => {
            assert_eq!(text, "Weight file too small: 309632 floats, expected >= 309633")
        }
        Ok(_) => panic!("accepted"),
    }
    // Three more bytes are no number.
    let mut odd = short.clone();
    odd.extend_from_slice(&[0, 0, 0]);
    assert!(SileroVad::<Float>::from_bytes(&odd, false).is_err());
    odd.push(0);
    assert!(SileroVad::<Float>::from_bytes(&odd, false).is_ok());
    assert!(Engine::<Float>::from_bytes(&[], true).is_err());
}

#[test]
fn inference_agrees_with_plain_loops() {
    let w = weights();
    let mut longer = w.clone();
    longer.push(99.0);
    for simd in [false, true] {
        let mut vad = SileroVad::<Float>::from_bytes(&bytes_of(&longer), simd).unwrap();
        let mut plain = Plain::new(simd, &w);
        for seed in [1, 2, 3] {
            let audio = window(seed);
            let got = vad.infer(&audio).unwrap().0;
            let expected = plain.infer(&plain_samples(&audio));
            assert_eq!(got.to_bits(), expected.to_bits());
            assert!(got > 0.0 && got < 1.0);
        }
    }
}

#[test]
fn every_weight_counts() {
    // One number of each part of the file, changed, changes what comes out.
    let w = weights();
    let run = |w: &[f32]| {
        let engine = Engine::from_floats(&floats(w), false);
        let mut st = InferState::new();
        let samples = floats(&plain_samples(&window(4)));
        engine.infer(&samples, &mut st);
        engine.infer(&samples, &mut st).0
    };
    let before = run(&w);
    for at in [40000usize, 309504 - 512, 308480, 309632] {
        let mut changed = w.clone();
        changed[at] += 0.5;
        assert_ne!(run(&changed).to_bits(), before.to_bits());
    }
}

#[test]
fn memory_carries_over_and_reset_blanks_it() {
    let data = bytes_of(&weights());
    let mut vad = SileroVad::<Float>::from_bytes(&data, false).unwrap();
    let audio = window(5);
    let first = vad.infer(&audio).unwrap();
    let second = vad.infer(&audio).unwrap();
    assert_ne!(first, second);
    vad.reset_state();
    assert_eq!(vad.infer(&audio).unwrap(), first);
    assert_eq!(vad.infer(&audio).unwrap(), second);
}

#[test]
fn a_window_of_the_wrong_length_changes_nothing() {
    let data = bytes_of(&weights());
    let mut vad = SileroVad::<Float>::from_bytes(&data, false).unwrap();
    let mut other = SileroVad::<Float>::from_bytes(&data, false).unwrap();
    let audio = window(6);
    assert_eq!(vad.infer(&audio[..1022]), Err(String::from("Expected 1024 bytes, got 1022")));
    assert_eq!(vad.infer(&[]), Err(String::from("Expected 1024 bytes, got 0")));
    assert_eq!(vad.infer(&vec![0; 1025]), Err(String::from("Expected 1024 bytes, got 1025")));
    assert_eq!(vad.infer(&audio), other.infer(&audio));
}

#[test]
fn bytes_behind_the_weights_are_ignored() {
    let data = bytes_of(&weights());
    let audio = window(8);
    for extra in [1usize, 3, 4, 1001] {
        let mut longer = data.clone();
        longer.extend(vec![0xffu8; extra]);
        let mut vad = SileroVad::<Float>::from_bytes(&data, true).unwrap();
        let mut other = SileroVad::<Float>::from_bytes(&longer, true).unwrap();
        for _ in 0..2 {
            assert_eq!(vad.infer(&audio).unwrap(), other.infer(&audio).unwrap());
        }
    }
}

#[test]
fn values_behind_the_shorter_side_do_not_count() {
    for n in [0usize, 1, 5, 8, 20, 33, 77] {
        let a = floats(&series(13, n, 2.0));
        let b = floats(&series(17, n, 2.0));
        let mut longer = b.clone();
        longer.extend(floats(&[f32::NAN, 1.0, f32::INFINITY, 2.0, 3.0, 4.0, 5.0, 6.0, 7.0]));
        for simd in [false, true] {
            assert_eq!(dot(&a, &longer, simd), dot(&a, &b, simd));
            assert_eq!(dot_relu(&a, &longer, simd), dot_relu(&a, &b, simd));
        }
    }
}

#[test]
fn bounded_weights_give_a_confidence_in_range() {
    // Whatever the other weights hold, bounded ones in the last layer are enough.
    let bound = 2.0f32.powi(120);
    for odd in [f32::NAN, f32::INFINITY, -3.0e38] {
        for at in [100usize, 70000, 180000, 250000, 308500, 309000] {
            let mut w = weights();
            for v in &mut w[at..at + 300] {
                *v = odd;
            }
            for (i, v) in w[309504..309633].iter_mut().enumerate() {
                *v = if i % 3 == 0 { bound } else { -bound };
            }
            for simd in [false, true] {
                let engine = Engine::from_floats(&floats(&w), simd);
                let mut st = InferState::new();
                for seed in [1, 2] {
                    let p = engine.infer(&floats(&plain_samples(&window(seed))), &mut st).0;
                    assert!((0.0..=1.0).contains(&p));
                }
            }
        }
    }
    // A weight that is no number is not bounded.
    let mut w = weights();
    w[309632] = f32::NAN;
    let engine = Engine::from_floats(&floats(&w), false);
    assert!(engine.infer(&floats(&[0.0; 512]), &mut InferState::new()).0.is_nan());
}

#[test]
fn window_sizes() {
    let vad = SileroVad::<Float>::from_bytes(&bytes_of(&weights()), false).unwrap();
    assert_eq!(vad.num_frames_required(), 512);
    assert_eq!(SAMPLES_PER_WINDOW, 512);
    assert_eq!(BYTES_PER_WINDOW, 1024);
}

#[test]
fn detector_and_machine_together() {
    let mut vad = SileroVad::<Float>::from_bytes(&bytes_of(&weights()), false).unwrap();
    let params = VadParams {
        confidence: Float(0.0),
        min_volume: Float(0.5),
        start_secs: Float(0.064),
        stop_secs: Float(0.064),
    };
    let mut sm = StateMachine::new(16000, params);
    let loud: Vec<u8> = (0..SAMPLES_PER_WINDOW).flat_map(|_| i16::MIN.to_le_bytes()).collect();
    let mut audio: Vec<u8> = vec![];
    for _ in 0..8 {
        audio.extend_from_slice(&loud);
    }
    audio.extend_from_slice(&vec![0; 8 * BYTES_PER_WINDOW]);
    let mut states = vec![];
    for chunk in audio.chunks(320) {
        if let Some(window) = sm.next_window(chunk) {
            let confidence = vad.infer(&window).unwrap();
            states.push(sm.advance::<Double>(confidence, &window));
        }
    }
    // Smoothed, the volume passes 0.5 with the fourth window and falls below it two windows after
    // the loud ones.
    let mut expected = vec![VadState::Quiet; 3];
    expected.push(VadState::Starting);
    expected.extend_from_slice(&[VadState::Speaking; 6]);
    expected.push(VadState::Stopping);
    expected.extend_from_slice(&[VadState::Quiet; 5]);
    assert_eq!(states, expected);
}
