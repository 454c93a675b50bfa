use rustvani_vad::volume::level_volume;
use rustvani_vad::{
    calculate_audio_volume, exp_smoothing, Scalar, StateMachine, VadParams, VadState, Wide,
};

#[derive(Clone, Copy, Debug, PartialEq)]
struct Float(f32);

impl Scalar for Float {
    fn ratio(num: i32, den: i32) -> Self {
        Float(num as f32 / den as f32)
    }
    fn from_bits(bits: u32) -> Self {
        Float(f32::from_bits(bits))
    }
    fn from_sample(sample: i16) -> Self {
        Float(sample as f32)
    }
    fn from_count(count: usize) -> Self {
        Float(count as f32)
    }
    fn to_count(self) -> usize {
        self.0.round() as usize
    }
    fn plus(self, other: Self) -> Self {
        Float(self.0 + other.0)
    }
    fn minus(self, other: Self) -> Self {
        Float(self.0 - other.0)
    }
    fn times(self, other: Self) -> Self {
        Float(self.0 * other.0)
    }
    fn over(self, other: Self) -> Self {
        Float(self.0 / other.0)
    }
    fn times_plus(self, factor: Self, addend: Self) -> Self {
        Float(self.0.mul_add(factor.0, addend.0))
    }
    fn max(self, other: Self) -> Self {
        Float(self.0.max(other.0))
    }
    fn neg(self) -> Self {
        Float(-self.0)
    }
    fn sqrt(self) -> Self {
        Float(self.0.sqrt())
    }
    fn exp(self) -> Self {
        Float(self.0.exp())
    }
    fn tanh(self) -> Self {
        Float(self.0.tanh())
    }
    fn log10(self) -> Self {
        Float(self.0.log10())
    }
    fn below(self, other: Self) -> bool {
        self.0 < other.0
    }
    fn at_least(self, other: Self) -> bool {
        self.0 >= other.0
    }
}

#[derive(Clone, Copy, Debug, PartialEq)]
struct Double(f64);

impl Wide<Float> for Double {
    fn zero() -> Self {
        Double(0.0)
    }
    fn from_sample(sample: i16) -> Self {
        Double(sample as f64)
    }
    fn from_count(count: usize) -> Self {
        Double(count as f64)
    }
    fn plus(self, other: Self) -> Self {
        Double(self.0 + other.0)
    }
    fn times(self, other: Self) -> Self {
        Double(self.0 * other.0)
    }
    fn over(self, other: Self) -> Self {
        Double(self.0 / other.0)
    }
    fn sqrt(self) -> Self {
        Double(self.0.sqrt())
    }
    fn narrow(self) -> Float {
        Float(self.0 as f32)
    }
}

fn tone(amplitude: i16) -> Vec<u8> {
    (0..512).flat_map(|i| (if i % 2 == 0 { amplitude } else { -amplitude }).to_le_bytes()).collect()
}

fn volume(audio: &[u8]) -> f32 {
    calculate_audio_volume::<Float, Double>(audio).0
}

fn plain_volume(audio: &[u8]) -> f32 {
    let samples: Vec<i16> =
        audio.chunks_exact(2).map(|b| i16::from_le_bytes([b[0], b[1]])).collect();
    if samples.is_empty() {
        return 0.0;
    }
    let sum_sq: f64 = samples.iter().map(|&s| (s as f64).powi(2)).sum();
    let rms = (sum_sq / samples.len() as f64).sqrt() as f32 / 32768.0;
    if rms < 1e-9 {
        return 0.0;
    }
    let db = (20.0 * rms.log10()).clamp(-60.0, 0.0);
    (db + 60.0) / 60.0
}

/// Thresholds that only the confidence decides: every volume is enough.
fn any_volume() -> VadParams<Float> {
    VadParams { min_volume: Float(0.0), ..VadParams::default() }
}

fn step(sm: &mut StateMachine<Float>, speech: bool) -> VadState {
    sm.advance::<Double>(Float(if speech { 0.9 } else { 0.1 }), &[])
}

#[test]
fn default_state_and_parameters() {
    assert_eq!(VadState::default(), VadState::Quiet);
    let p: VadParams<Float> = VadParams::default();
    assert_eq!(p.confidence, Float(0.5));
    assert_eq!(p.min_volume, Float(0.6));
    assert_eq!(p.start_secs, Float(0.2));
    assert_eq!(p.stop_secs, Float(0.8));
}

#[test]
fn volume_of_silence_is_zero() {
    assert_eq!(volume(&[]), 0.0);
    assert_eq!(volume(&[5]), 0.0);
    assert_eq!(volume(&vec![0; 1024]), 0.0);
}

#[test]
fn volume_at_and_near_full_scale() {
    let full: Vec<u8> = (0..512).flat_map(|_| i16::MIN.to_le_bytes()).collect();
    assert_eq!(volume(&full), 1.0);
    // A tenth of full scale is -20 dB, two thirds of the way up.
    assert!((volume(&tone(3277)) - 2.0 / 3.0).abs() < 1e-4);
    // One unit is about -90 dB, below the range.
    assert_eq!(volume(&tone(1)), 0.0);
}

#[test]
fn volume_agrees_with_its_formula() {
    for amplitude in [1, 30, 33, 40, 100, 1000, 8192, 20000, 32767] {
        let audio = tone(amplitude);
        assert_eq!(volume(&audio).to_bits(), plain_volume(&audio).to_bits());
    }
    let ramp: Vec<u8> = (0..700i16).flat_map(|i| (i * 37).to_le_bytes()).collect();
    assert_eq!(volume(&ramp).to_bits(), plain_volume(&ramp).to_bits());
    assert_eq!(volume(&ramp[..1399]).to_bits(), plain_volume(&ramp[..1399]).to_bits());
}

#[test]
fn volume_stays_between_zero_and_one() {
    for level in [0.0f32, 1e-12, 1e-9, 1e-3, 0.5, 1.0, 10.0] {
        let v = level_volume(Float(level)).0;
        assert!((0.0..=1.0).contains(&v));
    }
    assert_eq!(level_volume(Float(0.9e-9)), Float(0.0));
    assert_eq!(level_volume(Float(10.0)), Float(1.0));
}

/// A reproducible series of numbers below `n`.
fn draws(seed: u32, n: u32) -> impl FnMut() -> u32 {
    let mut x = seed;
    move || {
        x = x.wrapping_mul(1664525).wrapping_add(1013904223);
        (x >> 8) % n
    }
}

#[test]
fn volume_of_the_same_samples() {
    let mut draw = draws(5, 65536);
    let samples: Vec<i16> = (0..700).map(|_| draw() as u16 as i16 / 9).collect();
    let audio: Vec<u8> = samples.iter().flat_map(|s| s.to_le_bytes()).collect();
    let expected = volume(&audio);
    assert!(expected > 0.5 && expected < 1.0);

    let mut sorted = samples.clone();
    sorted.sort();
    let reordered: Vec<u8> = sorted.iter().flat_map(|s| s.to_le_bytes()).collect();
    assert_eq!(volume(&reordered).to_bits(), expected.to_bits());
    let backwards: Vec<u8> = samples.iter().rev().flat_map(|s| s.to_le_bytes()).collect();
    assert_eq!(volume(&backwards).to_bits(), expected.to_bits());

    let twice: Vec<u8> = audio.iter().chain(&audio).copied().collect();
    assert_eq!(volume(&twice).to_bits(), expected.to_bits());

    for byte in [0u8, 1, 127, 128, 255] {
        let mut odd = audio.clone();
        odd.push(byte);
        assert_eq!(volume(&odd).to_bits(), expected.to_bits());
        assert_eq!(volume(&[byte]), 0.0);
    }
}

#[test]
fn any_history_of_a_machine() {
    // 0.1 s is 3 windows of 32 ms each, 0.16 s is 5.
    let params = VadParams { start_secs: Float(0.1), stop_secs: Float(0.16), ..any_volume() };
    for seed in 0..20u32 {
        let mut draw = draws(seed, 1000);
        let mut sm = StateMachine::new(16000, params.clone());
        let mut heard: Vec<u8> = vec![];
        let mut given: Vec<u8> = vec![];
        let mut active = false;
        let mut speech = 0;
        let mut silence = 0;
        let mut likely = true;
        for i in 0..2000usize {
            let what = draw();
            if what < 5 {
                sm.reset();
                heard.clear();
                given.clear();
                active = false;
                speech = 0;
                silence = 0;
                assert_eq!(sm.state, VadState::Quiet);
            } else if what < 500 {
                let chunk = vec![(i % 256) as u8; draw() as usize];
                let before = sm.state;
                heard.extend_from_slice(&chunk);
                if let Some(window) = sm.next_window(&chunk) {
                    assert_eq!(window.len(), 1024);
                    given.extend_from_slice(&window);
                }
                assert_eq!(given[..], heard[..given.len()]);
                assert!(heard.len() - given.len() < 1024);
                assert_eq!(sm.state, before);
            } else {
                if draw() < 150 {
                    likely = !likely;
                }
                let speaking = if draw() < 50 { !likely } else { likely };
                speech = if speaking { speech + 1 } else { 0 };
                silence = if speaking { 0 } else { silence + 1 };
                let state = step(&mut sm, speaking);
                if active {
                    active = silence < 5;
                } else {
                    active = speech >= 3;
                }
                let expected = match (active, speech, silence) {
                    (true, _, 0) => VadState::Speaking,
                    (true, _, _) => VadState::Stopping,
                    (false, 0, _) => VadState::Quiet,
                    (false, _, _) => VadState::Starting,
                };
                assert_eq!(state, expected);
                assert_eq!(sm.state, expected);
                let shows_speech = matches!(state, VadState::Starting | VadState::Speaking);
                assert_eq!(shows_speech, speaking);
            }
        }
    }
}

#[test]
fn what_compares_keeps_comparing() {
    let one = Float(1.0);
    let zero = Float(0.0);
    let factor = Float::ratio(1, 5);
    let compares = |x: Float| x.at_least(x);
    assert!(!compares(Float(f32::NAN)));
    assert!(!Float(f32::NAN).at_least(zero));
    let values: Vec<Float> = [
        f32::NEG_INFINITY,
        f32::MIN,
        -60.0,
        -0.0,
        0.0,
        1.0e-40,
        1.0e-9,
        0.2,
        1.0,
        60.0,
        f32::MAX,
        f32::INFINITY,
    ]
    .iter()
    .map(|&v| Float(v))
    .collect();
    for &x in &values {
        assert!(compares(x) && compares(x.neg()) && compares(x.exp()));
        assert!(compares(x.plus(Float(60.0))) && compares(Float(20.0).times(x)));
        assert!(compares(x.times(factor)) && compares(x.times(one.minus(factor))));
        assert!(compares(x.over(Float(60.0))) && compares(x.over(Float::from_count(1))));
        if !x.below(Float::ratio(1, 1_000_000_000)) {
            assert!(compares(x.log10()));
        }
        if !x.below(one) {
            assert!(compares(one.over(x)));
        }
        let v = level_volume(x);
        assert!(v.at_least(zero) && one.at_least(v));
        for &y in &values {
            assert_eq!(x.at_least(y), !x.below(y));
            if !x.below(zero) && !y.below(zero) {
                assert!(compares(x.plus(y)));
            }
        }
    }
}

#[test]
fn smoothing() {
    assert_eq!(exp_smoothing(Float(1.0), Float(0.0), Float(0.25)), Float(0.25));
    assert_eq!(exp_smoothing(Float(8.0), Float(4.0), Float(0.5)), Float(6.0));
    assert_eq!(exp_smoothing(Float(1.0), Float(1.0), Float(0.2)), Float(1.0));
    let expected = 0.7f32 * 0.2f32 + 0.3f32 * (1.0f32 - 0.2f32);
    assert_eq!(exp_smoothing(Float(0.7), Float(0.3), Float(0.2)), Float(expected));
}

#[test]
fn windows_are_cut_from_the_stream() {
    let mut sm = StateMachine::<Float>::new(16000, VadParams::default());
    let audio: Vec<u8> = (0..5000usize).map(|i| (i % 251) as u8).collect();
    let mut out: Vec<u8> = vec![];
    let mut at = 0;
    for n in [0usize, 1, 1022, 1, 100, 924, 2000, 0, 1, 951] {
        if let Some(window) = sm.next_window(&audio[at..at + n]) {
            assert_eq!(window.len(), 1024);
            out.extend_from_slice(&window);
        }
        at += n;
    }
    assert_eq!(at, 5000);
    // Four windows and 904 bytes came in; one call gives out one window at most.
    assert_eq!(out.len(), 4096);
    assert_eq!(out[..], audio[..4096]);
}

#[test]
fn a_full_window_comes_at_once() {
    let mut sm = StateMachine::<Float>::new(16000, VadParams::default());
    assert_eq!(sm.next_window(&vec![3; 1023]), None);
    assert_eq!(sm.next_window(&[4]).map(|w| (w[0], w[1023])), Some((3, 4)));
    assert_eq!(sm.next_window(&vec![5; 2048]), Some(vec![5; 1024]));
    assert_eq!(sm.next_window(&[]), Some(vec![5; 1024]));
    assert_eq!(sm.next_window(&[]), None);
}

#[test]
fn small_chunks_leave_no_backlog() {
    let mut sm = StateMachine::<Float>::new(16000, VadParams::default());
    let mut came_in = 0;
    let mut went_out = 0;
    for i in 0..300usize {
        let n = (i * 331) % 1025;
        came_in += n;
        if let Some(window) = sm.next_window(&vec![7; n]) {
            went_out += window.len();
        }
        assert!(came_in - went_out < 1024);
    }
}

#[test]
fn other_rates_have_windows_of_256_samples() {
    let mut sm = StateMachine::<Float>::new(8000, VadParams::default());
    assert_eq!(sm.next_window(&vec![1; 511]), None);
    assert_eq!(sm.next_window(&[1]), Some(vec![1; 512]));
}

#[test]
fn speech_is_confirmed_after_six_windows() {
    // 0.2 s of windows of 32 ms each: 6.25, so 6.
    let mut sm = StateMachine::new(16000, any_volume());
    for _ in 0..5 {
        assert_eq!(step(&mut sm, true), VadState::Starting);
    }
    assert_eq!(step(&mut sm, true), VadState::Speaking);
    assert_eq!(step(&mut sm, true), VadState::Speaking);
    assert_eq!(sm.state, VadState::Speaking);
}

#[test]
fn silence_is_confirmed_after_twenty_five_windows() {
    let mut sm = StateMachine::new(16000, any_volume());
    for _ in 0..6 {
        step(&mut sm, true);
    }
    for _ in 0..24 {
        assert_eq!(step(&mut sm, false), VadState::Stopping);
    }
    assert_eq!(step(&mut sm, false), VadState::Quiet);
    assert_eq!(step(&mut sm, false), VadState::Quiet);
}

#[test]
fn other_parameters() {
    let params = VadParams {
        confidence: Float(0.6),
        min_volume: Float(0.0),
        start_secs: Float(0.3),
        stop_secs: Float(1.2),
    };
    let stop = (1.2f32 / (512.0f32 / 16000.0f32)).round() as usize;
    let mut sm = StateMachine::new(16000, params);
    assert_eq!(sm.advance::<Double>(Float(0.55), &[]), VadState::Quiet);
    for _ in 0..8 {
        assert_eq!(step(&mut sm, true), VadState::Starting);
    }
    assert_eq!(step(&mut sm, true), VadState::Speaking);
    for _ in 1..stop {
        assert_eq!(step(&mut sm, false), VadState::Stopping);
    }
    assert_eq!(step(&mut sm, false), VadState::Quiet);
}

#[test]
fn silence_never_starts() {
    let mut sm = StateMachine::new(16000, any_volume());
    for _ in 0..50 {
        assert_eq!(step(&mut sm, false), VadState::Quiet);
    }
}

#[test]
fn one_silent_window_cancels_the_start() {
    let mut sm = StateMachine::new(16000, any_volume());
    for _ in 0..5 {
        step(&mut sm, true);
    }
    assert_eq!(step(&mut sm, false), VadState::Quiet);
    for _ in 0..5 {
        assert_eq!(step(&mut sm, true), VadState::Starting);
    }
    assert_eq!(step(&mut sm, true), VadState::Speaking);
}

#[test]
fn speech_resumes_while_stopping() {
    let mut sm = StateMachine::new(16000, any_volume());
    for _ in 0..6 {
        step(&mut sm, true);
    }
    for _ in 0..24 {
        step(&mut sm, false);
    }
    assert_eq!(step(&mut sm, true), VadState::Speaking);
    for _ in 0..24 {
        assert_eq!(step(&mut sm, false), VadState::Stopping);
    }
    assert_eq!(step(&mut sm, false), VadState::Quiet);
}

#[test]
fn without_confirmation_one_window_decides() {
    let params = VadParams { start_secs: Float(0.0), stop_secs: Float(0.0), ..any_volume() };
    let mut sm = StateMachine::new(16000, params);
    assert_eq!(step(&mut sm, true), VadState::Speaking);
    assert_eq!(step(&mut sm, false), VadState::Quiet);
}

#[test]
fn negative_times_ask_for_no_confirmation() {
    let params = VadParams { start_secs: Float(-1.0), ..any_volume() };
    let mut sm = StateMachine::new(16000, params);
    assert_eq!(step(&mut sm, true), VadState::Speaking);
}

#[test]
fn thresholds_are_reached_by_equality() {
    let params = VadParams { start_secs: Float(0.0), ..any_volume() };
    let mut sm = StateMachine::new(16000, params);
    assert_eq!(sm.advance::<Double>(Float(0.49), &[]), VadState::Quiet);
    assert_eq!(sm.advance::<Double>(Float(f32::NAN), &[]), VadState::Quiet);
    assert_eq!(sm.advance::<Double>(Float(0.5), &[]), VadState::Speaking);
}

#[test]
fn what_is_no_number_is_no_speech() {
    let mut sm = StateMachine::new(16000, any_volume());
    for _ in 0..6 {
        step(&mut sm, true);
    }
    assert_eq!(sm.state, VadState::Speaking);
    assert_eq!(sm.advance::<Double>(Float(f32::NAN), &[]), VadState::Stopping);
}

#[test]
fn low_volume_is_no_speech() {
    // At full scale the smoothed volume is 0.2, 0.36, 0.488, 0.5904, 0.67...: four windows stay
    // below 0.6, the fifth reaches it.
    let params: VadParams<Float> = VadParams::default();
    let mut sm = StateMachine::new(16000, params);
    let loud: Vec<u8> = (0..512).flat_map(|_| i16::MIN.to_le_bytes()).collect();
    for _ in 0..4 {
        assert_eq!(sm.advance::<Double>(Float(1.0), &loud), VadState::Quiet);
    }
    assert_eq!(sm.advance::<Double>(Float(1.0), &loud), VadState::Starting);
    assert_eq!(sm.advance::<Double>(Float(0.1), &loud), VadState::Quiet);
    assert_eq!(sm.advance::<Double>(Float(1.0), &vec![0; 1024]), VadState::Quiet);
}

#[test]
fn transitions_on_decisions_alone() {
    let mut sm = StateMachine::<Float>::new(16000, VadParams::default());
    assert_eq!(sm.transition(false), VadState::Quiet);
    for _ in 0..5 {
        assert_eq!(sm.transition(true), VadState::Starting);
    }
    assert_eq!(sm.transition(true), VadState::Speaking);
    assert_eq!(sm.transition(false), VadState::Stopping);
    assert_eq!(sm.transition(true), VadState::Speaking);
}

#[test]
fn reset_gives_a_new_machine() {
    let params: VadParams<Float> = VadParams::default();
    let mut sm = StateMachine::new(16000, params.clone());
    let loud: Vec<u8> = (0..512).flat_map(|_| i16::MIN.to_le_bytes()).collect();
    for _ in 0..20 {
        sm.advance::<Double>(Float(1.0), &loud);
    }
    sm.next_window(&vec![9; 1000]);
    assert_eq!(sm.state, VadState::Speaking);
    sm.reset();
    assert_eq!(sm.state, VadState::Quiet);
    sm.reset();
    assert_eq!(sm.state, VadState::Quiet);
    let mut new = StateMachine::new(16000, params);
    assert_eq!(sm.next_window(&vec![1; 100]), None);
    assert_eq!(sm.next_window(&vec![1; 924]), Some(vec![1; 1024]));
    for _ in 0..12 {
        assert_eq!(
            sm.advance::<Double>(Float(1.0), &loud),
            new.advance::<Double>(Float(1.0), &loud)
        );
    }
}

#[test]
fn rounding_keeps_the_order_of_numbers() {
    let one = Float(1.0);
    let zero = Float(0.0);
    let factor = Float::ratio(1, 5);
    let rest = one.minus(factor);
    let sixty = Float::ratio(60, 1);
    let values: Vec<Float> = [
        f32::NEG_INFINITY,
        f32::MIN,
        -60.0,
        -1.5,
        -1.0e-40,
        -0.0,
        0.0,
        1.0e-40,
        0.2,
        0.8,
        1.0,
        1.0000001,
        60.0,
        f32::MAX,
        f32::INFINITY,
        f32::NAN,
    ]
    .iter()
    .map(|&v| Float(v))
    .collect();
    for &x in &values {
        assert!(!x.below(x));
        assert!(!x.exp().below(zero));
        if !x.below(one) {
            let q = one.over(x);
            assert!(!q.below(zero) && !one.below(q));
        }
        for &y in &values {
            if y.below(x) {
                continue;
            }
            assert!(!y.over(sixty).below(x.over(sixty)));
            assert!(!y.over(Float::from_count(1)).below(x.over(Float::from_count(1))));
            assert!(!y.times(factor).below(x.times(factor)));
            assert!(!y.times(rest).below(x.times(rest)));
            for &u in &values {
                for &v in &values {
                    if !v.below(u) {
                        assert!(!y.plus(v).below(x.plus(u)));
                    }
                }
            }
        }
    }
    assert_eq!(Float::ratio(-60, 1).plus(sixty), zero);
    assert_eq!(zero.plus(sixty), sixty);
    assert_eq!(sixty.over(sixty), one);
    assert_eq!(one.times(factor).plus(one.times(rest)), one);
}
