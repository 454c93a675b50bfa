//! The state machine.
//!
//! Cuts the incoming audio into windows, and turns the decisions on the windows, speech or not, into
//! the cycle Quiet, Starting, Speaking, Stopping, Quiet.

use vstd::prelude::*;

use crate::params::VadParams;
use crate::scalar::{
    count_of, difference, functional_at_least, functional_from_count, functional_over,
    functional_ratio, functional_to_count, functional_wide, not_less, one, product, quotient,
    ratio_of, rounded, sum, zero, Scalar, Wide,
};
use crate::volume::{
    calculate_audio_volume, exp_smoothing, functional_loudness, functional_smoothing, smoothed,
    smoothing_steps, volume_of, volume_steps,
};

verus! {

/// States of voice activity.
#[derive(Debug, Clone, Copy, PartialEq, Eq, Structural)]
pub enum VadState {
    /// No voice activity.
    Quiet,
    /// Speech beginning: confirming windows are being counted.
    Starting,
    /// Active voice confirmed.
    Speaking,
    /// Speech ending: silent windows are being counted.
    Stopping,
}

impl Default for VadState {
    fn default() -> (r: Self)
        ensures
            r == VadState::Quiet,
    {
        VadState::Quiet
    }
}

/// A state machine as mathematical values.
#[verifier::ext_equal]
pub struct Machine<S> {
    /// The parameters.
    pub params: VadParams<S>,
    /// Bytes per window.
    pub bytes_required: nat,
    /// Consecutive windows of speech that confirm speech.
    pub start_frames: nat,
    /// Consecutive windows of silence that confirm its end.
    pub stop_frames: nat,
    /// Windows of speech counted while starting.
    pub starting_count: nat,
    /// Windows of silence counted while stopping.
    pub stopping_count: nat,
    /// The smoothed volume so far.
    pub prev_volume: S,
    /// Audio that no window has taken yet.
    pub buffer: Seq<u8>,
    /// The state.
    pub state: VadState,
}

/// Samples per window at `sample_rate`.
pub open spec fn window_samples(sample_rate: u32) -> nat {
    if sample_rate == 16000 {
        512
    } else {
        256
    }
}

/// Windows that `secs` seconds take at `sample_rate`, to the nearest one.
pub open spec fn windows_in<S: Scalar>(secs: S, sample_rate: u32) -> usize {
    let window_secs = quotient::<S>(
        count_of(window_samples(sample_rate) as usize),
        count_of(sample_rate as usize),
    );
    rounded(quotient(secs, window_secs))
}

impl<S: Scalar> Machine<S> {
    /// A machine that has seen no audio.
    pub open spec fn fresh(sample_rate: u32, params: VadParams<S>) -> Machine<S> {
        Machine {
            params,
            bytes_required: 2 * window_samples(sample_rate),
            start_frames: windows_in(params.start_secs, sample_rate) as nat,
            stop_frames: windows_in(params.stop_secs, sample_rate) as nat,
            starting_count: 0,
            stopping_count: 0,
            prev_volume: zero(),
            buffer: Seq::empty(),
            state: VadState::Quiet,
        }
    }

    /// The machine with all that it has seen forgotten.
    pub open spec fn restarted(self) -> Machine<S> {
        Machine {
            starting_count: 0,
            stopping_count: 0,
            prev_volume: zero(),
            buffer: Seq::empty(),
            state: VadState::Quiet,
            ..self
        }
    }

    /// No voice activity, and nothing counted.
    pub open spec fn resting(self) -> bool {
        &&& self.state == VadState::Quiet
        &&& self.starting_count == 0
        &&& self.stopping_count == 0
    }

    /// No count has reached its goal.
    pub open spec fn counting(self) -> bool {
        &&& self.starting_count == 0 || 0 < self.starting_count < self.start_frames
        &&& self.stopping_count == 0 || 0 < self.stopping_count < self.stop_frames
    }

    /// `n` consecutive windows of speech after silence.
    pub open spec fn starting(self, n: nat) -> Machine<S> {
        if n >= self.start_frames {
            Machine { state: VadState::Speaking, starting_count: 0, ..self }
        } else {
            Machine { state: VadState::Starting, starting_count: n, ..self }
        }
    }

    /// `n` consecutive windows of silence after speech.
    pub open spec fn stopping(self, n: nat) -> Machine<S> {
        if n >= self.stop_frames {
            Machine { state: VadState::Quiet, stopping_count: 0, ..self }
        } else {
            Machine { state: VadState::Stopping, stopping_count: n, ..self }
        }
    }

    /// The machine after a window of speech (`speaking`) or of silence.
    pub open spec fn stepped(self, speaking: bool) -> Machine<S> {
        match (self.state, speaking) {
            (VadState::Quiet, true) => self.starting(1),
            (VadState::Starting, true) => self.starting(self.starting_count + 1),
            (VadState::Speaking, true) => self,
            (VadState::Stopping, true) => Machine {
                state: VadState::Speaking,
                stopping_count: 0,
                ..self
            },
            (VadState::Quiet, false) => self,
            (VadState::Starting, false) => Machine {
                state: VadState::Quiet,
                starting_count: 0,
                ..self
            },
            (VadState::Speaking, false) => self.stopping(1),
            (VadState::Stopping, false) => self.stopping(self.stopping_count + 1),
        }
    }

    /// The machine with `volume` as its smoothed volume.
    pub open spec fn at_volume(self, volume: S) -> Machine<S> {
        Machine { prev_volume: volume, ..self }
    }

    /// The smoothed volume after a window.
    pub open spec fn volume_after<W: Wide<S>>(self, window: Seq<u8>) -> S {
        smoothed(volume_of::<S, W>(window), self.prev_volume, ratio_of(1, 5))
    }

    /// A window of this confidence and smoothed volume counts as speech: both reach their
    /// thresholds.
    pub open spec fn is_speech(self, confidence: S, volume: S) -> bool {
        not_less(confidence, self.params.confidence) && not_less(volume, self.params.min_volume)
    }

    /// `speaking` comes of holding the confidence and the smoothed volume of a window against their
    /// thresholds: speech where both were found to reach them, silence where one was found not to.
    pub open spec fn gate_steps(self, confidence: S, volume: S, speaking: bool) -> bool {
        let sure = (confidence, self.params.confidence);
        let loud = (volume, self.params.min_volume);
        if speaking {
            call_ensures(S::at_least, sure, true) && call_ensures(S::at_least, loud, true)
        } else {
            call_ensures(S::at_least, sure, false) || call_ensures(S::at_least, loud, false)
        }
    }

    /// The machine after a window of this confidence.
    pub open spec fn advanced<W: Wide<S>>(self, confidence: S, window: Seq<u8>) -> Machine<S> {
        let volume = self.volume_after::<W>(window);
        self.at_volume(volume).stepped(self.is_speech(confidence, volume))
    }

    /// The machine after more audio, without the window that it gives out.
    pub open spec fn fed(self, chunk: Seq<u8>) -> Machine<S> {
        let all = self.buffer + chunk;
        if all.len() >= self.bytes_required {
            Machine { buffer: all.skip(self.bytes_required as int), ..self }
        } else {
            Machine { buffer: all, ..self }
        }
    }

    /// The window that the machine gives out on more audio.
    pub open spec fn window(self, chunk: Seq<u8>) -> Option<Seq<u8>> {
        let all = self.buffer + chunk;
        if all.len() >= self.bytes_required {
            Some(all.take(self.bytes_required as int))
        } else {
            None
        }
    }
}

/// `n` comes of the operations that count the windows in `secs` seconds at `sample_rate`.
pub open spec fn windows_in_steps<S: Scalar>(secs: S, sample_rate: u32, n: usize) -> bool {
    exists|f: S, s: S, w: S, q: S|
        {
            &&& #[trigger] call_ensures(
                S::from_count,
                (window_samples(sample_rate) as usize,),
                f,
            )
            &&& #[trigger] call_ensures(S::from_count, (sample_rate as usize,), s)
            &&& #[trigger] call_ensures(S::over, (f, s), w)
            &&& #[trigger] call_ensures(S::over, (secs, w), q)
            &&& call_ensures(S::to_count, (q,), n)
        }
}

/// The operations that the windows in a time are counted with are functions.
pub open spec fn functional_timing<S: Scalar>() -> bool {
    &&& functional_from_count::<S>()
    &&& functional_over::<S>()
    &&& functional_to_count::<S>()
}

/// The operations that a decision on a window is computed with are functions.
pub open spec fn functional_advance<S: Scalar>() -> bool {
    &&& functional_loudness::<S>()
    &&& functional_smoothing::<S>()
    &&& functional_at_least::<S>()
}

/// Stateful voice activity detection for one stream of audio.
pub struct StateMachine<S> {
    params: VadParams<S>,
    bytes_required: usize,
    start_frames: usize,
    stop_frames: usize,
    starting_count: usize,
    stopping_count: usize,
    prev_volume: S,
    buffer: Vec<u8>,
    /// The current state.
    pub state: VadState,
}

impl<S> View for StateMachine<S> {
    type V = Machine<S>;

    closed spec fn view(&self) -> Machine<S> {
        Machine {
            params: self.params,
            bytes_required: self.bytes_required as nat,
            start_frames: self.start_frames as nat,
            stop_frames: self.stop_frames as nat,
            starting_count: self.starting_count as nat,
            stopping_count: self.stopping_count as nat,
            prev_volume: self.prev_volume,
            buffer: self.buffer@,
            state: self.state,
        }
    }
}

impl<S: Scalar> StateMachine<S> {
    /// A machine for audio at `sample_rate`, which is 16000 for the bundled engine.
    pub fn new(sample_rate: u32, params: VadParams<S>) -> (r: Self)
        ensures
            r@.counting(),
            r@.params == params,
            r@.bytes_required == 2 * window_samples(sample_rate),
            r@.resting(),
            r@.buffer == Seq::<u8>::empty(),
            r@.bytes_required == if sample_rate == 16000 {
                1024nat
            } else {
                512nat
            },
            exists|n: usize, f: S, s: S, w: S, q: S|
                {
                    &&& n == if sample_rate == 16000 {
                        512usize
                    } else {
                        256usize
                    }
                    &&& #[trigger] call_ensures(S::from_count, (n,), f)
                    &&& #[trigger] call_ensures(S::from_count, (sample_rate as usize,), s)
                    &&& #[trigger] call_ensures(S::over, (f, s), w)
                    &&& #[trigger] call_ensures(S::over, (params.start_secs, w), q)
                    &&& call_ensures(S::to_count, (q,), r@.start_frames as usize)
                },
            exists|n: usize, f: S, s: S, w: S, q: S|
                {
                    &&& n == if sample_rate == 16000 {
                        512usize
                    } else {
                        256usize
                    }
                    &&& #[trigger] call_ensures(S::from_count, (n,), f)
                    &&& #[trigger] call_ensures(S::from_count, (sample_rate as usize,), s)
                    &&& #[trigger] call_ensures(S::over, (f, s), w)
                    &&& #[trigger] call_ensures(S::over, (params.stop_secs, w), q)
                    &&& call_ensures(S::to_count, (q,), r@.stop_frames as usize)
                },
            windows_in_steps(params.start_secs, sample_rate, r@.start_frames as usize),
            windows_in_steps(params.stop_secs, sample_rate, r@.stop_frames as usize),
            r@.start_frames <= usize::MAX,
            r@.stop_frames <= usize::MAX,
            call_ensures(S::ratio, (0i32, 1i32), r@.prev_volume),
            functional_timing::<S>() && functional_ratio::<S>() ==> r@ == Machine::fresh(
                sample_rate,
                params,
            ),
    {
        let frames_required: usize = if sample_rate == 16000 { 512 } else { 256 };
        let bytes_required: usize = frames_required * 2;
        let frames = S::from_count(frames_required);
        let rate = S::from_count(sample_rate as usize);
        let frames_per_sec = frames.over(rate);
        let start = params.start_secs.over(frames_per_sec);
        let stop = params.stop_secs.over(frames_per_sec);
        let start_frames: usize = start.to_count();
        let stop_frames: usize = stop.to_count();
        StateMachine {
            params,
            bytes_required,
            start_frames,
            stop_frames,
            starting_count: 0,
            stopping_count: 0,
            prev_volume: S::ratio(0, 1),
            buffer: Vec::with_capacity(bytes_required * 2),
            state: VadState::Quiet,
        }
    }

    /// Takes in PCM bytes, and gives out a window when there is enough audio for one.
    pub fn next_window(&mut self, chunk: &[u8]) -> (r: Option<Vec<u8>>)
        ensures
            final(self)@ == old(self)@.fed(chunk@),
            match r {
                Some(window) => old(self)@.window(chunk@) == Some(window@),
                None => old(self)@.window(chunk@) is None,
            },
            r is Some <==> old(self)@.buffer.len() + chunk@.len() >= old(self)@.bytes_required,
            match r {
                Some(window) => {
                    &&& window@.len() == old(self)@.bytes_required
                    &&& window@ + final(self)@.buffer == old(self)@.buffer + chunk@
                },
                None => final(self)@.buffer == old(self)@.buffer + chunk@,
            },
            final(self)@ == (Machine { buffer: final(self)@.buffer, ..old(self)@ }),
    {
        let ghost all = self.buffer@ + chunk@;
        self.buffer.extend_from_slice(chunk);
        assert(self.buffer@ =~= all);
        if self.buffer.len() >= self.bytes_required {
            let mut rest: Vec<u8> = self.buffer.split_off(self.bytes_required);
            std::mem::swap(&mut rest, &mut self.buffer);
            assert(self.buffer@ =~= all.skip(self.bytes_required as int));
            assert(rest@ =~= all.take(self.bytes_required as int));
            assert(rest@ + self.buffer@ =~= all);
            Some(rest)
        } else {
            None
        }
    }

    /// Moves on by a window of speech (`speaking`) or of silence.
    pub fn transition(&mut self, speaking: bool) -> (r: VadState)
        requires
            old(self)@.counting(),
        ensures
            final(self)@.counting(),
            final(self)@ == old(self)@.stepped(speaking),
            final(self)@ == (Machine {
                state: final(self)@.state,
                starting_count: final(self)@.starting_count,
                stopping_count: final(self)@.stopping_count,
                ..old(self)@
            }),
            speaking <==> r == VadState::Starting || r == VadState::Speaking,
            r == final(self)@.state,
    {
        if speaking {
            match self.state {
                VadState::Quiet => {
                    self.state = VadState::Starting;
                    self.starting_count = 1;
                },
                VadState::Starting => {
                    self.starting_count = self.starting_count + 1;
                },
                VadState::Stopping => {
                    self.state = VadState::Speaking;
                    self.stopping_count = 0;
                },
                VadState::Speaking => {},
            }
        } else {
            match self.state {
                VadState::Starting => {
                    self.state = VadState::Quiet;
                    self.starting_count = 0;
                },
                VadState::Speaking => {
                    self.state = VadState::Stopping;
                    self.stopping_count = 1;
                },
                VadState::Stopping => {
                    self.stopping_count = self.stopping_count + 1;
                },
                VadState::Quiet => {},
            }
        }

        if self.state == VadState::Starting && self.starting_count >= self.start_frames {
            self.state = VadState::Speaking;
            self.starting_count = 0;
        }
        if self.state == VadState::Stopping && self.stopping_count >= self.stop_frames {
            self.state = VadState::Quiet;
            self.stopping_count = 0;
        }
        self.state
    }

    /// Moves on by a window of audio that the engine gave this confidence.
    pub fn advance<W: Wide<S>>(&mut self, confidence: S, audio_window: &[u8]) -> (r: VadState)
        requires
            old(self)@.counting(),
        ensures
            final(self)@.counting(),
            exists|speaking: bool|
                {
                    &&& final(self)@ == #[trigger] old(self)@.at_volume(
                        final(self)@.prev_volume,
                    ).stepped(speaking)
                    &&& old(self)@.gate_steps(confidence, final(self)@.prev_volume, speaking)
                },
            exists|current: S, factor: S|
                {
                    &&& volume_steps::<S, W>(audio_window@, current)
                    &&& #[trigger] call_ensures(S::ratio, (1i32, 5i32), factor)
                    &&& #[trigger] smoothing_steps(
                        current,
                        old(self)@.prev_volume,
                        factor,
                        final(self)@.prev_volume,
                    )
                },
            functional_advance::<S>() && functional_wide::<S, W>() ==> final(self)@ == old(
                self,
            )@.advanced::<W>(confidence, audio_window@),
            functional_advance::<S>() && functional_wide::<S, W>() ==> final(self)@.prev_volume
                == sum(
                product(volume_of::<S, W>(audio_window@), ratio_of(1, 5)),
                product(old(self)@.prev_volume, difference(one(), ratio_of(1, 5))),
            ),
            functional_at_least::<S>() ==> (r == VadState::Starting || r == VadState::Speaking <==>
                not_less(confidence, old(self)@.params.confidence) && not_less(
                final(self)@.prev_volume,
                old(self)@.params.min_volume,
            )),
            final(self)@ == (Machine {
                state: final(self)@.state,
                starting_count: final(self)@.starting_count,
                stopping_count: final(self)@.stopping_count,
                prev_volume: final(self)@.prev_volume,
                ..old(self)@
            }),
            r == final(self)@.state,
    {
        let current = calculate_audio_volume::<S, W>(audio_window);
        let factor = S::ratio(1, 5);
        let volume = exp_smoothing(current, self.prev_volume, factor);
        let speaking = confidence.at_least(self.params.confidence) && volume.at_least(
            self.params.min_volume,
        );
        self.prev_volume = volume;
        assert(self@ == old(self)@.at_volume(volume));
        assert(old(self)@.gate_steps(confidence, volume, speaking));
        let state = self.transition(speaking);
        assert(self@.prev_volume == volume);
        assert(call_ensures(S::ratio, (1i32, 5i32), factor) && smoothing_steps(
            current,
            old(self)@.prev_volume,
            factor,
            self@.prev_volume,
        ));
        state
    }

    /// Forgets all that the machine has seen.
    pub fn reset(&mut self)
        ensures
            final(self)@.counting(),
            final(self)@.resting(),
            final(self)@.buffer == Seq::<u8>::empty(),
            final(self)@.params == old(self)@.params,
            final(self)@.bytes_required == old(self)@.bytes_required,
            final(self)@.start_frames == old(self)@.start_frames,
            final(self)@.stop_frames == old(self)@.stop_frames,
            final(self)@ == old(self)@.restarted().at_volume(
                final(self)@.prev_volume,
            ),
            call_ensures(S::ratio, (0i32, 1i32), final(self)@.prev_volume),
            functional_ratio::<S>() ==> final(self)@ == old(self)@.restarted(),
    {
        self.state = VadState::Quiet;
        self.starting_count = 0;
        self.stopping_count = 0;
        self.prev_volume = S::ratio(0, 1);
        self.buffer.clear();
    }
}

} // verus!
