//! The detector: an engine and its memory.

use vstd::prelude::*;

use crate::engine::{
    assembled, assembled_from_bytes, functional_inference, laid_out,
    law_surplus_numbers_are_ignored, Engine, InferState, Memory, Weights, BYTES_PER_WINDOW,
    CONTEXT_16K, SAMPLES_PER_WINDOW, WEIGHT_COUNT,
};
use crate::pcm::{
    decode_scaled, floats_of, functional_scaling, samples_of, scaled, scaling_steps, words_of,
};
use crate::scalar::{
    functional_from_bits, functional_plus, functional_ratio, quotient, ratio_of, sample_of, Scalar,
};
use crate::text::{too_small_text, wrong_length, wrong_length_text};

verus! {

/// Voice activity detection on 16 kHz mono PCM, one window at a time.
pub struct SileroVad<S> {
    engine: Engine<S>,
    state: InferState<S>,
}

impl<S: Scalar> SileroVad<S> {
    /// The engine's weights.
    pub closed spec fn weights(self) -> Weights<S> {
        self.engine@
    }

    /// What is remembered of the windows so far.
    pub closed spec fn memory(self) -> Memory<S> {
        self.state@
    }

    /// Weights and memory have their sizes.
    pub open spec fn valid(self) -> bool {
        self.weights().sized() && self.memory().sized()
    }

    /// A detector with the weights that a little-endian sequence of single-precision numbers holds;
    /// `simd` says that the machine has eight-lane fused multiply-add.
    pub fn from_bytes(data: &[u8], simd: bool) -> (r: Result<Self, String>)
        ensures
            match r {
                Ok(vad) => {
                    &&& data@.len() / 4 >= WEIGHT_COUNT
                    &&& vad.valid()
                    &&& assembled_from_bytes(vad.weights(), simd, data@)
                    &&& functional_from_bits::<S>() ==> assembled(
                        vad.weights(),
                        simd,
                        floats_of::<S>(data@),
                    )
                    &&& functional_from_bits::<S>() && functional_plus::<S>() ==> vad.weights()
                        == laid_out(simd, floats_of::<S>(data@))
                    &&& vad.memory().zeroed()
                    &&& functional_ratio::<S>() ==> vad.memory() == Memory::<S>::blank()
                },
                Err(text) => {
                    &&& data@.len() / 4 < WEIGHT_COUNT
                    &&& text@ == too_small_text(data@.len() / 4)
                },
            },
    {
        match Engine::from_bytes(data, simd) {
            Ok(engine) => Ok(SileroVad { engine, state: InferState::new() }),
            Err(text) => Err(text),
        }
    }

    /// The confidence, zero to one, that a window of 16-bit little-endian mono PCM holds speech.
    ///
    /// The window is exactly [`BYTES_PER_WINDOW`] bytes; another length is an error and changes
    /// nothing.
    pub fn infer(&mut self, audio_bytes: &[u8]) -> (r: Result<S, String>)
        requires
            old(self).valid(),
        ensures
            final(self).valid(),
            final(self).weights() == old(self).weights(),
            match r {
                Ok(confidence) => {
                    &&& audio_bytes@.len() == BYTES_PER_WINDOW
                    &&& forall|i: int|
                        0 <= i < CONTEXT_16K ==> scaling_steps(
                            samples_of(audio_bytes@)[SAMPLES_PER_WINDOW - CONTEXT_16K + i],
                            #[trigger] final(self).memory().context[i],
                        )
                    &&& functional_scaling::<S>() && functional_inference::<S>(old(self).weights().simd)
                        ==> (final(self).memory(), confidence) == old(self).weights().inferred(
                        old(self).memory(),
                        scaled(samples_of(audio_bytes@)),
                    )
                    &&& functional_scaling::<S>() && functional_inference::<S>(old(self).weights().simd)
                        ==> forall|samples: Seq<S>|
                        samples.len() == SAMPLES_PER_WINDOW && (forall|i: int|
                            0 <= i < SAMPLES_PER_WINDOW ==> #[trigger] samples[i] == quotient(
                                sample_of::<S>(samples_of(audio_bytes@)[i]),
                                ratio_of(0x8000, 1),
                            )) ==> (final(self).memory(), confidence)
                            == #[trigger] old(self).weights().inferred(old(self).memory(), samples)
                },
                Err(text) => {
                    &&& audio_bytes@.len() != BYTES_PER_WINDOW
                    &&& text@ == wrong_length_text(BYTES_PER_WINDOW as nat, audio_bytes@.len())
                    &&& final(self).memory() == old(self).memory()
                },
            },
    {
        if audio_bytes.len() != BYTES_PER_WINDOW {
            return Err(wrong_length(BYTES_PER_WINDOW, audio_bytes.len()));
        }
        let samples: Vec<S> = decode_scaled(audio_bytes);
        let confidence = self.engine.infer(samples.as_slice(), &mut self.state);
        proof {
            if functional_scaling::<S>() {
                assert forall|other: Seq<S>|
                    other.len() == SAMPLES_PER_WINDOW && (forall|i: int|
                        0 <= i < SAMPLES_PER_WINDOW ==> #[trigger] other[i] == quotient(
                            sample_of::<S>(samples_of(audio_bytes@)[i]),
                            ratio_of(0x8000, 1),
                        )) implies other == samples@ by {
                    assert(other =~= samples@);
                }
            }
        }
        Ok(confidence)
    }

    /// Forgets the windows so far. Called between separate streams of audio.
    pub fn reset_state(&mut self)
        requires
            old(self).valid(),
        ensures
            final(self).valid(),
            final(self).weights() == old(self).weights(),
            final(self).memory().zeroed(),
            functional_ratio::<S>() ==> final(self).memory() == Memory::<S>::blank(),
    {
        self.state.reset();
    }

    /// Number of PCM samples per window.
    pub fn num_frames_required(&self) -> (r: usize)
        ensures
            r == SAMPLES_PER_WINDOW,
            r == 512,
    {
        SAMPLES_PER_WINDOW
    }
}

/// The confidence that a detector with these weights and this memory has in a window.
pub open spec fn confidence_in<S: Scalar>(w: Weights<S>, m: Memory<S>, window: Seq<u8>) -> S {
    w.inferred(m, scaled(samples_of(window))).1
}

/// What can happen to a detector.
pub enum Event {
    /// A window of audio is given to it.
    Window(Seq<u8>),
    /// It is told to forget.
    Reset,
}

/// The memory after one event.
pub open spec fn memory_after<S: Scalar>(w: Weights<S>, m: Memory<S>, event: Event) -> Memory<S> {
    match event {
        Event::Window(bytes) => if bytes.len() == BYTES_PER_WINDOW {
            w.inferred(m, scaled(samples_of(bytes))).0
        } else {
            m
        },
        Event::Reset => Memory::blank(),
    }
}

/// The memory after a series of events.
pub open spec fn memory_after_all<S: Scalar>(
    w: Weights<S>,
    m: Memory<S>,
    events: Seq<Event>,
) -> Memory<S>
    decreases events.len(),
{
    if events.len() == 0 {
        m
    } else {
        memory_after(w, memory_after_all(w, m, events.drop_last()), events.last())
    }
}

/// No stream bleeds into the next: after a reset the memory, and with it every confidence, is what
/// it would be on a detector that never heard what came before the reset.
pub proof fn law_reset_separates_streams<S: Scalar>(
    w: Weights<S>,
    m: Memory<S>,
    before: Seq<Event>,
    after: Seq<Event>,
    window: Seq<u8>,
)
    ensures
        memory_after_all(w, m, before.push(Event::Reset) + after) == memory_after_all(
            w,
            Memory::blank(),
            after,
        ),
        confidence_in(
            w,
            memory_after_all(w, m, before.push(Event::Reset) + after),
            window,
        ) == confidence_in(w, memory_after_all(w, Memory::blank(), after), window),
    decreases after.len(),
{
    let events = before.push(Event::Reset) + after;
    if after.len() == 0 {
        assert(events =~= before.push(Event::Reset));
        assert(events.drop_last() =~= before);
        assert(events.last() == Event::Reset);
    } else {
        law_reset_separates_streams(w, m, before, after.drop_last(), window);
        assert(events.drop_last() =~= before.push(Event::Reset) + after.drop_last());
        assert(events.last() == after.last());
    }
}

/// A window of the wrong length leaves no trace: the memory, and with it every confidence, is what it
/// would be without it.
pub proof fn law_refused_window_leaves_no_trace<S: Scalar>(
    w: Weights<S>,
    m: Memory<S>,
    before: Seq<Event>,
    refused: Seq<u8>,
    after: Seq<Event>,
    window: Seq<u8>,
)
    requires
        refused.len() != BYTES_PER_WINDOW,
    ensures
        memory_after_all(w, m, before.push(Event::Window(refused)) + after) == memory_after_all(
            w,
            m,
            before + after,
        ),
        confidence_in(
            w,
            memory_after_all(w, m, before.push(Event::Window(refused)) + after),
            window,
        ) == confidence_in(w, memory_after_all(w, m, before + after), window),
    decreases after.len(),
{
    let events = before.push(Event::Window(refused)) + after;
    if after.len() == 0 {
        assert(events.drop_last() =~= before);
        assert(events.last() == Event::Window(refused));
        assert(before + after =~= before);
    } else {
        law_refused_window_leaves_no_trace(w, m, before, refused, after.drop_last(), window);
        assert(events.drop_last() =~= before.push(Event::Window(refused)) + after.drop_last());
        assert((before + after).drop_last() =~= before + after.drop_last());
        assert(events.last() == after.last() && (before + after).last() == after.last());
    }
}

/// Bytes behind the weights are ignored: with them or without, the weights are the same.
pub proof fn law_surplus_bytes_are_ignored<S: Scalar>(simd: bool, data: Seq<u8>, extra: Seq<u8>)
    requires
        data.len() >= 4 * WEIGHT_COUNT,
    ensures
        words_of(data + extra).take(WEIGHT_COUNT as int) == words_of(
            data.take(4 * WEIGHT_COUNT),
        ),
        laid_out(simd, floats_of::<S>(data + extra)) == laid_out(
            simd,
            floats_of::<S>(data.take(4 * WEIGHT_COUNT)),
        ),
{
    let n = WEIGHT_COUNT as int;
    let long = floats_of::<S>(data + extra);
    let short = floats_of::<S>(data.take(4 * n));
    assert(words_of(data + extra).take(n) =~= words_of(data.take(4 * n)));
    assert forall|i: int| 0 <= i < n implies #[trigger] long[i] == short[i] by {
        assert(words_of(data + extra)[i] == words_of(data + extra).take(n)[i]);
    }
    assert(long.take(n) =~= short);
    law_surplus_numbers_are_ignored(simd, long);
}

/// Whatever happens to it, a memory keeps its sizes.
pub proof fn law_memory_keeps_its_sizes<S: Scalar>(
    w: Weights<S>,
    m: Memory<S>,
    events: Seq<Event>,
)
    requires
        m.sized(),
    ensures
        memory_after_all(w, m, events).sized(),
    decreases events.len(),
{
    if events.len() > 0 {
        law_memory_keeps_its_sizes(w, m, events.drop_last());
    }
}

/// The engine hears the windows of a stream without a gap: the samples put before a window are the
/// last ones of the window before it.
pub proof fn law_context_is_the_end_of_the_last_window<S: Scalar>(
    w: Weights<S>,
    m: Memory<S>,
    window: Seq<u8>,
)
    requires
        m.sized(),
        window.len() == BYTES_PER_WINDOW,
    ensures
        memory_after(w, m, Event::Window(window)).context == scaled::<S>(
            samples_of(window.subrange(896, 1024)),
        ),
{
    let samples = scaled::<S>(samples_of(window));
    assert((m.context + samples).subrange(512, 576) =~= scaled::<S>(
        samples_of(window.subrange(896, 1024)),
    ));
}

} // verus!
