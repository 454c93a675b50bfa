# rustvani-vad

Voice activity detection: a small neural network that gives the confidence that a window of audio
holds speech, and a state machine that turns confidence and volume into speech that starts and stops.
Verified with Verus.

## Numbers

The library computes with a type of numbers, the trait `Scalar`, and assumes nothing of its
operations. Its contracts say which operations are applied to which values, and in which order. They
say so of the computed number where the operations that it is computed with are functions of their
arguments (`functional_plus` and the like); a short function also states the calls whose results it
returns, which holds of any type. Whatever does not depend on a computed number, such as sizes, errors,
the weights copied from a file, the windows cut from a stream and the moves of the state machine, is
stated without a condition.

A law that needs more of the numbers lists it, in a form that holds of floating point: that order is
kept (`orderly`, `comparing`), that sums stay bounded (`keeps_bounds`), and that whole numbers up to a
limit are added and multiplied exactly (`exact_up_to`, `exact_squares`). `app/` computes with single
precision.

## Layout

- `src/scalar.rs`: the numbers
- `src/simd.rs`: dot products, in four partial sums or in the order of eight-lane registers
- `src/layers.rs`: padding, convolution, the logistic function
- `src/engine.rs`: the weights and how a file holds them, the spectrum, the recurrent cell, inference
- `src/vad.rs`: the detector, an engine and its memory
- `src/pcm.rs`, `src/text.rs`: bytes as samples and numbers; the texts of the errors
- `src/params.rs`, `src/volume.rs`, `src/state.rs`: parameters, volume, the state machine
- `src/history.rs`, `src/lifecycle.rs`, `src/stream.rs`: laws on any history of a state machine, its
  states, and the windows of a stream
- `src/agreement.rs`, `src/whole.rs`: laws on dot products, that the two orders of summation agree where
  partial sums are exact, and that whole numbers come out exact
- `src/range.rs`, `src/bounds.rs`, `src/power.rs`: laws on the ranges of confidence and volume, on what
  the weights have to meet for the one, and on what the volume does not depend on
- `app/`: the detector on floating-point numbers, shared between threads, with an async call. The
  weights are compiled in: `models/silero_vad_16k.bin` has to be there when it is built.
