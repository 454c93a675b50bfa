//! Tunable parameters.

use vstd::prelude::*;

use crate::scalar::{functional_ratio, ratio_of, Scalar};

verus! {

/// Parameters controlling sensitivity and timing.
///
/// The defaults suit conversational speech at 16 kHz.
#[derive(Debug, Clone)]
pub struct VadParams<S> {
    /// Confidence, zero to one, from which on a window counts as speech.
    pub confidence: S,
    /// Volume, zero to one, that a window needs as well to count as speech.
    pub min_volume: S,
    /// Seconds of consecutive speech after which speech is confirmed.
    pub start_secs: S,
    /// Seconds of consecutive silence after which the end of speech is confirmed.
    pub stop_secs: S,
}

/// Confidence 0.5, volume 0.6, speech after 0.2 s, silence after 0.8 s.
pub open spec fn usual_params<S: Scalar>() -> VadParams<S> {
    VadParams {
        confidence: ratio_of(1, 2),
        min_volume: ratio_of(3, 5),
        start_secs: ratio_of(1, 5),
        stop_secs: ratio_of(4, 5),
    }
}

impl<S: Scalar> Default for VadParams<S> {
    fn default() -> (r: Self)
        ensures
            call_ensures(S::ratio, (1i32, 2i32), r.confidence),
            call_ensures(S::ratio, (3i32, 5i32), r.min_volume),
            call_ensures(S::ratio, (1i32, 5i32), r.start_secs),
            call_ensures(S::ratio, (4i32, 5i32), r.stop_secs),
            functional_ratio::<S>() ==> r == usual_params::<S>(),
    {
        VadParams {
            confidence: S::ratio(1, 2),
            min_volume: S::ratio(3, 5),
            start_secs: S::ratio(1, 5),
            stop_secs: S::ratio(4, 5),
        }
    }
}

} // verus!
