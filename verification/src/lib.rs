//! Voice activity detection with a small neural network, and a state machine that turns its
//! confidence into speech that starts and stops.
//!
//! [`SileroVad`] gives the confidence that a window of audio holds speech. [`StateMachine`] cuts a
//! stream of audio into windows, holds the confidence and the volume of each against thresholds, and
//! follows the cycle Quiet, Starting, Speaking, Stopping, Quiet. Both are written over a type of
//! numbers, [`scalar::Scalar`].

pub mod agreement;
pub mod bounds;
pub mod encoding;
pub mod engine;
pub mod functions;
pub mod history;
pub mod layers;
pub mod lifecycle;
pub mod network;
pub mod params;
pub mod pcm;
pub mod power;
pub mod range;
pub mod response;
pub mod scalar;
pub mod simd;
pub mod state;
pub mod stream;
pub mod text;
pub mod timing;
pub mod vad;
pub mod volume;
pub mod whole;

pub use engine::{BYTES_PER_WINDOW, SAMPLES_PER_WINDOW};
pub use params::VadParams;
pub use scalar::{Scalar, Wide};
pub use state::{StateMachine, VadState};
pub use vad::SileroVad;
pub use volume::{calculate_audio_volume, exp_smoothing};
