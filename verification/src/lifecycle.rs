//! What holds of the states of a state machine, whatever happens to it.

use vstd::prelude::*;

use crate::history::{decided, decisions, law_configuration, moved_all, Decision, Move};
use crate::scalar::{not_less, Scalar, Wide};
use crate::state::{Machine, VadState};

verus! {

/// A machine counts windows in the state that the count is for, and in no other.
pub open spec fn settled<S: Scalar>(m: Machine<S>) -> bool {
    &&& if m.state == VadState::Starting {
        0 < m.starting_count < m.start_frames
    } else {
        m.starting_count == 0
    }
    &&& if m.state == VadState::Stopping {
        0 < m.stopping_count < m.stop_frames
    } else {
        m.stopping_count == 0
    }
}

/// Voice activity was confirmed, and its end was not.
pub open spec fn active<S: Scalar>(m: Machine<S>) -> bool {
    m.state == VadState::Speaking || m.state == VadState::Stopping
}

/// How many decisions, up to the last one, are all `speaking`.
pub open spec fn run_length<S>(ds: Seq<Decision<S>>, speaking: bool) -> nat
    decreases ds.len(),
{
    if ds.len() == 0 || ds.last().speaking != speaking {
        0
    } else {
        1 + run_length(ds.drop_last(), speaking)
    }
}

/// A run that is long enough: at least `n` windows, and at least one.
pub open spec fn confirms<S>(ds: Seq<Decision<S>>, speaking: bool, n: nat) -> bool {
    run_length(ds, speaking) >= 1 && run_length(ds, speaking) >= n
}

/// Once settled, a machine is settled as long as it is used, and no count can overflow.
pub proof fn law_settled<S: Scalar>(m: Machine<S>, moves: Seq<Move<S>>)
    requires
        settled(m),
    ensures
        settled(moved_all(m, moves)),
        moved_all(m, moves).counting(),
    decreases moves.len(),
{
    if moves.len() > 0 {
        law_settled(m, moves.drop_last());
    }
}

/// A machine that was made or reset is settled.
pub proof fn law_resting_is_settled<S: Scalar>(m: Machine<S>)
    requires
        m.resting(),
    ensures
        settled(m),
{
}

/// The states follow one another in a cycle, Quiet, Starting, Speaking, Stopping, Quiet. Starting can
/// fall back to Quiet and Stopping to Speaking; Starting and Stopping are passed over only where a
/// single window is enough.
pub proof fn law_cycle<S: Scalar>(m: Machine<S>, d: Decision<S>)
    requires
        settled(m),
    ensures
        match m.state {
            VadState::Quiet => match decided(m, d).state {
                VadState::Quiet => !d.speaking,
                VadState::Starting => d.speaking && m.start_frames > 1,
                VadState::Speaking => d.speaking && m.start_frames <= 1,
                VadState::Stopping => false,
            },
            VadState::Starting => match decided(m, d).state {
                VadState::Quiet => !d.speaking,
                VadState::Starting => d.speaking && m.starting_count + 1 < m.start_frames,
                VadState::Speaking => d.speaking && m.starting_count + 1 == m.start_frames,
                VadState::Stopping => false,
            },
            VadState::Speaking => match decided(m, d).state {
                VadState::Quiet => !d.speaking && m.stop_frames <= 1,
                VadState::Starting => false,
                VadState::Speaking => d.speaking,
                VadState::Stopping => !d.speaking && m.stop_frames > 1,
            },
            VadState::Stopping => match decided(m, d).state {
                VadState::Quiet => !d.speaking && m.stopping_count + 1 == m.stop_frames,
                VadState::Starting => false,
                VadState::Speaking => d.speaking,
                VadState::Stopping => !d.speaking && m.stopping_count + 1 < m.stop_frames,
            },
        },
{
}

/// Counting starts anew, whatever was counted before: the first window of speech after silence, and the
/// first of silence after speech, is the first one counted.
pub proof fn law_counting_starts_anew<S: Scalar>(m: Machine<S>, d: Decision<S>)
    ensures
        m.state == VadState::Quiet && d.speaking ==> if m.start_frames > 1 {
            decided(m, d).state == VadState::Starting && decided(m, d).starting_count == 1
        } else {
            decided(m, d).state == VadState::Speaking && decided(m, d).starting_count == 0
        },
        m.state == VadState::Speaking && !d.speaking ==> if m.stop_frames > 1 {
            decided(m, d).state == VadState::Stopping && decided(m, d).stopping_count == 1
        } else {
            decided(m, d).state == VadState::Quiet && decided(m, d).stopping_count == 0
        },
        m.state == VadState::Quiet && !d.speaking ==> decided(m, d).state == VadState::Quiet,
        m.state == VadState::Speaking && d.speaking ==> decided(m, d).state == VadState::Speaking,
{
}

/// The state after a window shows what it was taken for: Starting or Speaking after speech, Quiet or
/// Stopping after silence.
pub proof fn law_state_shows_the_decision<S: Scalar>(m: Machine<S>, d: Decision<S>)
    ensures
        match decided(m, d).state {
            VadState::Starting | VadState::Speaking => d.speaking,
            VadState::Quiet | VadState::Stopping => !d.speaking,
        },
{
}

/// The counts are the lengths of runs: while there is no confirmed activity, of the run of speech
/// that the decisions since the last reset end with, and else of the run of silence. They give the
/// state.
pub proof fn law_counts_are_runs<S: Scalar>(start: Machine<S>, moves: Seq<Move<S>>)
    requires
        start.resting(),
    ensures
        ({
            let m = moved_all(start, moves);
            let speech = run_length(decisions(moves), true);
            let silence = run_length(decisions(moves), false);
            if active(m) {
                &&& m.stopping_count == silence
                &&& m.state == if silence > 0 {
                    VadState::Stopping
                } else {
                    VadState::Speaking
                }
            } else {
                &&& m.starting_count == speech
                &&& m.state == if speech > 0 {
                    VadState::Starting
                } else {
                    VadState::Quiet
                }
            }
        }),
    decreases moves.len(),
{
    if moves.len() > 0 {
        let before = moves.drop_last();
        law_counts_are_runs(start, before);
        law_settled(start, before);
        match moves.last() {
            Move::Audio(chunk) => {},
            Move::Window(d) => {
                lemma_run_grows(decisions(before), d);
            },
            Move::Reset(volume) => {},
        }
    }
}

proof fn lemma_run_grows<S>(ds: Seq<Decision<S>>, d: Decision<S>)
    ensures
        run_length(ds.push(d), d.speaking) == run_length(ds, d.speaking) + 1,
        run_length(ds.push(d), !d.speaking) == 0,
{
    assert(ds.push(d).drop_last() =~= ds);
}

/// Confirmation, over any history: without confirmed activity, a window confirms it if and only if
/// the decisions since the last reset now end with a run of speech as long as the confirmation asks
/// for; with it, a window ends it if and only if they now end with such a run of silence.
pub proof fn law_confirmation<S: Scalar>(start: Machine<S>, moves: Seq<Move<S>>, d: Decision<S>)
    requires
        start.resting(),
    ensures
        ({
            let before = moved_all(start, moves);
            let after = moved_all(start, moves.push(Move::Window(d)));
            let ds = decisions(moves.push(Move::Window(d)));
            if active(before) {
                &&& !active(after) <==> confirms(ds, false, start.stop_frames)
                &&& !active(after) ==> after.state == VadState::Quiet
            } else {
                &&& active(after) <==> confirms(ds, true, start.start_frames)
                &&& active(after) ==> after.state == VadState::Speaking
            }
        }),
{
    let history = moves.push(Move::Window(d));
    assert(history.drop_last() =~= moves);
    law_configuration(start, moves);
    law_settled(start, moves);
    law_counts_are_runs(start, moves);
    lemma_run_grows(decisions(moves), d);
}

/// Without speech nothing starts: as long as no window since the last reset counts as speech, the
/// machine is Quiet.
pub proof fn law_silence_stays_quiet<S: Scalar>(start: Machine<S>, moves: Seq<Move<S>>)
    requires
        start.state == VadState::Quiet,
        forall|i: int|
            0 <= i < decisions(moves).len() ==> !(#[trigger] decisions(moves)[i]).speaking,
    ensures
        moved_all(start, moves).state == VadState::Quiet,
    decreases moves.len(),
{
    if moves.len() > 0 {
        let before = moves.drop_last();
        let ds = decisions(before);
        match moves.last() {
            Move::Audio(chunk) => {
                assert(decisions(moves) == ds);
                law_silence_stays_quiet(start, before);
            },
            Move::Window(d) => {
                assert(decisions(moves) == ds.push(d));
                assert forall|i: int| 0 <= i < ds.len() implies !(#[trigger] ds[i]).speaking by {
                    assert(decisions(moves)[i] == ds[i]);
                }
                law_silence_stays_quiet(start, before);
                assert(decisions(moves)[ds.len() as int] == d);
            },
            Move::Reset(volume) => {},
        }
    }
}

/// A window leads to Starting or Speaking if and only if its confidence and its smoothed volume both
/// reach their thresholds.
pub proof fn law_both_thresholds<S: Scalar, W: Wide<S>>(
    m: Machine<S>,
    confidence: S,
    window: Seq<u8>,
)
    ensures
        match m.advanced::<W>(confidence, window).state {
            VadState::Starting | VadState::Speaking => {
                &&& not_less(confidence, m.params.confidence)
                &&& not_less(m.volume_after::<W>(window), m.params.min_volume)
            },
            VadState::Quiet | VadState::Stopping => {
                ||| !not_less(confidence, m.params.confidence)
                ||| !not_less(m.volume_after::<W>(window), m.params.min_volume)
            },
        },
{
}

/// The volume gate: however confident the engine is, a window whose smoothed volume does not reach
/// the minimum is taken for silence, and so is one whose confidence does not reach its threshold.
pub proof fn law_gates<S: Scalar, W: Wide<S>>(m: Machine<S>, confidence: S, window: Seq<u8>)
    requires
        !not_less(m.volume_after::<W>(window), m.params.min_volume) || !not_less(
            confidence,
            m.params.confidence,
        ),
    ensures
        m.advanced::<W>(confidence, window) == decided(
            m,
            (Decision { volume: m.volume_after::<W>(window), speaking: false }),
        ),
        m.state == VadState::Quiet ==> m.advanced::<W>(confidence, window).state
            == VadState::Quiet,
{
}

} // verus!
