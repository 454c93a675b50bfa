//! What can happen to a state machine, in any order and any number of times.
//!
//! A history is told in two ways. A [`Move`] holds the numbers that were computed on the way, so that
//! what is stated of moves holds of any numbers. A [`Call`] holds what a method was called with, and
//! the numbers follow from it.

use vstd::prelude::*;

use crate::params::VadParams;
use crate::scalar::{zero, Scalar, Wide};
use crate::state::Machine;

verus! {

/// What was found out about a window.
pub struct Decision<S> {
    /// The smoothed volume.
    pub volume: S,
    /// The window counts as speech.
    pub speaking: bool,
}

/// What can happen to a state machine.
pub enum Move<S> {
    /// Audio comes in.
    Audio(Seq<u8>),
    /// A window is decided on.
    Window(Decision<S>),
    /// It is told to forget, and goes on from this volume.
    Reset(S),
}

/// The machine after one decision.
pub open spec fn decided<S: Scalar>(m: Machine<S>, d: Decision<S>) -> Machine<S> {
    m.at_volume(d.volume).stepped(d.speaking)
}

/// The machine after one move.
pub open spec fn moved<S: Scalar>(m: Machine<S>, mv: Move<S>) -> Machine<S> {
    match mv {
        Move::Audio(chunk) => m.fed(chunk),
        Move::Window(d) => decided(m, d),
        Move::Reset(volume) => m.restarted().at_volume(volume),
    }
}

/// The machine after a series of moves.
pub open spec fn moved_all<S: Scalar>(m: Machine<S>, moves: Seq<Move<S>>) -> Machine<S>
    decreases moves.len(),
{
    if moves.len() == 0 {
        m
    } else {
        moved(moved_all(m, moves.drop_last()), moves.last())
    }
}

/// The decisions since the last reset.
pub open spec fn decisions<S>(moves: Seq<Move<S>>) -> Seq<Decision<S>>
    decreases moves.len(),
{
    if moves.len() == 0 {
        Seq::empty()
    } else {
        let before = decisions(moves.drop_last());
        match moves.last() {
            Move::Audio(chunk) => before,
            Move::Window(d) => before.push(d),
            Move::Reset(volume) => Seq::empty(),
        }
    }
}

/// A call of one of a state machine's methods.
pub enum Call<S> {
    /// `next_window` with a chunk of audio.
    NextWindow(Seq<u8>),
    /// `advance` with a confidence and a window of audio.
    Advance(S, Seq<u8>),
    /// `reset`.
    Reset,
}

/// The machine after one call.
pub open spec fn called<S: Scalar, W: Wide<S>>(m: Machine<S>, call: Call<S>) -> Machine<S> {
    match call {
        Call::NextWindow(chunk) => m.fed(chunk),
        Call::Advance(confidence, window) => m.advanced::<W>(confidence, window),
        Call::Reset => m.restarted(),
    }
}

/// The machine after a series of calls.
pub open spec fn called_all<S: Scalar, W: Wide<S>>(
    m: Machine<S>,
    calls: Seq<Call<S>>,
) -> Machine<S>
    decreases calls.len(),
{
    if calls.len() == 0 {
        m
    } else {
        called::<S, W>(called_all::<S, W>(m, calls.drop_last()), calls.last())
    }
}

/// What a call does to a machine, as a move.
pub open spec fn move_of<S: Scalar, W: Wide<S>>(m: Machine<S>, call: Call<S>) -> Move<S> {
    match call {
        Call::NextWindow(chunk) => Move::Audio(chunk),
        Call::Advance(confidence, window) => {
            let volume = m.volume_after::<W>(window);
            Move::Window(Decision { volume, speaking: m.is_speech(confidence, volume) })
        },
        Call::Reset => Move::Reset(zero()),
    }
}

/// What a series of calls does to a machine, as moves.
pub open spec fn moves_of<S: Scalar, W: Wide<S>>(
    m: Machine<S>,
    calls: Seq<Call<S>>,
) -> Seq<Move<S>>
    decreases calls.len(),
{
    if calls.len() == 0 {
        Seq::empty()
    } else {
        let before = calls.drop_last();
        moves_of::<S, W>(m, before).push(
            move_of::<S, W>(called_all::<S, W>(m, before), calls.last()),
        )
    }
}

/// Every call is a move, so what holds of any moves holds of any calls.
pub proof fn law_calls_are_moves<S: Scalar, W: Wide<S>>(m: Machine<S>, calls: Seq<Call<S>>)
    ensures
        called_all::<S, W>(m, calls) == moved_all(m, moves_of::<S, W>(m, calls)),
    decreases calls.len(),
{
    if calls.len() > 0 {
        let before = calls.drop_last();
        law_calls_are_moves::<S, W>(m, before);
        assert(moves_of::<S, W>(m, calls).drop_last() =~= moves_of::<S, W>(m, before));
    }
}

/// Whatever happens to a machine, it keeps its configuration.
pub proof fn law_configuration<S: Scalar>(m: Machine<S>, moves: Seq<Move<S>>)
    ensures
        moved_all(m, moves).params == m.params,
        moved_all(m, moves).bytes_required == m.bytes_required,
        moved_all(m, moves).start_frames == m.start_frames,
        moved_all(m, moves).stop_frames == m.stop_frames,
    decreases moves.len(),
{
    if moves.len() > 0 {
        law_configuration(m, moves.drop_last());
    }
}

/// What happens after a reset does not depend on what happened before it: nothing but the
/// configuration outlives it.
pub proof fn law_reset_forgets<S: Scalar>(
    m: Machine<S>,
    before: Seq<Move<S>>,
    volume: S,
    after: Seq<Move<S>>,
)
    ensures
        moved_all(m, before.push(Move::Reset(volume)) + after) == moved_all(
            m.restarted().at_volume(volume),
            after,
        ),
    decreases after.len(),
{
    let moves = before.push(Move::Reset(volume)) + after;
    if after.len() == 0 {
        law_configuration(m, before);
        assert(moves =~= before.push(Move::Reset(volume)));
        assert(moves.drop_last() =~= before);
        assert(moved_all(m, before).restarted() =~= m.restarted());
    } else {
        law_reset_forgets(m, before, volume, after.drop_last());
        assert(moves.drop_last() =~= before.push(Move::Reset(volume)) + after.drop_last());
        assert(moves.last() == after.last());
    }
}

/// After a reset, a machine is the one that was made, whatever was called before, and so it is after
/// any further calls: it gives out the same windows and takes the same states.
pub proof fn law_reset_machine_is_a_new_one<S: Scalar, W: Wide<S>>(
    sample_rate: u32,
    params: VadParams<S>,
    before: Seq<Call<S>>,
    after: Seq<Call<S>>,
)
    ensures
        called_all::<S, W>(
            Machine::fresh(sample_rate, params),
            before.push(Call::Reset) + after,
        ) == called_all::<S, W>(Machine::fresh(sample_rate, params), after),
    decreases after.len(),
{
    let fresh = Machine::fresh(sample_rate, params);
    let calls = before.push(Call::Reset) + after;
    if after.len() == 0 {
        law_calls_are_moves::<S, W>(fresh, before);
        law_configuration(fresh, moves_of::<S, W>(fresh, before));
        assert(calls =~= before.push(Call::Reset));
        assert(calls.drop_last() =~= before);
        assert(called_all::<S, W>(fresh, before).restarted() =~= fresh);
    } else {
        law_reset_machine_is_a_new_one::<S, W>(sample_rate, params, before, after.drop_last());
        assert(calls.drop_last() =~= before.push(Call::Reset) + after.drop_last());
        assert(calls.last() == after.last());
    }
}

/// A second reset changes nothing.
pub proof fn law_second_reset_changes_nothing<S: Scalar>(m: Machine<S>)
    ensures
        m.restarted().restarted() == m.restarted(),
{
}

} // verus!
