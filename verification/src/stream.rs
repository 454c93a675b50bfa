//! What holds of the windows that are cut from a stream of audio, whatever else happens to the
//! state machine meanwhile.

use vstd::prelude::*;

use crate::history::{law_configuration, moved_all, Move};
use crate::scalar::Scalar;
use crate::state::Machine;

verus! {

/// The pieces, one behind the other.
pub open spec fn joined(pieces: Seq<Seq<u8>>) -> Seq<u8>
    decreases pieces.len(),
{
    if pieces.len() == 0 {
        Seq::empty()
    } else {
        joined(pieces.drop_last()) + pieces.last()
    }
}

/// The audio since the last reset, behind what was buffered at the start.
pub open spec fn heard<S: Scalar>(m: Machine<S>, moves: Seq<Move<S>>) -> Seq<u8>
    decreases moves.len(),
{
    if moves.len() == 0 {
        m.buffer
    } else {
        let before = heard(m, moves.drop_last());
        match moves.last() {
            Move::Audio(chunk) => before + chunk,
            Move::Window(d) => before,
            Move::Reset(volume) => Seq::empty(),
        }
    }
}

/// The windows given out since the last reset.
pub open spec fn windows<S: Scalar>(m: Machine<S>, moves: Seq<Move<S>>) -> Seq<Seq<u8>>
    decreases moves.len(),
{
    if moves.len() == 0 {
        Seq::empty()
    } else {
        let before = windows(m, moves.drop_last());
        match moves.last() {
            Move::Audio(chunk) => match moved_all(m, moves.drop_last()).window(chunk) {
                Some(window) => before.push(window),
                None => before,
            },
            Move::Window(d) => before,
            Move::Reset(volume) => Seq::empty(),
        }
    }
}

/// No byte is lost, repeated or moved: the windows since the last reset, one behind the other, and
/// then what is still buffered, are the audio that came in.
pub proof fn law_no_audio_is_lost<S: Scalar>(m: Machine<S>, moves: Seq<Move<S>>)
    ensures
        joined(windows(m, moves)) + moved_all(m, moves).buffer == heard(m, moves),
    decreases moves.len(),
{
    if moves.len() == 0 {
        assert(joined(windows(m, moves)) + m.buffer =~= m.buffer);
    } else {
        let before = moved_all(m, moves.drop_last());
        let given = windows(m, moves.drop_last());
        law_no_audio_is_lost(m, moves.drop_last());
        match moves.last() {
            Move::Audio(chunk) => {
                let all = before.buffer + chunk;
                let n = before.bytes_required as int;
                assert(joined(given) + all =~= (joined(given) + before.buffer) + chunk);
                if all.len() >= n {
                    assert(given.push(all.take(n)).drop_last() =~= given);
                    assert(joined(given.push(all.take(n))) == joined(given) + all.take(n));
                    assert(joined(given) + all.take(n) + all.skip(n) =~= joined(given) + all);
                }
            },
            Move::Window(d) => {},
            Move::Reset(volume) => {
                assert(joined(windows(m, moves)) + moved_all(m, moves).buffer =~= Seq::empty());
            },
        }
    }
}

/// Every window has the same length.
pub proof fn law_windows_are_full<S: Scalar>(m: Machine<S>, moves: Seq<Move<S>>, i: int)
    requires
        0 <= i < windows(m, moves).len(),
    ensures
        windows(m, moves)[i].len() == m.bytes_required,
    decreases moves.len(),
{
    law_configuration(m, moves.drop_last());
    if i < windows(m, moves.drop_last()).len() {
        law_windows_are_full(m, moves.drop_last(), i);
    }
}

/// Chunks of at most a window's length never pile up: less than a window stays buffered.
pub proof fn law_no_backlog<S: Scalar>(m: Machine<S>, moves: Seq<Move<S>>)
    requires
        m.buffer.len() < m.bytes_required,
        forall|i: int|
            0 <= i < moves.len() ==> match #[trigger] moves[i] {
                Move::Audio(chunk) => chunk.len() <= m.bytes_required,
                _ => true,
            },
    ensures
        moved_all(m, moves).buffer.len() < m.bytes_required,
    decreases moves.len(),
{
    if moves.len() > 0 {
        let before = moves.drop_last();
        assert forall|i: int| 0 <= i < before.len() implies match #[trigger] before[i] {
            Move::Audio(chunk) => chunk.len() <= m.bytes_required,
            _ => true,
        } by {
            assert(before[i] == moves[i]);
        }
        law_no_backlog(m, before);
        law_configuration(m, before);
        assert(moves.last() == moves[moves.len() - 1]);
    }
}

/// A window is given out whenever there is enough audio for one, and only that, whatever the size of
/// the chunk; it is the oldest audio, the rest stays buffered, and nothing else changes.
pub proof fn law_window_whenever_there_is_enough<S: Scalar>(m: Machine<S>, chunk: Seq<u8>)
    ensures
        m.window(chunk) is Some <==> m.buffer.len() + chunk.len() >= m.bytes_required,
        match m.window(chunk) {
            Some(window) => {
                &&& window.len() == m.bytes_required
                &&& window + m.fed(chunk).buffer == m.buffer + chunk
            },
            None => m.fed(chunk).buffer == m.buffer + chunk,
        },
        m.fed(chunk) == (Machine { buffer: m.fed(chunk).buffer, ..m }),
{
    let all = m.buffer + chunk;
    let n = m.bytes_required as int;
    if all.len() >= n {
        assert(all.take(n) + all.skip(n) =~= all);
    }
}

proof fn lemma_window_bounds(i: int, k: int, n: int)
    requires
        0 <= i < k,
        0 <= n,
    ensures
        0 <= i * n <= (i + 1) * n <= k * n,
{
    assert(0 <= i * n && i * n + n == (i + 1) * n && (i + 1) * n <= k * n) by (nonlinear_arith)
        requires
            0 <= i < k,
            0 <= n,
    ;
}

/// The windows are the audio in order: window `i` since the last reset holds the bytes from the `i`th
/// window's length on, and what is buffered is all that comes behind the windows, however the audio
/// was cut into chunks.
pub proof fn law_windows_are_the_audio_in_order<S: Scalar>(m: Machine<S>, moves: Seq<Move<S>>)
    ensures
        ({
            let n = m.bytes_required as int;
            let given = windows(m, moves);
            let audio = heard(m, moves);
            &&& 0 <= given.len() * n <= audio.len()
            &&& moved_all(m, moves).buffer == audio.skip(given.len() * n)
            &&& forall|i: int|
                0 <= i < given.len() ==> #[trigger] given[i] == audio.subrange(i * n, (i + 1) * n)
        }),
    decreases moves.len(),
{
    let n = m.bytes_required as int;
    let given = windows(m, moves);
    let audio = heard(m, moves);
    if moves.len() == 0 {
        assert(given.len() * n == 0) by (nonlinear_arith)
            requires
                given.len() == 0,
        ;
        assert(audio.skip(0) =~= audio);
    } else {
        let old_given = windows(m, moves.drop_last());
        let old_audio = heard(m, moves.drop_last());
        let before = moved_all(m, moves.drop_last());
        law_windows_are_the_audio_in_order(m, moves.drop_last());
        law_configuration(m, moves.drop_last());
        let k = old_given.len() as int;
        assert((k + 1) * n == k * n + n) by (nonlinear_arith);
        match moves.last() {
            Move::Audio(chunk) => {
                let all = before.buffer + chunk;
                assert(audio == old_audio + chunk);
                assert(all =~= audio.skip(k * n));
                assert forall|i: int| 0 <= i < k implies #[trigger] old_given[i]
                    == audio.subrange(i * n, (i + 1) * n) by {
                    lemma_window_bounds(i, k, n);
                    assert(old_audio.subrange(i * n, (i + 1) * n) =~= audio.subrange(
                        i * n,
                        (i + 1) * n,
                    ));
                }
                if all.len() >= n {
                    assert(given == old_given.push(all.take(n)));
                    assert(all.take(n) =~= audio.subrange(k * n, (k + 1) * n));
                    assert(all.skip(n) =~= audio.skip((k + 1) * n));
                    assert(given.len() == k + 1);
                    assert(given.len() * n == (k + 1) * n);
                    assert(0 <= given.len() * n <= audio.len());
                    assert(moved_all(m, moves).buffer == all.skip(n));
                    assert(moved_all(m, moves).buffer == audio.skip(given.len() * n));
                    assert forall|i: int| 0 <= i < given.len() implies #[trigger] given[i]
                        == audio.subrange(i * n, (i + 1) * n) by {
                        if i < k {
                            assert(given[i] == old_given[i]);
                        }
                    }
                } else {
                    assert(given == old_given);
                    assert(all =~= audio.skip(k * n));
                    assert(moved_all(m, moves).buffer == audio.skip(given.len() * n));
                }
            },
            Move::Window(d) => {
                assert(given == old_given && audio == old_audio);
                assert(moved_all(m, moves).buffer == before.buffer);
            },
            Move::Reset(volume) => {
                assert(moved_all(m, moves).buffer == Seq::<u8>::empty());
                assert(given.len() * n == 0) by (nonlinear_arith)
                    requires
                        given.len() == 0,
                ;
                assert(audio.skip(0) =~= audio);
            },
        }
    }
}

/// However the audio was cut into chunks, and whatever else happened meanwhile: of the same audio two
/// machines that buffer less than a window have given out the same windows.
pub proof fn law_chunks_do_not_matter<S: Scalar>(
    m: Machine<S>,
    moves: Seq<Move<S>>,
    others: Seq<Move<S>>,
)
    requires
        heard(m, moves) == heard(m, others),
        moved_all(m, moves).buffer.len() < m.bytes_required,
        moved_all(m, others).buffer.len() < m.bytes_required,
    ensures
        windows(m, moves) == windows(m, others),
        moved_all(m, moves).buffer == moved_all(m, others).buffer,
{
    let n = m.bytes_required as int;
    let x = windows(m, moves);
    let y = windows(m, others);
    law_windows_are_the_audio_in_order(m, moves);
    law_windows_are_the_audio_in_order(m, others);
    let k = x.len() as int;
    let l = y.len() as int;
    let t = heard(m, moves).len() as int;
    assert(k == l) by (nonlinear_arith)
        requires
            0 < n,
            k * n <= t < k * n + n,
            l * n <= t < l * n + n,
    ;
    assert(x =~= y);
}

/// Calls of `next_window` with nothing in them.
pub open spec fn empty_chunks<S>(k: nat) -> Seq<Move<S>> {
    Seq::new(k, |i: int| Move::Audio(Seq::empty()))
}

/// A backlog is given out: with `k` whole windows buffered, each of the next `k` calls gives out the
/// next window though no audio comes in, and then less than a window is left.
pub proof fn law_backlog_is_given_out<S: Scalar>(m: Machine<S>, k: nat)
    requires
        k * m.bytes_required <= m.buffer.len(),
    ensures
        windows(m, empty_chunks(k)).len() == k,
        moved_all(m, empty_chunks(k)).buffer == m.buffer.skip((k * m.bytes_required) as int),
        forall|i: int|
            0 <= i < k ==> #[trigger] windows(m, empty_chunks(k))[i] == m.buffer.subrange(
                i * m.bytes_required,
                (i + 1) * m.bytes_required,
            ),
        m.buffer.len() < (k + 1) * m.bytes_required ==> {
            &&& moved_all(m, empty_chunks(k)).buffer.len() < m.bytes_required
            &&& moved_all(m, empty_chunks(k)).window(Seq::empty()) is None
        },
    decreases k,
{
    let n = m.bytes_required as int;
    let moves = empty_chunks::<S>(k);
    if k > 0 {
        let less = (k - 1) as nat;
        assert(moves.drop_last() =~= empty_chunks::<S>(less));
        assert(less * n + n == k * n && 0 <= less * n) by (nonlinear_arith)
            requires
                less == k - 1,
                0 <= n,
                1 <= k,
        ;
        law_backlog_is_given_out(m, less);
        law_configuration(m, moves.drop_last());
        let before = moved_all(m, moves.drop_last());
        assert(before.buffer + Seq::<u8>::empty() =~= before.buffer);
        assert(before.buffer.len() >= n);
        assert(windows(m, moves) == windows(m, moves.drop_last()).push(before.buffer.take(n)));
    } else {
        assert(0 * n == 0);
        assert(m.buffer.skip(0) =~= m.buffer);
    }
    law_windows_are_the_audio_in_order(m, moves);
    lemma_nothing_heard(m, k);
    law_configuration(m, moves);
    let after = moved_all(m, moves);
    assert((k + 1) * n == k * n + n) by (nonlinear_arith);
    assert(after.buffer + Seq::<u8>::empty() =~= after.buffer);
}

proof fn lemma_nothing_heard<S: Scalar>(m: Machine<S>, k: nat)
    ensures
        heard(m, empty_chunks(k)) == m.buffer,
    decreases k,
{
    if k > 0 {
        assert(empty_chunks::<S>(k).drop_last() =~= empty_chunks::<S>((k - 1) as nat));
        lemma_nothing_heard(m, (k - 1) as nat);
        assert(m.buffer + Seq::<u8>::empty() =~= m.buffer);
    }
}

} // verus!
