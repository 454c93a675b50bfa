//! How many windows a time takes.

use vstd::prelude::*;

use crate::params::VadParams;
use crate::scalar::{count_of, not_less, product, quotient, rounded, Scalar};
use crate::state::{functional_timing, windows_in, windows_in_steps, Machine};

verus! {

/// The time that one window takes: 512 samples at 16 kHz, else 256 samples at the rate.
pub open spec fn window_time<S: Scalar>(sample_rate: u32) -> S {
    quotient(
        count_of(
            if sample_rate == 16000 {
                512usize
            } else {
                256usize
            },
        ),
        count_of(sample_rate as usize),
    )
}

/// The time of `n` windows takes `n` windows, however long it is: where `n` is held exactly, and
/// multiplying it by a window's time is undone by dividing, that many windows confirm speech, and its
/// end.
pub proof fn law_time_of_whole_windows<S: Scalar>(
    n: usize,
    sample_rate: u32,
    params: VadParams<S>,
)
    requires
        rounded(count_of::<S>(n)) == n,
        quotient(
            product(count_of::<S>(n), window_time(sample_rate)),
            window_time(sample_rate),
        ) == count_of::<S>(n),
    ensures
        windows_in(product(count_of::<S>(n), window_time(sample_rate)), sample_rate) == n,
        params.start_secs == product(count_of::<S>(n), window_time(sample_rate))
            ==> Machine::fresh(sample_rate, params).start_frames == n,
        params.stop_secs == product(count_of::<S>(n), window_time(sample_rate))
            ==> Machine::fresh(sample_rate, params).stop_frames == n,
{
}

/// A longer time never takes fewer windows, where dividing by a window's time and rounding keep the
/// order of numbers.
pub proof fn law_longer_times_take_no_fewer_windows<S: Scalar>(
    shorter: S,
    longer: S,
    sample_rate: u32,
)
    requires
        forall|x: S, y: S| #[trigger] not_less(y, x) ==> rounded(x) <= rounded(y),
        forall|x: S, y: S| #[trigger]
            not_less(y, x) ==> not_less(
                quotient(y, window_time(sample_rate)),
                quotient(x, window_time(sample_rate)),
            ),
        not_less(longer, shorter),
    ensures
        windows_in(shorter, sample_rate) <= windows_in(longer, sample_rate),
{
    assert(not_less(
        quotient(longer, window_time(sample_rate)),
        quotient(shorter, window_time(sample_rate)),
    ));
}

/// Times that are the same number of window times, rounded, take the same number of windows; and what
/// the operations count is that number.
pub proof fn law_windows_in_counts<S: Scalar>(
    secs: S,
    other: S,
    sample_rate: u32,
    rate: u32,
    n: usize,
)
    requires
        rounded(quotient(secs, window_time(sample_rate))) == rounded(
            quotient(other, window_time(rate)),
        ),
    ensures
        windows_in(secs, sample_rate) == windows_in(other, rate),
        functional_timing::<S>() && windows_in_steps(secs, sample_rate, n) ==> n == windows_in(
            secs,
            sample_rate,
        ),
{
}

/// A window holds 1024 bytes at 16 kHz, and 512 at any other rate.
pub proof fn law_window_sizes<S: Scalar>(sample_rate: u32, params: VadParams<S>)
    ensures
        Machine::fresh(sample_rate, params).bytes_required == if sample_rate == 16000 {
            1024nat
        } else {
            512nat
        },
        Machine::fresh(sample_rate, params).params == params,
        Machine::fresh(sample_rate, params).resting(),
        Machine::fresh(sample_rate, params).buffer == Seq::<u8>::empty(),
{
}

} // verus!
