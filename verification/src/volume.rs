//! The volume of a window of audio.
//!
//! The root mean square of the samples relative to full scale, in decibels from -60 to 0, mapped to
//! zero to one.

use vstd::prelude::*;

use crate::pcm::{decode_samples, samples_of};
use crate::scalar::{
    common_log, difference, functional_below, functional_log10, functional_minus, functional_over,
    functional_plus, functional_ratio, functional_times, functional_wide, less, narrowed, one,
    product, quotient, ratio_of, sum, wide_count, wide_product, wide_quotient, wide_root,
    wide_sample, wide_sum, wide_zero, zero, Scalar, Wide,
};

verus! {

/// The sum of the squares of the first `n` samples, added one after the other.
pub open spec fn squares<S: Scalar, W: Wide<S>>(samples: Seq<i16>, n: int) -> W
    decreases n,
{
    if n <= 0 {
        wide_zero::<S, W>()
    } else {
        let s = wide_sample::<S, W>(samples[n - 1]);
        wide_sum::<S, W>(squares::<S, W>(samples, n - 1), wide_product::<S, W>(s, s))
    }
}

/// The root mean square of the samples, relative to full scale.
pub open spec fn level<S: Scalar, W: Wide<S>>(samples: Seq<i16>) -> S {
    let n = samples.len();
    let mean = wide_quotient::<S, W>(
        squares::<S, W>(samples, n as int),
        wide_count::<S, W>(n as usize),
    );
    quotient(narrowed::<S, W>(wide_root::<S, W>(mean)), ratio_of(0x8000, 1))
}

/// `x`, but not less than `low` and not more than `high`.
pub open spec fn limited<S: Scalar>(x: S, low: S, high: S) -> S {
    let raised = if less(x, low) {
        low
    } else {
        x
    };
    if less(high, raised) {
        high
    } else {
        raised
    }
}

/// The volume that a level stands for: zero where the level is below 1e-9, else the decibels from
/// -60 to 0 mapped to zero to one.
pub open spec fn loudness<S: Scalar>(level: S) -> S {
    if less(level, ratio_of(1, 1_000_000_000)) {
        zero()
    } else {
        let db = limited(product(ratio_of(20, 1), common_log(level)), ratio_of(-60i32, 1), zero());
        quotient(sum(db, ratio_of(60, 1)), ratio_of(60, 1))
    }
}

/// The volume of 16-bit little-endian PCM; without a sample it is zero.
pub open spec fn volume_of<S: Scalar, W: Wide<S>>(audio: Seq<u8>) -> S {
    let samples = samples_of(audio);
    if samples.len() == 0 {
        zero()
    } else {
        loudness(level::<S, W>(samples))
    }
}

/// `current * factor + prev * (1 - factor)`.
pub open spec fn smoothed<S: Scalar>(current: S, prev: S, factor: S) -> S {
    sum(product(current, factor), product(prev, difference(one(), factor)))
}

/// The operations that the volume of a level is computed with are functions.
pub open spec fn functional_loudness<S: Scalar>() -> bool {
    &&& functional_ratio::<S>()
    &&& functional_plus::<S>()
    &&& functional_times::<S>()
    &&& functional_over::<S>()
    &&& functional_log10::<S>()
    &&& functional_below::<S>()
}

/// The operations that volumes are smoothed with are functions.
pub open spec fn functional_smoothing<S: Scalar>() -> bool {
    &&& functional_ratio::<S>()
    &&& functional_plus::<S>()
    &&& functional_minus::<S>()
    &&& functional_times::<S>()
}

/// `r` comes of the operations of `current * factor + prev * (1 - factor)`.
pub open spec fn smoothing_steps<S: Scalar>(current: S, prev: S, factor: S, r: S) -> bool {
    exists|x: S, u: S, v: S, y: S|
        {
            &&& #[trigger] call_ensures(S::times, (current, factor), x)
            &&& #[trigger] call_ensures(S::ratio, (1i32, 1i32), u)
            &&& #[trigger] call_ensures(S::minus, (u, factor), v)
            &&& #[trigger] call_ensures(S::times, (prev, v), y)
            &&& call_ensures(S::plus, (x, y), r)
        }
}

/// `y` is `x` after it was held against `low` and then against `high`, and set to what it was found
/// to be below or above.
pub open spec fn limiting_steps<S: Scalar>(x: S, low: S, high: S, y: S) -> bool {
    exists|under: bool, raised: S, over: bool|
        {
            &&& #[trigger] call_ensures(S::below, (x, low), under)
            &&& raised == if under {
                low
            } else {
                x
            }
            &&& #[trigger] call_ensures(S::below, (high, raised), over)
            &&& y == if over {
                high
            } else {
                raised
            }
        }
}

/// `r` comes of the operations of `(20 * log10(level) + 60) / 60`, with the decibels held between -60
/// and 0.
pub open spec fn decibel_steps<S: Scalar>(level: S, r: S) -> bool {
    exists|low: S, high: S, twenty: S, log: S, x: S, y: S, p: S, z: S, q: S|
        {
            &&& #[trigger] call_ensures(S::ratio, (-60i32, 1i32), low)
            &&& #[trigger] call_ensures(S::ratio, (0i32, 1i32), high)
            &&& #[trigger] call_ensures(S::ratio, (20i32, 1i32), twenty)
            &&& #[trigger] call_ensures(S::log10, (level,), log)
            &&& #[trigger] call_ensures(S::times, (twenty, log), x)
            &&& #[trigger] limiting_steps(x, low, high, y)
            &&& #[trigger] call_ensures(S::ratio, (60i32, 1i32), p)
            &&& #[trigger] call_ensures(S::plus, (y, p), z)
            &&& #[trigger] call_ensures(S::ratio, (60i32, 1i32), q)
            &&& call_ensures(S::over, (z, q), r)
        }
}

/// `r` comes of the operations that turn a level into a volume.
pub open spec fn loudness_steps<S: Scalar>(level: S, r: S) -> bool {
    exists|faint: S, silent: bool|
        {
            &&& #[trigger] call_ensures(S::ratio, (1i32, 1_000_000_000i32), faint)
            &&& #[trigger] call_ensures(S::below, (level, faint), silent)
            &&& if silent {
                call_ensures(S::ratio, (0i32, 1i32), r)
            } else {
                decibel_steps(level, r)
            }
        }
}

/// `r` comes of the operations that add up the squares of the first `n` samples.
pub open spec fn squares_steps<S: Scalar, W: Wide<S>>(samples: Seq<i16>, n: int, r: W) -> bool
    decreases n,
{
    if n <= 0 {
        call_ensures(<W as Wide<S>>::zero, (), r)
    } else {
        exists|before: W, s: W, square: W|
            {
                &&& squares_steps::<S, W>(samples, n - 1, before)
                &&& #[trigger] call_ensures(<W as Wide<S>>::from_sample, (samples[n - 1],), s)
                &&& call_ensures(<W as Wide<S>>::times, (s, s), square)
                &&& #[trigger] call_ensures(<W as Wide<S>>::plus, (before, square), r)
            }
    }
}

proof fn lemma_one_more_square<S: Scalar, W: Wide<S>>(
    samples: Seq<i16>,
    n: int,
    before: W,
    s: W,
    square: W,
    r: W,
)
    requires
        n > 0,
        squares_steps::<S, W>(samples, n - 1, before),
        call_ensures(<W as Wide<S>>::from_sample, (samples[n - 1],), s),
        call_ensures(<W as Wide<S>>::times, (s, s), square),
        call_ensures(<W as Wide<S>>::plus, (before, square), r),
    ensures
        squares_steps::<S, W>(samples, n, r),
{
}

/// `r` comes of the operations that compute the level of the samples.
pub open spec fn level_steps<S: Scalar, W: Wide<S>>(samples: Seq<i16>, r: S) -> bool {
    exists|total: W, n: W, mean: W, rms: W, narrow: S, full: S|
        {
            &&& #[trigger] squares_steps::<S, W>(samples, samples.len() as int, total)
            &&& #[trigger] call_ensures(
                <W as Wide<S>>::from_count,
                (samples.len() as usize,),
                n,
            )
            &&& #[trigger] call_ensures(<W as Wide<S>>::over, (total, n), mean)
            &&& #[trigger] call_ensures(<W as Wide<S>>::sqrt, (mean,), rms)
            &&& #[trigger] call_ensures(<W as Wide<S>>::narrow, (rms,), narrow)
            &&& #[trigger] call_ensures(S::ratio, (0x8000i32, 1i32), full)
            &&& call_ensures(S::over, (narrow, full), r)
        }
}

/// `r` comes of the operations that compute the level of all samples of the audio and turn it into a
/// volume, where there is a sample; without one it is zero.
pub open spec fn volume_steps<S: Scalar, W: Wide<S>>(audio: Seq<u8>, r: S) -> bool {
    if samples_of(audio).len() == 0 {
        call_ensures(S::ratio, (0i32, 1i32), r)
    } else {
        exists|level: S| #[trigger]
            level_steps::<S, W>(samples_of(audio), level) && loudness_steps(level, r)
    }
}

/// The volume that a level stands for, zero to one.
pub fn level_volume<S: Scalar>(level: S) -> (r: S)
    ensures
        loudness_steps(level, r),
        functional_loudness::<S>() && less(level, ratio_of(1, 1_000_000_000)) ==> r == zero::<S>(),
        functional_loudness::<S>() && !less(level, ratio_of(1, 1_000_000_000)) ==> {
            let db = product(ratio_of(20, 1), common_log(level));
            let high = zero::<S>();
            let low = ratio_of::<S>(-60i32, 1);
            let sixty = ratio_of::<S>(60, 1);
            &&& less(db, low) && !less(high, low) ==> r == quotient(sum(low, sixty), sixty)
            &&& !less(db, low) && less(high, db) ==> r == quotient(sum(high, sixty), sixty)
            &&& !less(db, low) && !less(high, db) ==> r == quotient(sum(db, sixty), sixty)
        },
        functional_loudness::<S>() ==> r == loudness(level),
{
    let faint = S::ratio(1, 1_000_000_000);
    let silent = level.below(faint);
    if silent {
        return S::ratio(0, 1);
    }
    let low = S::ratio(-60, 1);
    let high = S::ratio(0, 1);
    let twenty = S::ratio(20, 1);
    let log = level.log10();
    let x = twenty.times(log);
    let under = x.below(low);
    let raised = if under { low } else { x };
    let over = high.below(raised);
    let db = if over { high } else { raised };
    assert(limiting_steps(x, low, high, db));
    let p = S::ratio(60, 1);
    let z = db.plus(p);
    let q = S::ratio(60, 1);
    let r = z.over(q);
    assert(decibel_steps(level, r));
    r
}

/// The volume of 16-bit little-endian PCM as a normalised value, zero to one.
pub fn calculate_audio_volume<S: Scalar, W: Wide<S>>(audio: &[u8]) -> (r: S)
    ensures
        volume_steps::<S, W>(audio@, r),
        functional_loudness::<S>() && functional_wide::<S, W>() ==> r == volume_of::<S, W>(
            audio@,
        ),
{
    let samples = decode_samples(audio);
    let n: usize = samples.len();
    if n == 0 {
        return S::ratio(0, 1);
    }
    let mut sum_sq: W = W::zero();
    for i in 0..n
        invariant
            n == samples@.len(),
            squares_steps::<S, W>(samples@, i as int, sum_sq),
            functional_wide::<S, W>() ==> sum_sq == squares::<S, W>(samples@, i as int),
    {
        let s: W = W::from_sample(samples[i]);
        let square: W = s.times(s);
        let ghost before = sum_sq;
        sum_sq = sum_sq.plus(square);
        proof {
            lemma_one_more_square::<S, W>(samples@, i + 1, before, s, square, sum_sq);
        }
    }
    let count = W::from_count(n);
    let mean = sum_sq.over(count);
    let root_mean = mean.sqrt();
    let narrow = root_mean.narrow();
    let full = S::ratio(0x8000, 1);
    let rms = narrow.over(full);
    assert(level_steps::<S, W>(samples@, rms));
    level_volume(rms)
}

/// Exponential smoothing: `current * factor + prev * (1 - factor)`.
pub fn exp_smoothing<S: Scalar>(current: S, prev: S, factor: S) -> (r: S)
    ensures
        smoothing_steps(current, prev, factor, r),
        functional_smoothing::<S>() ==> r == sum(
            product(current, factor),
            product(prev, difference(one(), factor)),
        ),
        functional_smoothing::<S>() ==> r == smoothed(current, prev, factor),
{
    let x = current.times(factor);
    let u = S::ratio(1, 1);
    let v = u.minus(factor);
    let y = prev.times(v);
    x.plus(y)
}

} // verus!
