//! What the volume says of the audio, and how the state machine follows it.

use vstd::prelude::*;

use crate::pcm::samples_of;
use crate::power::{exact_squares, law_volume_of_reordered_samples, power};
use crate::range::{comparable, comparing, law_loudness_range, orderly};
use crate::scalar::{
    common_log, difference, less, narrowed, not_less, one, product, quotient, ratio_of, sum,
    wide_count, wide_quotient, wide_root, zero, Scalar, Wide,
};
use crate::state::{Machine, VadState};
use crate::volume::{level, limited, loudness, smoothed, squares, volume_of};

verus! {

/// Means and roots of squares come out exact: `n` times a square, divided by `n`, is the square, its
/// root is what was squared, and in the narrower type that is what `sized` gives.
pub open spec fn exact_means<S: Scalar, W: Wide<S>>(
    limit: int,
    whole: spec_fn(int) -> W,
    sized: spec_fn(int) -> S,
) -> bool {
    &&& forall|k: int, n: int|
        0 <= k <= 0x8000 && 0 < n <= usize::MAX && n * (k * k) <= limit ==> #[trigger] wide_quotient::<
            S,
            W,
        >(whole(n * (k * k)), wide_count::<S, W>(n as usize)) == whole(k * k)
    &&& forall|k: int|
        0 <= k <= 0x8000 ==> wide_root::<S, W>(whole(k * k)) == #[trigger] whole(k)
    &&& forall|k: int| 0 <= k <= 0x8000 ==> narrowed::<S, W>(#[trigger] whole(k)) == sized(k)
}

/// The samples are all of size `k`.
pub open spec fn of_size(samples: Seq<i16>, k: int) -> bool {
    forall|i: int| 0 <= i < samples.len() ==> #[trigger] samples[i] == k || samples[i] == -k
}

proof fn lemma_power_of_size(samples: Seq<i16>, k: int)
    requires
        of_size(samples, k),
    ensures
        power(samples) == samples.len() * (k * k),
    decreases samples.len(),
{
    if samples.len() == 0 {
        assert(samples.len() * (k * k) == 0) by (nonlinear_arith)
            requires
                samples.len() == 0,
        ;
    } else {
        let n = samples.len() as int;
        let rest = samples.drop_last();
        assert forall|i: int| 0 <= i < rest.len() implies #[trigger] rest[i] == k || rest[i]
            == -k by {
            assert(rest[i] == samples[i]);
        }
        lemma_power_of_size(rest, k);
        let s = samples[n - 1] as int;
        assert(s == k || s == -k);
        assert(s * s == k * k) by (nonlinear_arith)
            requires
                s == k || s == -k,
        ;
        assert((n - 1) * (k * k) + k * k == n * (k * k)) by (nonlinear_arith);
    }
}

proof fn lemma_squares<S: Scalar, W: Wide<S>>(
    limit: int,
    whole: spec_fn(int) -> W,
    samples: Seq<i16>,
    n: int,
)
    requires
        exact_squares::<S, W>(limit, whole),
        0 <= n <= samples.len(),
        power(samples.take(n)) <= limit,
    ensures
        squares::<S, W>(samples, n) == whole(power(samples.take(n))),
        0 <= power(samples.take(n)),
    decreases n,
{
    if n > 0 {
        let s = samples[n - 1];
        assert(samples.take(n).drop_last() =~= samples.take(n - 1));
        assert(0 <= s * s) by (nonlinear_arith);
        lemma_squares::<S, W>(limit, whole, samples, n - 1);
    }
}

/// The volume of a tone of any size: of samples that are all `k` or `-k` it is the volume of the level
/// that `k` is of full scale, however many samples there are.
pub proof fn law_volume_of_a_tone<S: Scalar, W: Wide<S>>(
    limit: int,
    whole: spec_fn(int) -> W,
    sized: spec_fn(int) -> S,
    audio: Seq<u8>,
    k: int,
)
    requires
        exact_squares::<S, W>(limit, whole),
        exact_means::<S, W>(limit, whole, sized),
        0 <= k <= 0x8000,
        0 < samples_of(audio).len() <= usize::MAX,
        of_size(samples_of(audio), k),
        samples_of(audio).len() * (k * k) <= limit,
    ensures
        level::<S, W>(samples_of(audio)) == quotient(sized(k), ratio_of(0x8000, 1)),
        volume_of::<S, W>(audio) == loudness(quotient(sized(k), ratio_of(0x8000, 1))),
{
    let samples = samples_of(audio);
    let n = samples.len() as int;
    lemma_power_of_size(samples, k);
    assert(samples.take(n) =~= samples);
    lemma_squares::<S, W>(limit, whole, samples, n);
    assert(wide_quotient::<S, W>(whole(n * (k * k)), wide_count::<S, W>(n as usize)) == whole(
        k * k,
    ));
    assert(wide_root::<S, W>(whole(k * k)) == whole(k));
    assert(narrowed::<S, W>(whole(k)) == sized(k));
}

/// Constants are ordered, added and divided as the whole numbers and fractions that they stand for.
pub open spec fn whole_decibels<S: Scalar>() -> bool {
    &&& forall|m: i32, n: i32|
        -0x100_0000 <= m <= 0x100_0000 && -0x100_0000 <= n <= 0x100_0000 ==> #[trigger] less::<S>(
            ratio_of(m, 1),
            ratio_of(n, 1),
        ) == (m < n)
    &&& forall|n: i32|
        -60 <= n <= 0 ==> sum::<S>(#[trigger] ratio_of(n, 1), ratio_of(60, 1)) == ratio_of::<S>(
            (n + 60) as i32,
            1,
        )
    &&& forall|n: i32|
        0 <= n <= 60 ==> quotient::<S>(#[trigger] ratio_of(n, 1), ratio_of(60, 1)) == ratio_of::<S>(
            n,
            60,
        )
}

/// A level of a whole number of decibels has the volume of that number above -60, in sixtieths: at -60
/// and below none, at 0 and above all.
pub proof fn law_volume_of_whole_decibels<S: Scalar>(level: S, n: i32)
    requires
        whole_decibels::<S>(),
        -0x100_0000 <= n <= 0x100_0000,
        !less(level, ratio_of(1, 1_000_000_000)),
        product(ratio_of(20, 1), common_log(level)) == ratio_of::<S>(n, 1),
    ensures
        loudness(level) == ratio_of::<S>(
            if n <= -60 {
                0
            } else if n >= 0 {
                60
            } else {
                (n + 60) as i32
            },
            60,
        ),
{
    let m: i32 = if n <= -60 {
        -60i32
    } else if n >= 0 {
        0i32
    } else {
        n
    };
    assert(less::<S>(ratio_of(n, 1), ratio_of(-60i32, 1)) == (n < -60));
    assert(less::<S>(ratio_of(0, 1), ratio_of(n, 1)) == (0 < n));
    assert(less::<S>(ratio_of(0, 1), ratio_of(-60i32, 1)) == false);
    assert(limited::<S>(ratio_of(n, 1), ratio_of(-60i32, 1), zero()) == ratio_of::<S>(m, 1));
    assert(sum::<S>(ratio_of(m, 1), ratio_of(60, 1)) == ratio_of::<S>((m + 60) as i32, 1));
    let k: i32 = (m + 60) as i32;
    assert(quotient::<S>(ratio_of(k, 1), ratio_of(60, 1)) == ratio_of::<S>(k, 60));
}

/// A level too faint to be told from silence has no volume.
pub proof fn law_faint_levels<S: Scalar>(level: S)
    requires
        less(level, ratio_of(1, 1_000_000_000)),
    ensures
        loudness(level) == zero::<S>(),
{
}

/// The order of numbers that compare is kept by the operations that turn a level into a volume.
pub open spec fn rising<S: Scalar>() -> bool {
    let faint = ratio_of::<S>(1, 1_000_000_000);
    let low = ratio_of::<S>(-60i32, 1);
    let sixty = ratio_of::<S>(60, 1);
    &&& forall|x: S, y: S| #[trigger] not_less(y, x) ==> comparable(x) && comparable(y)
    &&& forall|x: S, y: S, z: S| #[trigger]
        not_less(y, x) && #[trigger] not_less(z, y) ==> not_less(z, x)
    &&& comparable(faint)
    &&& forall|x: S, y: S|
        not_less(y, x) && not_less(x, faint) ==> #[trigger] not_less(common_log(y), common_log(x))
    &&& forall|x: S, y: S|
        not_less(y, x) ==> #[trigger] not_less(
            product(ratio_of(20, 1), y),
            product(ratio_of(20, 1), x),
        )
    &&& forall|x: S, y: S| not_less(y, x) ==> #[trigger] not_less(sum(y, sixty), sum(x, sixty))
    &&& forall|x: S, y: S|
        not_less(y, x) ==> #[trigger] not_less(quotient(y, sixty), quotient(x, sixty))
    &&& not_less(zero(), low)
}

/// A higher level never has a lower volume.
pub proof fn law_higher_levels_are_no_quieter<S: Scalar>(lower: S, higher: S)
    requires
        orderly::<S>(),
        comparing::<S>(),
        rising::<S>(),
        not_less(higher, lower),
    ensures
        not_less(loudness(higher), loudness(lower)),
{
    let faint = ratio_of::<S>(1, 1_000_000_000);
    let low = ratio_of::<S>(-60i32, 1);
    let sixty = ratio_of::<S>(60, 1);
    assert(comparable(lower) && comparable(higher));
    law_loudness_range(lower);
    law_loudness_range(higher);
    if less(lower, faint) {
        assert(loudness(lower) == zero::<S>());
    } else {
        assert(not_less(lower, faint));
        assert(not_less(higher, faint));
        assert(!less(higher, faint));
        let x = product(ratio_of(20, 1), common_log(lower));
        let y = product(ratio_of(20, 1), common_log(higher));
        assert(not_less(common_log(higher), common_log(lower)));
        assert(not_less(y, x));
        assert(comparable(x) && comparable(y));
        let p = limited(x, low, zero());
        let q = limited(y, low, zero());
        assert(comparable(zero::<S>()) && comparable(low));
        assert(not_less(q, p)) by {
            assert(less(x, low) == !not_less(x, low));
            assert(less(y, low) == !not_less(y, low));
            assert(less(zero(), x) == !not_less(zero(), x));
            assert(less(zero(), y) == !not_less(zero(), y));
            assert(less(zero(), low) == !not_less::<S>(zero(), low));
            assert(not_less(y, x) && not_less::<S>(zero(), zero()) && not_less(low, low));
            if less(x, low) {
                assert(p == low);
                if less(y, low) {
                    assert(q == low);
                } else if less(zero(), y) {
                    assert(q == zero::<S>());
                }
            } else {
                assert(not_less(y, low));
                if less(zero(), x) {
                    assert(p == zero::<S>());
                    if !less(zero(), y) {
                        assert(not_less(zero(), x));
                    }
                } else if less(zero(), y) {
                    assert(q == zero::<S>());
                }
            }
        }
        assert(not_less(sum(q, sixty), sum(p, sixty)));
    }
}

/// The level of `n` samples whose squares add up to `m`.
pub open spec fn level_of<S: Scalar, W: Wide<S>>(whole: spec_fn(int) -> W, m: int, n: int) -> S {
    quotient(
        narrowed::<S, W>(
            wide_root::<S, W>(wide_quotient::<S, W>(whole(m), wide_count::<S, W>(n as usize))),
        ),
        ratio_of(0x8000, 1),
    )
}

/// The level is that of the sum of the squares of all samples, and of how many there are: audio with as
/// many samples and the same sum has the same volume.
pub proof fn law_level_is_of_the_power<S: Scalar, W: Wide<S>>(
    limit: int,
    whole: spec_fn(int) -> W,
    audio: Seq<u8>,
    other: Seq<u8>,
)
    requires
        exact_squares::<S, W>(limit, whole),
        power(samples_of(audio)) <= limit,
        samples_of(audio).len() == samples_of(other).len(),
        power(samples_of(audio)) == power(samples_of(other)),
    ensures
        level::<S, W>(samples_of(audio)) == level_of::<S, W>(
            whole,
            power(samples_of(audio)),
            samples_of(audio).len() as int,
        ),
        volume_of::<S, W>(audio) == volume_of::<S, W>(other),
{
    let x = samples_of(audio);
    let y = samples_of(other);
    let n = x.len() as int;
    assert(x.take(n) =~= x && y.take(n) =~= y);
    lemma_squares::<S, W>(limit, whole, x, n);
    lemma_squares::<S, W>(limit, whole, y, n);
}

/// Every sample counts: of as many samples, those with the larger sum of squares are never quieter.
pub proof fn law_more_power_is_no_quieter<S: Scalar, W: Wide<S>>(
    limit: int,
    whole: spec_fn(int) -> W,
    quieter: Seq<u8>,
    louder: Seq<u8>,
)
    requires
        orderly::<S>(),
        comparing::<S>(),
        rising::<S>(),
        exact_squares::<S, W>(limit, whole),
        forall|m: int, k: int, n: int|
            0 <= m <= k <= limit && 0 < n <= usize::MAX ==> #[trigger] not_less(
                level_of::<S, W>(whole, k, n),
                level_of::<S, W>(whole, m, n),
            ),
        samples_of(quieter).len() == samples_of(louder).len(),
        samples_of(quieter).len() <= usize::MAX,
        power(samples_of(quieter)) <= power(samples_of(louder)) <= limit,
    ensures
        not_less(volume_of::<S, W>(louder), volume_of::<S, W>(quieter)),
{
    let x = samples_of(quieter);
    let y = samples_of(louder);
    let n = x.len() as int;
    assert(x.take(n) =~= x && y.take(n) =~= y);
    lemma_squares::<S, W>(limit, whole, x, n);
    lemma_squares::<S, W>(limit, whole, y, n);
    if n > 0 {
        assert(level::<S, W>(x) == level_of::<S, W>(whole, power(x), n));
        assert(level::<S, W>(y) == level_of::<S, W>(whole, power(y), n));
        law_higher_levels_are_no_quieter(level::<S, W>(x), level::<S, W>(y));
    } else {
        assert(comparable(zero::<S>()));
    }
}

/// The volume depends on the samples alone.
pub proof fn law_same_samples_same_volume<S: Scalar, W: Wide<S>>(x: Seq<u8>, y: Seq<u8>)
    requires
        samples_of(x) == samples_of(y),
    ensures
        volume_of::<S, W>(x) == volume_of::<S, W>(y),
        samples_of(x).len() == 0 ==> volume_of::<S, W>(x) == zero::<S>(),
        samples_of(x).len() > 0 ==> volume_of::<S, W>(x) == loudness(
            level::<S, W>(samples_of(x)),
        ),
{
}

/// The machine hears a window by its volume, that of the whole window: windows of the same volume and
/// confidence do the same to it.
pub proof fn law_same_volume_same_machine<S: Scalar, W: Wide<S>>(
    m: Machine<S>,
    confidence: S,
    x: Seq<u8>,
    y: Seq<u8>,
)
    requires
        volume_of::<S, W>(x) == volume_of::<S, W>(y),
    ensures
        m.volume_after::<W>(x) == m.volume_after::<W>(y),
        m.advanced::<W>(confidence, x) == m.advanced::<W>(confidence, y),
{
}

/// Windows whose samples are the same in another order do the same to a machine.
pub proof fn law_reordered_window_same_machine<S: Scalar, W: Wide<S>>(
    limit: int,
    whole: spec_fn(int) -> W,
    m: Machine<S>,
    confidence: S,
    x: Seq<u8>,
    y: Seq<u8>,
)
    requires
        exact_squares::<S, W>(limit, whole),
        samples_of(x).to_multiset() == samples_of(y).to_multiset(),
        power(samples_of(x)) <= limit,
    ensures
        m.advanced::<W>(confidence, x) == m.advanced::<W>(confidence, y),
{
    law_volume_of_reordered_samples::<S, W>(limit, whole, x, y);
}

/// After silence, the smoothed volume is a fifth of the volume of the window; after any volume, a
/// window without volume leaves four fifths of it; and a steady volume stays. (Each where adding zero
/// to the share leaves it as it is, and the two shares of a steady volume add up to it.)
pub proof fn law_smoothed_volume<S: Scalar, W: Wide<S>>(m: Machine<S>, window: Seq<u8>)
    requires
        product::<S>(zero(), ratio_of(1, 5)) == zero::<S>(),
        product::<S>(zero(), difference(one(), ratio_of(1, 5))) == zero::<S>(),
    ensures
        ({
            let v = volume_of::<S, W>(window);
            let fifth = product(v, ratio_of(1, 5));
            m.prev_volume == zero::<S>() && sum(fifth, zero()) == fifth
                ==> m.volume_after::<W>(window) == fifth
        }),
        ({
            let rest = product(m.prev_volume, difference(one(), ratio_of(1, 5)));
            volume_of::<S, W>(window) == zero::<S>() && sum(zero(), rest) == rest
                ==> m.volume_after::<W>(window) == rest
        }),
        volume_of::<S, W>(window) == m.prev_volume && sum(
            product(m.prev_volume, ratio_of(1, 5)),
            product(m.prev_volume, difference(one(), ratio_of(1, 5))),
        ) == m.prev_volume ==> m.volume_after::<W>(window) == m.prev_volume,
{
}

/// Smoothing with a factor of one gives the new value, and with a factor of zero it keeps the old one,
/// where the other value's share comes to nothing.
pub proof fn law_smoothing_factors<S: Scalar>(current: S, prev: S, factor: S)
    ensures
        product(prev, difference(one(), factor)) == zero::<S>() && sum(
            product(current, factor),
            zero(),
        ) == current ==> smoothed(current, prev, factor) == current,
        product(current, factor) == zero::<S>() && sum(
            zero(),
            product(prev, difference(one(), factor)),
        ) == prev ==> smoothed(current, prev, factor) == prev,
{
}

/// A louder window, and a louder past, never give a lower smoothed volume, where the two products and
/// the sum keep the order of numbers.
pub proof fn law_smoothing_keeps_order<S: Scalar, W: Wide<S>>(
    m: Machine<S>,
    other: Machine<S>,
    window: Seq<u8>,
    louder: Seq<u8>,
)
    requires
        forall|x: S, y: S|
            not_less(y, x) ==> #[trigger] not_less(
                product(y, ratio_of(1, 5)),
                product(x, ratio_of(1, 5)),
            ),
        forall|x: S, y: S|
            not_less(y, x) ==> #[trigger] not_less(
                product(y, difference(one(), ratio_of(1, 5))),
                product(x, difference(one(), ratio_of(1, 5))),
            ),
        forall|v: S, w: S, x: S, y: S|
            not_less(w, v) && not_less(y, x) && not_less(v, zero()) && not_less(x, zero())
                ==> #[trigger] not_less(sum(w, y), sum(v, x)),
        product::<S>(zero(), ratio_of(1, 5)) == zero::<S>(),
        product::<S>(zero(), difference(one(), ratio_of(1, 5))) == zero::<S>(),
        not_less(volume_of::<S, W>(window), zero()),
        not_less(m.prev_volume, zero()),
        not_less(volume_of::<S, W>(louder), volume_of::<S, W>(window)),
        not_less(other.prev_volume, m.prev_volume),
    ensures
        not_less(other.volume_after::<W>(louder), m.volume_after::<W>(window)),
{
    let v = volume_of::<S, W>(window);
    assert(not_less(product(v, ratio_of(1, 5)), product(zero(), ratio_of(1, 5))));
    assert(not_less(
        product(m.prev_volume, difference(one(), ratio_of(1, 5))),
        product(zero(), difference(one(), ratio_of(1, 5))),
    ));
}

/// What a window changes: the smoothed volume becomes that after the window, and of the rest only the
/// state and its counts can change.
pub proof fn law_what_a_window_changes<S: Scalar, W: Wide<S>>(
    m: Machine<S>,
    confidence: S,
    window: Seq<u8>,
)
    ensures
        ({
            let after = m.advanced::<W>(confidence, window);
            &&& after.prev_volume == m.volume_after::<W>(window)
            &&& after.buffer == m.buffer
            &&& after.params == m.params
            &&& after.bytes_required == m.bytes_required
            &&& after.start_frames == m.start_frames
            &&& after.stop_frames == m.stop_frames
        }),
{
}

/// What a reset changes: all that was seen is gone, and the configuration stays.
pub proof fn law_what_a_reset_changes<S: Scalar>(m: Machine<S>)
    ensures
        m.restarted().resting(),
        m.restarted().state == VadState::Quiet,
        m.restarted().starting_count == 0,
        m.restarted().stopping_count == 0,
        m.restarted().buffer == Seq::<u8>::empty(),
        m.restarted().prev_volume == zero::<S>(),
        m.restarted().params == m.params,
        m.restarted().bytes_required == m.bytes_required,
        m.restarted().start_frames == m.start_frames,
        m.restarted().stop_frames == m.stop_frames,
{
}

} // verus!
