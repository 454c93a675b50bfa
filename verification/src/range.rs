//! Confidence and volume lie between zero and one.
//!
//! Rounding keeps the order of numbers, so these ranges hold of rounded arithmetic too. What is used
//! of the numbers is listed in [`orderly`], with which nothing lies outside the range, in
//! [`comparing`], with which a value that comes of comparable ones is comparable, and so lies inside
//! it, and in [`comparing_wide`], with which the level of any audio is comparable.

use vstd::prelude::*;

use crate::engine::{Memory, Weights};
use crate::history::{called_all, law_calls_are_moves, moves_of, Call};
use crate::layers::logistic;
use crate::lifecycle::{law_settled, settled};
use crate::params::VadParams;
use crate::pcm::samples_of;
use crate::scalar::{
    common_log, count_of, difference, exponential, less, narrowed, negated, not_less, one, product,
    quotient, ratio_of, sum, wide_count, wide_product, wide_quotient, wide_root, wide_sample,
    wide_sum, wide_zero, zero, Scalar, Wide,
};
use crate::state::Machine;
use crate::volume::{level, limited, loudness, smoothed, squares, volume_of};

verus! {

/// Neither below zero nor above one.
pub open spec fn in_unit_range<S: Scalar>(x: S) -> bool {
    !less(x, zero()) && !less(one(), x)
}

/// Addition, multiplication by the smoothing factors and division by 60 and by one window keep the
/// order of numbers, exponentials are not negative, what divides one and is not below one gives a
/// number between zero and one, and a few sums, products and quotients of constants come out exact.
pub open spec fn orderly<S: Scalar>() -> bool {
    let sixty = ratio_of::<S>(60, 1);
    let single = count_of::<S>(1);
    let factor = ratio_of::<S>(1, 5);
    let rest = difference::<S>(one(), factor);
    &&& forall|x: S| !#[trigger] less(x, x)
    &&& forall|w: S, x: S, y: S, z: S|
        !less(y, w) && !less(z, x) ==> !#[trigger] less(sum(y, z), sum(w, x))
    &&& forall|x: S, y: S| !less(y, x) ==> !#[trigger] less(quotient(y, sixty), quotient(x, sixty))
    &&& forall|x: S, y: S|
        !less(y, x) ==> !#[trigger] less(quotient(y, single), quotient(x, single))
    &&& forall|x: S, y: S| !less(y, x) ==> !#[trigger] less(product(y, factor), product(x, factor))
    &&& forall|x: S, y: S| !less(y, x) ==> !#[trigger] less(product(y, rest), product(x, rest))
    &&& forall|x: S| !less(#[trigger] exponential(x), zero())
    &&& forall|x: S| !less(x, one()) ==> in_unit_range(#[trigger] quotient(one(), x))
    &&& !less(one::<S>(), zero())
    &&& !less(zero::<S>(), ratio_of(-60i32, 1))
    &&& sum::<S>(zero(), zero()) == zero::<S>()
    &&& sum::<S>(zero(), one()) == one::<S>()
    &&& sum::<S>(one(), zero()) == one::<S>()
    &&& sum::<S>(ratio_of(-60i32, 1), sixty) == zero::<S>()
    &&& sum::<S>(zero(), sixty) == sixty
    &&& quotient::<S>(zero(), sixty) == zero::<S>()
    &&& quotient::<S>(sixty, sixty) == one::<S>()
    &&& quotient::<S>(zero(), single) == zero::<S>()
    &&& quotient::<S>(one(), single) == one::<S>()
    &&& product::<S>(zero(), factor) == zero::<S>()
    &&& product::<S>(zero(), rest) == zero::<S>()
    &&& sum::<S>(product(one(), factor), product(one(), rest)) == one::<S>()
}

/// `x` is a number that compares with itself.
pub open spec fn comparable<S: Scalar>(x: S) -> bool {
    not_less(x, x)
}

/// At least zero and at most one.
pub open spec fn between<S: Scalar>(x: S) -> bool {
    not_less(x, zero()) && not_less(one(), x)
}

/// A number that compares with itself is below another one that does, or else not less than it. What is
/// not less than zero compares with itself, and so do the constants, and the results of the operations
/// on numbers that do, on such arguments as the logistic function, the volume and smoothing have.
pub open spec fn comparing<S: Scalar>() -> bool {
    let sixty = ratio_of::<S>(60, 1);
    let factor = ratio_of::<S>(1, 5);
    &&& forall|x: S, y: S|
        comparable(x) && comparable(y) ==> #[trigger] not_less(x, y) == !less(x, y)
    &&& forall|x: S| #[trigger] not_less(x, zero()) ==> comparable(x)
    &&& comparable(zero::<S>())
    &&& comparable(one::<S>())
    &&& comparable(ratio_of::<S>(-60i32, 1))
    &&& forall|x: S| comparable(x) ==> comparable(#[trigger] negated(x))
    &&& forall|x: S| comparable(x) ==> comparable(#[trigger] exponential(x))
    &&& forall|x: S|
        comparable(x) && !less(x, ratio_of(1, 1_000_000_000)) ==> comparable(
            #[trigger] common_log(x),
        )
    &&& forall|x: S, y: S|
        comparable(x) && comparable(y) && !less(x, zero()) && !less(y, zero()) ==> comparable(
            #[trigger] sum(x, y),
        )
    &&& forall|x: S| comparable(x) ==> comparable(#[trigger] sum(x, sixty))
    &&& forall|x: S| comparable(x) ==> comparable(#[trigger] product(ratio_of(20, 1), x))
    &&& forall|x: S| comparable(x) ==> comparable(#[trigger] product(x, factor))
    &&& forall|x: S|
        comparable(x) ==> comparable(#[trigger] product(x, difference(one(), factor)))
    &&& forall|x: S|
        comparable(x) && !less(x, one()) ==> comparable(#[trigger] quotient(one(), x))
    &&& forall|x: S| comparable(x) ==> comparable(#[trigger] quotient(x, sixty))
    &&& forall|x: S| comparable(x) ==> comparable(#[trigger] quotient(x, count_of(1)))
    &&& forall|x: S| comparable(x) ==> comparable(#[trigger] quotient(x, ratio_of(0x8000, 1)))
}

/// There are `sound` numbers of the wider type, as those that are not negative: squares of samples
/// are sound, and so are their sums, what is divided by a count, and square roots; and a sound number
/// compares with itself in the narrower type.
pub open spec fn comparing_wide<S: Scalar, W: Wide<S>>(sound: spec_fn(W) -> bool) -> bool {
    &&& sound(wide_zero::<S, W>())
    &&& forall|s: i16|
        sound(
            #[trigger] wide_product::<S, W>(wide_sample::<S, W>(s), wide_sample::<S, W>(s)),
        )
    &&& forall|x: W, y: W| sound(x) && sound(y) ==> sound(#[trigger] wide_sum::<S, W>(x, y))
    &&& forall|x: W, n: usize|
        sound(x) && n > 0 ==> sound(
            #[trigger] wide_quotient::<S, W>(x, wide_count::<S, W>(n)),
        )
    &&& forall|x: W| sound(x) ==> sound(#[trigger] wide_root::<S, W>(x))
    &&& forall|x: W| sound(x) ==> comparable(#[trigger] narrowed::<S, W>(x))
}

/// The logistic function lies between zero and one.
pub proof fn law_logistic_range<S: Scalar>(x: S)
    requires
        orderly::<S>(),
    ensures
        in_unit_range(logistic(x)),
        comparing::<S>() && comparable(x) ==> between(logistic(x)),
{
    let e = exponential(negated(x));
    assert(!less(e, zero()));
    assert(!less(sum(one(), e), sum(one(), zero())));
    if comparing::<S>() && comparable(x) {
        assert(comparable(negated(x)) && comparable(e));
        assert(comparable(sum(one(), e)));
        lemma_between(logistic(x));
    }
}

/// What compares and lies not outside the range lies inside it.
proof fn lemma_between<S: Scalar>(x: S)
    requires
        comparing::<S>(),
        comparable(x),
        in_unit_range(x),
    ensures
        between(x),
{
    assert(comparable(zero::<S>()) && comparable(one::<S>()));
}

/// The confidence of any window lies between zero and one.
pub proof fn law_confidence_range<S: Scalar>(w: Weights<S>, m: Memory<S>, samples: Seq<S>)
    requires
        orderly::<S>(),
    ensures
        in_unit_range(w.inferred(m, samples).1),
        comparing::<S>() && comparable(w.logit(m, samples)) ==> between(
            w.inferred(m, samples).1,
        ),
{
    let x = w.logit(m, samples);
    let p = logistic(x);
    law_logistic_range(x);
    let total = sum(zero(), p);
    assert(!less(total, sum(zero(), zero())));
    assert(!less(sum(zero(), one()), total));
    assert(!less(quotient(total, count_of(1)), quotient(zero(), count_of(1))));
    assert(!less(quotient(one(), count_of(1)), quotient(total, count_of(1))));
    if comparing::<S>() && comparable(x) {
        assert(not_less(p, zero()));
        assert(comparable(total));
        lemma_between(w.inferred(m, samples).1);
    }
}

/// The sum of squares is sound.
proof fn lemma_squares_sound<S: Scalar, W: Wide<S>>(
    sound: spec_fn(W) -> bool,
    samples: Seq<i16>,
    n: int,
)
    requires
        comparing_wide::<S, W>(sound),
    ensures
        sound(squares::<S, W>(samples, n)),
    decreases n,
{
    if n > 0 {
        lemma_squares_sound::<S, W>(sound, samples, n - 1);
        let s = samples[n - 1];
        assert(sound(wide_product::<S, W>(wide_sample::<S, W>(s), wide_sample::<S, W>(s))));
    }
}

/// The level of any samples compares with itself.
pub proof fn law_level_compares<S: Scalar, W: Wide<S>>(
    sound: spec_fn(W) -> bool,
    samples: Seq<i16>,
)
    requires
        comparing::<S>(),
        comparing_wide::<S, W>(sound),
        0 < samples.len() <= usize::MAX,
    ensures
        comparable(level::<S, W>(samples)),
{
    let n = samples.len();
    lemma_squares_sound::<S, W>(sound, samples, n as int);
    let total = squares::<S, W>(samples, n as int);
    let mean = wide_quotient::<S, W>(total, wide_count::<S, W>(n as usize));
    assert(sound(mean));
    assert(sound(wide_root::<S, W>(mean)));
}

/// The volume of any audio lies between zero and one.
pub proof fn law_volume_range<S: Scalar, W: Wide<S>>(
    sound: spec_fn(W) -> bool,
    audio: Seq<u8>,
)
    requires
        orderly::<S>(),
        audio.len() <= usize::MAX,
    ensures
        in_unit_range(volume_of::<S, W>(audio)),
        comparing::<S>() && comparing_wide::<S, W>(sound) ==> between(
            volume_of::<S, W>(audio),
        ),
{
    let samples = samples_of(audio);
    law_loudness_range(level::<S, W>(samples));
    if comparing::<S>() && comparing_wide::<S, W>(sound) {
        if samples.len() > 0 {
            law_level_compares::<S, W>(sound, samples);
        } else {
            lemma_between(zero::<S>());
        }
    }
}

/// The volume that any level stands for lies between zero and one.
pub proof fn law_loudness_range<S: Scalar>(level: S)
    requires
        orderly::<S>(),
    ensures
        in_unit_range(loudness(level)),
        comparing::<S>() && comparable(level) ==> between(loudness(level)),
{
    let low = ratio_of::<S>(-60i32, 1);
    let sixty = ratio_of::<S>(60, 1);
    let db = limited(product(ratio_of(20, 1), common_log(level)), low, zero());
    assert(!less(db, low) && !less(zero(), db));
    assert(!less(sum(db, sixty), sum(low, sixty)));
    assert(!less(sum(zero(), sixty), sum(db, sixty)));
    assert(!less(quotient(sum(db, sixty), sixty), quotient(zero(), sixty)));
    assert(!less(quotient(sixty, sixty), quotient(sum(db, sixty), sixty)));
    if comparing::<S>() && comparable(level) {
        if less(level, ratio_of(1, 1_000_000_000)) {
            lemma_between(zero::<S>());
        } else {
            assert(comparable(common_log(level)));
            assert(comparable(product(ratio_of(20, 1), common_log(level))));
            assert(comparable(db));
            assert(comparable(sum(db, sixty)));
            lemma_between(loudness(level));
        }
    }
}

/// Smoothing keeps the range: of a volume and a smoothed volume between zero and one it makes one
/// between zero and one.
pub proof fn law_smoothing_range<S: Scalar>(current: S, prev: S)
    requires
        orderly::<S>(),
        in_unit_range(current),
        in_unit_range(prev),
    ensures
        in_unit_range(smoothed(current, prev, ratio_of(1, 5))),
        comparing::<S>() && between(current) && between(prev) ==> between(
            smoothed(current, prev, ratio_of(1, 5)),
        ),
{
    let factor = ratio_of::<S>(1, 5);
    let rest = difference::<S>(one(), factor);
    let x = product(current, factor);
    let y = product(prev, rest);
    assert(!less(x, product(zero(), factor)));
    assert(!less(y, product(zero(), rest)));
    assert(!less(sum(x, y), sum(zero(), zero())));
    assert(!less(product(one(), factor), x));
    assert(!less(product(one(), rest), y));
    assert(!less(sum(product(one(), factor), product(one(), rest)), sum(x, y)));
    if comparing::<S>() && between(current) && between(prev) {
        assert(not_less(current, zero()) && not_less(prev, zero()));
        assert(comparable(x) && comparable(y));
        assert(comparable(sum(x, y)));
        lemma_between(sum(x, y));
    }
}

/// Every window that `advance` is called with could be held in memory.
pub open spec fn storable<S>(calls: Seq<Call<S>>) -> bool {
    forall|i: int|
        0 <= i < calls.len() ==> match #[trigger] calls[i] {
            Call::Advance(confidence, window) => window.len() <= usize::MAX,
            _ => true,
        }
}

/// Whatever is called on a machine, its smoothed volume stays between zero and one.
pub proof fn law_smoothed_volume_range<S: Scalar, W: Wide<S>>(
    sound: spec_fn(W) -> bool,
    m: Machine<S>,
    calls: Seq<Call<S>>,
)
    requires
        orderly::<S>(),
        in_unit_range(m.prev_volume),
        storable(calls),
    ensures
        in_unit_range(called_all::<S, W>(m, calls).prev_volume),
        comparing::<S>() && comparing_wide::<S, W>(sound) && between(m.prev_volume) ==> between(
            called_all::<S, W>(m, calls).prev_volume,
        ),
    decreases calls.len(),
{
    assert(in_unit_range(zero::<S>()));
    if comparing::<S>() {
        lemma_between(zero::<S>());
    }
    if calls.len() > 0 {
        let before = calls.drop_last();
        assert forall|i: int| 0 <= i < before.len() implies match #[trigger] before[i] {
            Call::Advance(confidence, window) => window.len() <= usize::MAX,
            _ => true,
        } by {
            assert(before[i] == calls[i]);
        }
        law_smoothed_volume_range::<S, W>(sound, m, before);
        assert(calls.last() == calls[calls.len() - 1]);
        match calls.last() {
            Call::Advance(confidence, window) => {
                law_volume_range::<S, W>(sound, window);
                law_smoothing_range(
                    volume_of::<S, W>(window),
                    called_all::<S, W>(m, before).prev_volume,
                );
            },
            _ => {},
        }
    }
}

/// What holds of every state that a machine can be in: its counts are settled, none of them can
/// overflow, and its smoothed volume lies between zero and one.
pub proof fn law_reachable_states<S: Scalar, W: Wide<S>>(
    sound: spec_fn(W) -> bool,
    sample_rate: u32,
    params: VadParams<S>,
    calls: Seq<Call<S>>,
)
    requires
        orderly::<S>(),
        comparing::<S>(),
        comparing_wide::<S, W>(sound),
        storable(calls),
    ensures
        ({
            let m = called_all::<S, W>(Machine::fresh(sample_rate, params), calls);
            &&& settled(m)
            &&& m.counting()
            &&& between(m.prev_volume)
        }),
{
    let fresh = Machine::fresh(sample_rate, params);
    assert(in_unit_range(zero::<S>()));
    lemma_between(zero::<S>());
    law_smoothed_volume_range::<S, W>(sound, fresh, calls);
    law_calls_are_moves::<S, W>(fresh, calls);
    law_settled(fresh, moves_of::<S, W>(fresh, calls));
}

} // verus!
