//! What the volume of audio does not depend on: the order of the samples, how often the audio is
//! repeated, and an odd byte at its end.
//!
//! Double precision adds up squares of samples without rounding as long as the sum stays below 2^53,
//! which takes more than eight million samples. What is used of this is [`exact_squares`].

use vstd::prelude::*;
use vstd::seq_lib::{to_multiset_contains, to_multiset_len, to_multiset_remove};

use crate::pcm::samples_of;
use crate::scalar::{
    wide_count, wide_product, wide_quotient, wide_sample, wide_sum, wide_zero, Scalar, Wide,
};
use crate::volume::{squares, volume_of};

verus! {

/// The sum of the squares of the samples.
pub open spec fn power(samples: Seq<i16>) -> int
    decreases samples.len(),
{
    if samples.len() == 0 {
        0
    } else {
        power(samples.drop_last()) + samples.last() * samples.last()
    }
}

/// Up to `limit`, `whole` gives whole numbers as numbers of the wider type to which the square of a
/// sample is added exactly, from zero on.
pub open spec fn exact_squares<S: Scalar, W: Wide<S>>(limit: int, whole: spec_fn(int) -> W) -> bool {
    &&& whole(0) == wide_zero::<S, W>()
    &&& forall|m: int, s: i16|
        0 <= m && m + s * s <= limit ==> #[trigger] wide_sum::<S, W>(
            whole(m),
            wide_product::<S, W>(wide_sample::<S, W>(s), wide_sample::<S, W>(s)),
        ) == whole(m + s * s)
}

/// A mean does not change where both the sum and the count are doubled.
pub open spec fn doubling_cancels<S: Scalar, W: Wide<S>>(
    limit: int,
    whole: spec_fn(int) -> W,
) -> bool {
    forall|m: int, n: int|
        0 <= m && 2 * m <= limit && 0 < n && 2 * n <= usize::MAX ==> #[trigger] wide_quotient::<
            S,
            W,
        >(whole(m), wide_count::<S, W>(n as usize)) == wide_quotient::<S, W>(
            whole(2 * m),
            wide_count::<S, W>((2 * n) as usize),
        )
}

/// A sum of squares is at most 2^30 for each sample.
pub proof fn law_power_bound(samples: Seq<i16>)
    ensures
        0 <= power(samples) <= samples.len() * 0x4000_0000,
    decreases samples.len(),
{
    if samples.len() > 0 {
        law_power_bound(samples.drop_last());
        let s = samples.last();
        assert(0 <= s * s <= 0x4000_0000) by (nonlinear_arith)
            requires
                -0x8000 <= s <= 0x8000,
        ;
    }
}

proof fn lemma_square(s: i16)
    ensures
        0 <= s * s,
{
    assert(0 <= s * s) by (nonlinear_arith);
}

/// The squares that are added one after the other add up to the power.
proof fn lemma_squares_are_exact<S: Scalar, W: Wide<S>>(
    limit: int,
    whole: spec_fn(int) -> W,
    samples: Seq<i16>,
    n: int,
)
    requires
        exact_squares::<S, W>(limit, whole),
        0 <= n <= samples.len(),
        power(samples.take(n)) <= limit,
    ensures
        squares::<S, W>(samples, n) == whole(power(samples.take(n))),
    decreases n,
{
    if n > 0 {
        let s = samples[n - 1];
        assert(samples.take(n).drop_last() =~= samples.take(n - 1));
        lemma_square(s);
        law_power_bound(samples.take(n - 1));
        lemma_squares_are_exact::<S, W>(limit, whole, samples, n - 1);
    }
}

proof fn lemma_all_squares_are_exact<S: Scalar, W: Wide<S>>(
    limit: int,
    whole: spec_fn(int) -> W,
    samples: Seq<i16>,
)
    requires
        exact_squares::<S, W>(limit, whole),
        power(samples) <= limit,
    ensures
        squares::<S, W>(samples, samples.len() as int) == whole(power(samples)),
{
    assert(samples.take(samples.len() as int) =~= samples);
    lemma_squares_are_exact::<S, W>(limit, whole, samples, samples.len() as int);
}

/// Without one of the samples the power is less by its square.
proof fn lemma_power_without(samples: Seq<i16>, i: int)
    requires
        0 <= i < samples.len(),
    ensures
        power(samples) == power(samples.remove(i)) + samples[i] * samples[i],
    decreases samples.len(),
{
    let rest = samples.remove(i);
    if i == samples.len() - 1 {
        assert(rest =~= samples.drop_last());
    } else {
        lemma_power_without(samples.drop_last(), i);
        assert(rest.drop_last() =~= samples.drop_last().remove(i));
        assert(rest.last() == samples.last());
    }
}

/// The power does not depend on the order of the samples.
pub proof fn law_power_of_reordered_samples(x: Seq<i16>, y: Seq<i16>)
    requires
        x.to_multiset() == y.to_multiset(),
    ensures
        x.len() == y.len(),
        power(x) == power(y),
    decreases x.len(),
{
    to_multiset_len(x);
    to_multiset_len(y);
    if x.len() > 0 {
        let s = x.last();
        let last = x.len() - 1;
        assert(x.contains(x[last]));
        to_multiset_contains(x, s);
        to_multiset_contains(y, s);
        let i = choose|i: int| 0 <= i < y.len() && y[i] == s;
        to_multiset_remove(x, last);
        to_multiset_remove(y, i);
        law_power_of_reordered_samples(x.remove(last), y.remove(i));
        lemma_power_without(x, last);
        lemma_power_without(y, i);
    }
}

/// The power of samples one behind the other is the sum of their powers.
proof fn lemma_power_joins(x: Seq<i16>, y: Seq<i16>)
    ensures
        power(x + y) == power(x) + power(y),
    decreases y.len(),
{
    if y.len() == 0 {
        assert(x + y =~= x);
    } else {
        lemma_power_joins(x, y.drop_last());
        assert((x + y).drop_last() =~= x + y.drop_last());
        assert((x + y).last() == y.last());
    }
}

/// The volume does not depend on the order of the samples.
pub proof fn law_volume_of_reordered_samples<S: Scalar, W: Wide<S>>(
    limit: int,
    whole: spec_fn(int) -> W,
    audio: Seq<u8>,
    other: Seq<u8>,
)
    requires
        exact_squares::<S, W>(limit, whole),
        samples_of(audio).to_multiset() == samples_of(other).to_multiset(),
        power(samples_of(audio)) <= limit,
    ensures
        volume_of::<S, W>(audio) == volume_of::<S, W>(other),
{
    law_power_of_reordered_samples(samples_of(audio), samples_of(other));
    lemma_all_squares_are_exact::<S, W>(limit, whole, samples_of(audio));
    lemma_all_squares_are_exact::<S, W>(limit, whole, samples_of(other));
}

/// Audio twice over has the volume of the audio, where it consists of whole samples.
pub proof fn law_volume_of_repeated_audio<S: Scalar, W: Wide<S>>(
    limit: int,
    whole: spec_fn(int) -> W,
    audio: Seq<u8>,
)
    requires
        exact_squares::<S, W>(limit, whole),
        doubling_cancels::<S, W>(limit, whole),
        audio.len() % 2 == 0,
        audio.len() <= usize::MAX,
        2 * power(samples_of(audio)) <= limit,
    ensures
        volume_of::<S, W>(audio + audio) == volume_of::<S, W>(audio),
{
    let x = samples_of(audio);
    let n = x.len() as int;
    assert(samples_of(audio + audio) =~= x + x);
    law_power_bound(x);
    lemma_power_joins(x, x);
    lemma_all_squares_are_exact::<S, W>(limit, whole, x);
    lemma_all_squares_are_exact::<S, W>(limit, whole, x + x);
    if n > 0 {
        assert(wide_quotient::<S, W>(whole(power(x)), wide_count::<S, W>(n as usize))
            == wide_quotient::<S, W>(whole(2 * power(x)), wide_count::<S, W>((2 * n) as usize)));
        assert((x + x).len() as usize == (2 * n) as usize);
    }
}

/// An odd byte behind whole samples changes nothing.
pub proof fn law_volume_with_an_odd_byte<S: Scalar, W: Wide<S>>(audio: Seq<u8>, byte: u8)
    requires
        audio.len() % 2 == 0,
    ensures
        volume_of::<S, W>(audio.push(byte)) == volume_of::<S, W>(audio),
{
    assert(samples_of(audio.push(byte)) =~= samples_of(audio));
}

} // verus!
