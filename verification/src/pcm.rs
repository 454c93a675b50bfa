//! Little-endian bytes as PCM samples and as 32-bit words.

use vstd::prelude::*;

use crate::scalar::{
    decoded, functional_from_bits, functional_from_sample, functional_over, functional_ratio,
    quotient, ratio_of, sample_of, Scalar,
};

verus! {

/// The 16-bit two's complement number with low byte `low` and high byte `high`.
pub open spec fn sample_value(low: u8, high: u8) -> int {
    let unsigned = low + 256 * high;
    if unsigned < 0x8000 {
        unsigned
    } else {
        unsigned - 0x1_0000
    }
}

/// The samples that the bytes hold, two bytes each; a last odd byte holds none.
pub open spec fn samples_of(bytes: Seq<u8>) -> Seq<i16> {
    Seq::new(
        bytes.len() / 2,
        |i: int| sample_value(bytes[2 * i], bytes[2 * i + 1]) as i16,
    )
}

/// The samples on a scale on which full scale is one.
pub open spec fn scaled<S: Scalar>(samples: Seq<i16>) -> Seq<S> {
    samples.map_values(|s: i16| quotient::<S>(sample_of(s), ratio_of(0x8000, 1)))
}

/// The 32-bit number that starts at byte `at`, lowest byte first.
pub open spec fn word_value(bytes: Seq<u8>, at: int) -> int {
    bytes[at] + 0x100 * bytes[at + 1] + 0x1_0000 * bytes[at + 2] + 0x100_0000 * bytes[at + 3]
}

/// The 32-bit words that the bytes hold, four bytes each; fewer than four left over hold none.
pub open spec fn words_of(bytes: Seq<u8>) -> Seq<u32> {
    Seq::new(bytes.len() / 4, |i: int| word_value(bytes, 4 * i) as u32)
}

/// The numbers that the bytes encode, four bytes each.
pub open spec fn floats_of<S: Scalar>(bytes: Seq<u8>) -> Seq<S> {
    words_of(bytes).map_values(|w: u32| decoded::<S>(w))
}

/// The samples in 16-bit little-endian PCM.
pub fn decode_samples(bytes: &[u8]) -> (r: Vec<i16>)
    ensures
        r@.len() == bytes@.len() / 2,
        forall|i: int|
            0 <= i < r@.len() ==> #[trigger] r@[i] as int % 0x1_0000 == bytes@[2 * i] + 256 * bytes@[
            2 * i + 1],
        r@ == samples_of(bytes@),
{
    let n: usize = bytes.len() / 2;
    let mut out: Vec<i16> = Vec::with_capacity(n);
    for i in 0..n
        invariant
            n == bytes.len() / 2,
            out@ == samples_of(bytes@).take(i as int),
    {
        let unsigned: i32 = bytes[2 * i] as i32 + 256 * (bytes[2 * i + 1] as i32);
        let value: i32 = if unsigned < 0x8000 { unsigned } else { unsigned - 0x1_0000 };
        out.push(value as i16);
        assert(samples_of(bytes@).take(i + 1) =~= samples_of(bytes@).take(i as int).push(
            samples_of(bytes@)[i as int],
        ));
    }
    assert(samples_of(bytes@).take(n as int) =~= samples_of(bytes@));
    out
}

/// The operations that samples are scaled with are functions.
pub open spec fn functional_scaling<S: Scalar>() -> bool {
    &&& functional_from_sample::<S>()
    &&& functional_ratio::<S>()
    &&& functional_over::<S>()
}

/// `r` comes of the operations of `sample / 32768`.
pub open spec fn scaling_steps<S: Scalar>(sample: i16, r: S) -> bool {
    exists|x: S, full: S|
        {
            &&& #[trigger] call_ensures(S::from_sample, (sample,), x)
            &&& #[trigger] call_ensures(S::ratio, (0x8000i32, 1i32), full)
            &&& call_ensures(S::over, (x, full), r)
        }
}

/// The samples in 16-bit little-endian PCM, on a scale on which full scale is one.
pub fn decode_scaled<S: Scalar>(bytes: &[u8]) -> (r: Vec<S>)
    ensures
        r@.len() == bytes@.len() / 2,
        forall|i: int|
            0 <= i < r@.len() ==> {
                &&& scaling_steps(samples_of(bytes@)[i], #[trigger] r@[i])
                &&& exists|x: S, full: S|
                    {
                        &&& #[trigger] call_ensures(S::from_sample, (samples_of(bytes@)[i],), x)
                        &&& #[trigger] call_ensures(S::ratio, (0x8000i32, 1i32), full)
                        &&& call_ensures(S::over, (x, full), r@[i])
                    }
            },
        functional_scaling::<S>() ==> forall|i: int|
            0 <= i < r@.len() ==> #[trigger] r@[i] == quotient(
                sample_of::<S>(samples_of(bytes@)[i]),
                ratio_of(0x8000, 1),
            ),
        functional_scaling::<S>() ==> r@ == scaled::<S>(samples_of(bytes@)),
{
    let samples = decode_samples(bytes);
    let n: usize = samples.len();
    let mut out: Vec<S> = Vec::with_capacity(n);
    for i in 0..n
        invariant
            n == samples@.len(),
            out@.len() == i,
            forall|k: int| 0 <= k < i ==> scaling_steps(samples@[k], #[trigger] out@[k]),
            functional_scaling::<S>() ==> out@ == scaled::<S>(samples@).take(i as int),
    {
        let x = S::from_sample(samples[i]);
        let full = S::ratio(0x8000, 1);
        let y = x.over(full);
        assert(scaling_steps(samples@[i as int], y));
        out.push(y);
        assert(scaled::<S>(samples@).take(i + 1) =~= scaled::<S>(samples@).take(i as int).push(
            scaled::<S>(samples@)[i as int],
        ));
    }
    assert(scaled::<S>(samples@).take(n as int) =~= scaled::<S>(samples@));
    out
}

/// `floats` comes of decoding the 32-bit words that the bytes hold, one after the other.
pub open spec fn decoding_steps<S: Scalar>(bytes: Seq<u8>, floats: Seq<S>) -> bool {
    &&& floats.len() == bytes.len() / 4
    &&& forall|i: int|
        0 <= i < floats.len() ==> call_ensures(
            S::from_bits,
            (words_of(bytes)[i],),
            #[trigger] floats[i],
        )
}

/// The numbers in a sequence of little-endian single-precision encodings.
pub fn decode_floats<S: Scalar>(bytes: &[u8]) -> (r: Vec<S>)
    ensures
        decoding_steps(bytes@, r@),
        r@.len() == bytes@.len() / 4,
        forall|i: int, w: u32|
            0 <= i < r@.len() && w == bytes@[4 * i] + 0x100 * bytes@[4 * i + 1] + 0x1_0000 * bytes@[4
                * i + 2] + 0x100_0000 * bytes@[4 * i + 3] ==> #[trigger] call_ensures(
                S::from_bits,
                (w,),
                r@[i],
            ),
        functional_from_bits::<S>() ==> r@ == floats_of::<S>(bytes@),
{
    let n: usize = bytes.len() / 4;
    let mut out: Vec<S> = Vec::with_capacity(n);
    for i in 0..n
        invariant
            n == bytes.len() / 4,
            out@.len() == i,
            forall|k: int|
                0 <= k < i ==> call_ensures(
                    S::from_bits,
                    (words_of(bytes@)[k],),
                    #[trigger] out@[k],
                ),
            functional_from_bits::<S>() ==> out@ == floats_of::<S>(bytes@).take(i as int),
    {
        let at: usize = 4 * i;
        let word: u32 = bytes[at] as u32 + 0x100 * (bytes[at + 1] as u32) + 0x1_0000 * (
        bytes[at + 2] as u32) + 0x100_0000 * (bytes[at + 3] as u32);
        assert(word == words_of(bytes@)[i as int]);
        out.push(S::from_bits(word));
        assert(floats_of::<S>(bytes@).take(i + 1) =~= floats_of::<S>(bytes@).take(i as int).push(
            floats_of::<S>(bytes@)[i as int],
        ));
    }
    assert(floats_of::<S>(bytes@).take(n as int) =~= floats_of::<S>(bytes@));
    out
}

} // verus!
