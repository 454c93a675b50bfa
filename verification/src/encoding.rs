//! What the bytes stand for: decoding undoes encoding, and nothing that is encoded differently is
//! decoded to the same.

use vstd::prelude::*;

use crate::pcm::{
    decoding_steps, floats_of, sample_value, samples_of, scaled, word_value, words_of,
};
use crate::scalar::{decoded, less, product, quotient, ratio_of, sample_of, Scalar};
use crate::text::{decimal, digit, too_small_text, wrong_length_text};

verus! {

/// The bytes are the samples, two bytes each, the lower one first.
pub open spec fn encodes_samples(bytes: Seq<u8>, samples: Seq<i16>) -> bool {
    &&& bytes.len() == 2 * samples.len()
    &&& forall|i: int|
        0 <= i < samples.len() ==> {
            &&& bytes[2 * i] == #[trigger] samples[i] % 256
            &&& bytes[2 * i + 1] == samples[i] as int / 256 % 256
        }
}

/// The bytes are the words, four bytes each, the lowest one first.
pub open spec fn encodes_words(bytes: Seq<u8>, words: Seq<u32>) -> bool {
    &&& bytes.len() == 4 * words.len()
    &&& forall|i: int|
        0 <= i < words.len() ==> {
            &&& bytes[4 * i] == #[trigger] words[i] % 256
            &&& bytes[4 * i + 1] == words[i] / 256 % 256
            &&& bytes[4 * i + 2] == words[i] / 65536 % 256
            &&& bytes[4 * i + 3] == words[i] / 16777216
        }
}

/// Decoding samples undoes encoding them, whatever the samples.
pub proof fn law_samples_come_back(bytes: Seq<u8>, samples: Seq<i16>)
    requires
        encodes_samples(bytes, samples),
    ensures
        samples_of(bytes) == samples,
{
    assert forall|i: int| 0 <= i < samples.len() implies samples_of(bytes)[i] == #[trigger] samples[i] by {
        let s = samples[i] as int;
        assert(s == 256 * (s / 256) + s % 256);
        assert(-128 <= s / 256 <= 127);
    }
    assert(samples_of(bytes) =~= samples);
}

/// Encoding samples undoes decoding them: no two different streams of whole samples hold the same
/// samples.
pub proof fn law_different_bytes_hold_different_samples(x: Seq<u8>, y: Seq<u8>)
    requires
        x.len() == y.len(),
        x.len() % 2 == 0,
        samples_of(x) == samples_of(y),
    ensures
        x == y,
{
    assert forall|k: int| 0 <= k < x.len() implies x[k] == y[k] by {
        let i = k / 2;
        assert(samples_of(x)[i] == samples_of(y)[i]);
        let a = x[2 * i] + 256 * x[2 * i + 1];
        let b = y[2 * i] + 256 * y[2 * i + 1];
        assert(samples_of(x)[i] == sample_value(x[2 * i], x[2 * i + 1]));
        assert(samples_of(y)[i] == sample_value(y[2 * i], y[2 * i + 1]));
        assert(a == b);
        assert(k == 2 * i || k == 2 * i + 1);
    }
    assert(x =~= y);
}

/// The samples of two streams one behind the other are their samples one behind the other, and a byte
/// left over holds none.
pub proof fn law_samples_of_joined_streams(x: Seq<u8>, y: Seq<u8>, byte: u8)
    requires
        x.len() % 2 == 0,
    ensures
        samples_of(x + y) == samples_of(x) + samples_of(y),
        samples_of(x.push(byte)) == samples_of(x),
        samples_of(x).len() * 2 == x.len(),
{
    assert(samples_of(x + y) =~= samples_of(x) + samples_of(y));
    assert(samples_of(x.push(byte)) =~= samples_of(x));
}

/// Decoding words undoes encoding them, whatever the words; every number in a file is decoded from its
/// own bits.
pub proof fn law_words_come_back<S: Scalar>(bytes: Seq<u8>, words: Seq<u32>)
    requires
        encodes_words(bytes, words),
    ensures
        words_of(bytes) == words,
        floats_of::<S>(bytes).len() == words.len(),
        forall|i: int|
            0 <= i < words.len() ==> floats_of::<S>(bytes)[i] == decoded::<S>(#[trigger] words[i]),
        forall|floats: Seq<S>, i: int|
            #![trigger decoding_steps(bytes, floats), words[i]]
            decoding_steps(bytes, floats) && 0 <= i < words.len() ==> call_ensures(
                S::from_bits,
                (words[i],),
                floats[i],
            ),
{
    assert forall|i: int| 0 <= i < words.len() implies words_of(bytes)[i] == #[trigger] words[i] by {
        let w = words[i] as int;
        assert(w == w % 256 + 256 * (w / 256 % 256) + 65536 * (w / 65536 % 256) + 16777216 * (w
            / 16777216));
    }
    assert(words_of(bytes) =~= words);
    assert forall|floats: Seq<S>, i: int|
        #![trigger decoding_steps(bytes, floats), words[i]]
        decoding_steps(bytes, floats) && 0 <= i < words.len() implies call_ensures(
        S::from_bits,
        (words[i],),
        floats[i],
    ) by {
        assert(floats[i] == floats[i]);
    }
}

/// No two different files of whole words hold the same words.
pub proof fn law_different_bytes_hold_different_words(x: Seq<u8>, y: Seq<u8>)
    requires
        x.len() == y.len(),
        x.len() % 4 == 0,
        words_of(x) == words_of(y),
    ensures
        x == y,
{
    assert forall|k: int| 0 <= k < x.len() implies x[k] == y[k] by {
        let i = k / 4;
        assert(words_of(x)[i] == words_of(y)[i]);
        let a = x[4 * i] + 256 * x[4 * i + 1] + 65536 * x[4 * i + 2] + 16777216 * x[4 * i + 3];
        let b = y[4 * i] + 256 * y[4 * i + 1] + 65536 * y[4 * i + 2] + 16777216 * y[4 * i + 3];
        assert(words_of(x)[i] == word_value(x, 4 * i));
        assert(words_of(y)[i] == word_value(y, 4 * i));
        assert(a == b);
        assert(x[4 * i + 3] == y[4 * i + 3]);
        assert(x[4 * i + 2] == y[4 * i + 2]);
        assert(x[4 * i + 1] == y[4 * i + 1]);
        assert(k == 4 * i || k == 4 * i + 1 || k == 4 * i + 2 || k == 4 * i + 3);
    }
    assert(x =~= y);
}

/// Where decoding tells words apart, files that differ in a whole word give different numbers.
pub proof fn law_different_bytes_give_different_numbers<S: Scalar>(x: Seq<u8>, y: Seq<u8>)
    requires
        forall|v: u32, w: u32| #[trigger] decoded::<S>(v) == #[trigger] decoded::<S>(w) ==> v == w,
        x.len() == y.len(),
        x.len() % 4 == 0,
        floats_of::<S>(x) == floats_of::<S>(y),
    ensures
        x == y,
{
    assert forall|i: int| 0 <= i < words_of(x).len() implies words_of(x)[i] == words_of(y)[i] by {
        assert(floats_of::<S>(x)[i] == decoded::<S>(words_of(x)[i]));
        assert(floats_of::<S>(y)[i] == decoded::<S>(words_of(y)[i]));
        assert(decoded::<S>(words_of(x)[i]) == decoded::<S>(words_of(y)[i]));
    }
    assert(words_of(x) =~= words_of(y));
    law_different_bytes_hold_different_words(x, y);
}

/// Every sample reaches the network with its own value: multiplied by full scale again it is the
/// sample, where dividing a sample by full scale is undone by that, as it is for any power of two.
pub proof fn law_scaling_is_undone<S: Scalar>(samples: Seq<i16>, i: int)
    requires
        forall|s: i16|
            product(
                quotient(#[trigger] sample_of::<S>(s), ratio_of(0x8000, 1)),
                ratio_of(0x8000, 1),
            ) == sample_of::<S>(s),
        0 <= i < samples.len(),
    ensures
        scaled::<S>(samples).len() == samples.len(),
        product(scaled::<S>(samples)[i], ratio_of(0x8000, 1)) == sample_of::<S>(samples[i]),
{
}

/// Different samples reach the network as different numbers, where converting a sample and dividing it
/// by full scale tell samples apart.
pub proof fn law_different_samples_scale_differently<S: Scalar>(x: Seq<i16>, y: Seq<i16>)
    requires
        forall|s: i16, t: i16| #[trigger]
            quotient(sample_of::<S>(s), ratio_of(0x8000, 1)) == #[trigger] quotient(
                sample_of::<S>(t),
                ratio_of(0x8000, 1),
            ) ==> s == t,
        scaled::<S>(x) == scaled::<S>(y),
    ensures
        x == y,
{
    assert(x.len() == scaled::<S>(x).len() && y.len() == scaled::<S>(y).len());
    assert forall|i: int| 0 <= i < x.len() implies x[i] == y[i] by {
        assert(scaled::<S>(x)[i] == quotient(sample_of::<S>(x[i]), ratio_of(0x8000, 1)));
        assert(scaled::<S>(y)[i] == quotient(sample_of::<S>(y[i]), ratio_of(0x8000, 1)));
        assert(quotient(sample_of::<S>(x[i]), ratio_of(0x8000, 1)) == quotient(
            sample_of::<S>(y[i]),
            ratio_of(0x8000, 1),
        ));
    }
    assert(x =~= y);
}

/// A larger sample scales to a larger number, where converting samples and dividing them by full scale
/// keep their order.
pub proof fn law_scaling_keeps_order<S: Scalar>(samples: Seq<i16>, i: int, j: int)
    requires
        forall|s: i16, t: i16|
            s < t ==> less(
                #[trigger] quotient(sample_of::<S>(s), ratio_of(0x8000, 1)),
                #[trigger] quotient(sample_of::<S>(t), ratio_of(0x8000, 1)),
            ),
        0 <= i < samples.len(),
        0 <= j < samples.len(),
        samples[i] < samples[j],
    ensures
        less(scaled::<S>(samples)[i], scaled::<S>(samples)[j]),
{
}

/// Scaling works on each sample by itself: what a sample scales to depends on no other sample, and not
/// on where it stands.
pub proof fn law_scaling_is_pointwise<S: Scalar>(x: Seq<i16>, y: Seq<i16>, i: int, j: int)
    requires
        0 <= i < x.len(),
        0 <= j < y.len(),
        x[i] == y[j],
    ensures
        scaled::<S>(x)[i] == scaled::<S>(y)[j],
        scaled::<S>(x + y) == scaled::<S>(x) + scaled::<S>(y),
{
    assert(scaled::<S>(x + y) =~= scaled::<S>(x) + scaled::<S>(y));
}

/// The number that decimal digits stand for.
pub open spec fn value_of(digits: Seq<char>) -> int
    decreases digits.len(),
{
    if digits.len() == 0 {
        0
    } else {
        10 * value_of(digits.drop_last()) + (digits.last() as int - 0x30)
    }
}

/// The decimal digits of a number stand for it, all are digits, and the first is not a zero unless it
/// is the only one.
pub proof fn law_decimal_is_read_back(n: nat)
    ensures
        value_of(decimal(n)) == n,
        decimal(n).len() > 0,
        decimal(n)[0] == '0' ==> n == 0 && decimal(n).len() == 1,
        forall|i: int| 0 <= i < decimal(n).len() ==> '0' <= #[trigger] decimal(n)[i] <= '9',
    decreases n,
{
    if n < 10 {
        assert(decimal(n) == seq![digit(n)]);
        assert(decimal(n).drop_last() =~= Seq::<char>::empty());
        assert(value_of(Seq::<char>::empty()) == 0);
    } else {
        law_decimal_is_read_back(n / 10);
        assert(decimal(n).drop_last() =~= decimal(n / 10));
    }
}

/// The texts of the errors name the counts: behind what comes before it, and before what comes behind
/// it, stands the count in decimal.
pub proof fn law_error_texts(floats: nat, expected: nat, got: nat)
    ensures
        ({
            let t = too_small_text(floats);
            let d = decimal(floats).len() as int;
            &&& t.len() == 23 + d + 27
            &&& t.take(23) == "Weight file too small: "@
            &&& t.subrange(23, 23 + d) == decimal(floats)
            &&& t.skip(23 + d) == " floats, expected >= 309633"@
        }),
        ({
            let u = wrong_length_text(expected, got);
            let e = decimal(expected).len() as int;
            &&& u.len() == 9 + e + 12 + decimal(got).len()
            &&& u.take(9) == "Expected "@
            &&& u.subrange(9, 9 + e) == decimal(expected)
            &&& u.subrange(9 + e, 9 + e + 12) == " bytes, got "@
            &&& u.skip(9 + e + 12) == decimal(got)
        }),
{
    reveal_strlit("Weight file too small: ");
    reveal_strlit(" floats, expected >= 309633");
    reveal_strlit("Expected ");
    reveal_strlit(" bytes, got ");
    let t = too_small_text(floats);
    let u = wrong_length_text(expected, got);
    let d = decimal(floats).len() as int;
    let e = decimal(expected).len() as int;
    assert(t.take(23) =~= "Weight file too small: "@);
    assert(t.subrange(23, 23 + d) =~= decimal(floats));
    assert(t.skip(23 + d) =~= " floats, expected >= 309633"@);
    assert(u.take(9) =~= "Expected "@);
    assert(u.subrange(9, 9 + e) =~= decimal(expected));
    assert(u.subrange(9 + e, 9 + e + 12) =~= " bytes, got "@);
    assert(u.skip(9 + e + 12) =~= decimal(got));
}

} // verus!
