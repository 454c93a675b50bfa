//! Dot products.
//!
//! Two orders of summation: four interleaved partial sums, and the one that eight-lane vector
//! registers with fused multiply-add give. Which of the two a machine uses is the caller's to say.

use vstd::prelude::*;

use crate::scalar::{
    functional_below, functional_max, functional_plus, functional_ratio, functional_times,
    functional_times_plus, fused, larger, less, product, sum, zero, Scalar,
};

verus! {

/// `acc` plus the products at `start`, `start + step`, ..., one after the other, `n` of them.
pub open spec fn strided<S: Scalar>(acc: S, a: Seq<S>, b: Seq<S>, start: int, step: int, n: int) -> S
    decreases n,
{
    if n <= 0 {
        acc
    } else {
        let i = start + (n - 1) * step;
        sum(strided(acc, a, b, start, step, n - 1), product(a[i], b[i]))
    }
}

/// As [`strided`], each product and its addition rounded once.
pub open spec fn fused_strided<S: Scalar>(
    acc: S,
    a: Seq<S>,
    b: Seq<S>,
    start: int,
    step: int,
    n: int,
) -> S
    decreases n,
{
    if n <= 0 {
        acc
    } else {
        let i = start + (n - 1) * step;
        fused(a[i], b[i], fused_strided(acc, a, b, start, step, n - 1))
    }
}

/// The sum of eight lanes: halves first, then neighbours, then the two that are left.
pub open spec fn fold_lanes<S: Scalar>(v: Seq<S>) -> S {
    sum(
        sum(sum(v[0], v[4]), sum(v[1], v[5])),
        sum(sum(v[2], v[6]), sum(v[3], v[7])),
    )
}

/// The dot product in four interleaved partial sums; what is left over goes to the first.
pub open spec fn dot_in_four<S: Scalar>(a: Seq<S>, b: Seq<S>) -> S {
    let n = a.len() as int;
    let q = n / 4;
    let s0 = strided(zero(), a, b, 0, 4, q);
    let s1 = strided(zero(), a, b, 1, 4, q);
    let s2 = strided(zero(), a, b, 2, 4, q);
    let s3 = strided(zero(), a, b, 3, 4, q);
    sum(sum(sum(strided(s0, a, b, q * 4, 1, n - q * 4), s1), s2), s3)
}

/// Lane `k` of the four eight-lane registers, after all whole blocks of 32.
pub open spec fn block_lane<S: Scalar>(a: Seq<S>, b: Seq<S>, k: int) -> S {
    fused_strided(zero(), a, b, k, 32, a.len() as int / 32)
}

/// Lane `l` of the first register, after the blocks of 8 that follow the blocks of 32.
pub open spec fn first_lane<S: Scalar>(a: Seq<S>, b: Seq<S>, l: int) -> S {
    let n = a.len() as int;
    fused_strided(block_lane(a, b, l), a, b, n / 32 * 32 + l, 8, n % 32 / 8)
}

/// Lane `l` of the four registers' sum.
pub open spec fn summed_lane<S: Scalar>(a: Seq<S>, b: Seq<S>, l: int) -> S {
    sum(
        sum(first_lane(a, b, l), block_lane(a, b, 8 + l)),
        sum(block_lane(a, b, 16 + l), block_lane(a, b, 24 + l)),
    )
}

/// The dot product in four eight-lane registers; fewer than 8 left-over products are added singly.
pub open spec fn dot_in_lanes<S: Scalar>(a: Seq<S>, b: Seq<S>) -> S {
    let n = a.len() as int;
    let folded = fold_lanes(Seq::new(8, |l: int| summed_lane(a, b, l)));
    strided(folded, a, b, n / 8 * 8, 1, n % 8)
}

/// The dot product of `a` with as many values of `b`, in the order that `simd` selects.
pub open spec fn dot_product<S: Scalar>(simd: bool, a: Seq<S>, b: Seq<S>) -> S {
    if simd {
        dot_in_lanes(a, b)
    } else {
        dot_in_four(a, b)
    }
}

/// The operations that a dot product in the order that `simd` selects is computed with are functions.
pub open spec fn functional_dot<S: Scalar>(simd: bool) -> bool {
    &&& functional_ratio::<S>()
    &&& functional_plus::<S>()
    &&& functional_times::<S>()
    &&& simd ==> functional_times_plus::<S>()
}

/// The dot product of `a` and `b`; `simd` says that the machine has eight-lane fused multiply-add.
pub fn dot<S: Scalar>(a: &[S], b: &[S], simd: bool) -> (r: S)
    requires
        a@.len() <= b@.len(),
    ensures
        functional_dot::<S>(simd) ==> r == dot_product(simd, a@, b@),
{
    if simd {
        dot_avx2(a, b)
    } else {
        dot_scalar(a, b)
    }
}

fn dot_scalar<S: Scalar>(a: &[S], b: &[S]) -> (r: S)
    requires
        a@.len() <= b@.len(),
    ensures
        functional_dot::<S>(false) ==> r == dot_in_four(a@, b@),
{
    let n: usize = a.len();
    let mut s0 = S::ratio(0, 1);
    let mut s1 = S::ratio(0, 1);
    let mut s2 = S::ratio(0, 1);
    let mut s3 = S::ratio(0, 1);
    let chunks: usize = n / 4;
    for i in 0..chunks
        invariant
            n == a@.len(),
            a@.len() <= b@.len(),
            chunks == n / 4,
            functional_dot::<S>(false) ==> {
                &&& s0 == strided(zero(), a@, b@, 0, 4, i as int)
                &&& s1 == strided(zero(), a@, b@, 1, 4, i as int)
                &&& s2 == strided(zero(), a@, b@, 2, 4, i as int)
                &&& s3 == strided(zero(), a@, b@, 3, 4, i as int)
            },
    {
        let j: usize = i * 4;
        s0 = s0.plus(a[j].times(b[j]));
        s1 = s1.plus(a[j + 1].times(b[j + 1]));
        s2 = s2.plus(a[j + 2].times(b[j + 2]));
        s3 = s3.plus(a[j + 3].times(b[j + 3]));
    }
    let ghost head = s0;
    for i in (chunks * 4)..n
        invariant
            n == a@.len(),
            a@.len() <= b@.len(),
            chunks == n / 4,
            functional_dot::<S>(false) ==> s0 == strided(head, a@, b@, chunks * 4, 1, i - chunks * 4),
    {
        s0 = s0.plus(a[i].times(b[i]));
    }
    s0.plus(s1).plus(s2).plus(s3)
}

/// The eight lanes of `v`, added as [`fold_lanes`] says.
fn fold_register<S: Scalar>(v: &[S; 8]) -> (r: S)
    ensures
        functional_plus::<S>() ==> r == fold_lanes(v@),
{
    let s0 = v[0].plus(v[4]);
    let s1 = v[1].plus(v[5]);
    let s2 = v[2].plus(v[6]);
    let s3 = v[3].plus(v[7]);
    s0.plus(s1).plus(s2.plus(s3))
}

/// The four registers after all whole blocks of 32.
fn block_registers<S: Scalar>(a: &[S], b: &[S]) -> (acc: [S; 32])
    requires
        a@.len() <= b@.len(),
    ensures
        functional_dot::<S>(true) ==> forall|k: int|
            0 <= k < 32 ==> #[trigger] acc@[k] == block_lane(a@, b@, k),
{
    let n: usize = a.len();
    let mut acc = [S::ratio(0, 1); 32];
    let chunks32: usize = n / 32;
    for i in 0..chunks32
        invariant
            n == a@.len(),
            a@.len() <= b@.len(),
            chunks32 == n / 32,
            functional_dot::<S>(true) ==> forall|k: int|
                0 <= k < 32 ==> #[trigger] acc@[k] == fused_strided(zero(), a@, b@, k, 32, i as int),
    {
        let j: usize = i * 32;
        for k in 0..32usize
            invariant
                n == a@.len(),
                a@.len() <= b@.len(),
                chunks32 == n / 32,
                i < chunks32,
                j == i * 32,
                functional_dot::<S>(true) ==> forall|l: int|
                    0 <= l < 32 ==> #[trigger] acc@[l] == fused_strided(
                        zero(),
                        a@,
                        b@,
                        l,
                        32,
                        if l < k { i + 1 } else { i as int },
                    ),
        {
            acc[k] = a[j + k].times_plus(b[j + k], acc[k]);
        }
    }
    acc
}

/// The first register, after the blocks of 8 that follow the blocks of 32.
fn first_register<S: Scalar>(a: &[S], b: &[S], blocks: &[S; 32]) -> (acc: [S; 8])
    requires
        a@.len() <= b@.len(),
        functional_dot::<S>(true) ==> forall|k: int|
            0 <= k < 32 ==> #[trigger] blocks@[k] == block_lane(a@, b@, k),
    ensures
        functional_dot::<S>(true) ==> forall|l: int|
            0 <= l < 8 ==> #[trigger] acc@[l] == first_lane(a@, b@, l),
{
    let n: usize = a.len();
    let done: usize = n / 32 * 32;
    let chunks8: usize = (n - done) / 8;
    let mut acc = [
        blocks[0],
        blocks[1],
        blocks[2],
        blocks[3],
        blocks[4],
        blocks[5],
        blocks[6],
        blocks[7],
    ];
    for i in 0..chunks8
        invariant
            n == a@.len(),
            a@.len() <= b@.len(),
            done == n / 32 * 32,
            chunks8 == (n - done) / 8,
            functional_dot::<S>(true) ==> forall|l: int|
                0 <= l < 8 ==> #[trigger] acc@[l] == fused_strided(
                    block_lane(a@, b@, l),
                    a@,
                    b@,
                    done + l,
                    8,
                    i as int,
                ),
    {
        let j: usize = done + i * 8;
        for k in 0..8usize
            invariant
                n == a@.len(),
                a@.len() <= b@.len(),
                done == n / 32 * 32,
                chunks8 == (n - done) / 8,
                i < chunks8,
                j == done + i * 8,
                functional_dot::<S>(true) ==> forall|l: int|
                    0 <= l < 8 ==> #[trigger] acc@[l] == fused_strided(
                        block_lane(a@, b@, l),
                        a@,
                        b@,
                        done + l,
                        8,
                        if l < k { i + 1 } else { i as int },
                    ),
        {
            acc[k] = a[j + k].times_plus(b[j + k], acc[k]);
        }
    }
    acc
}

fn dot_avx2<S: Scalar>(a: &[S], b: &[S]) -> (r: S)
    requires
        a@.len() <= b@.len(),
    ensures
        functional_dot::<S>(true) ==> r == dot_in_lanes(a@, b@),
{
    let n: usize = a.len();
    let blocks = block_registers(a, b);
    let first = first_register(a, b, &blocks);
    let mut v = first;
    for l in 0..8usize
        invariant
            functional_dot::<S>(true) ==> forall|k: int|
                0 <= k < 8 ==> #[trigger] first@[k] == first_lane(a@, b@, k),
            functional_dot::<S>(true) ==> forall|k: int|
                0 <= k < 32 ==> #[trigger] blocks@[k] == block_lane(a@, b@, k),
            functional_dot::<S>(true) ==> forall|k: int|
                0 <= k < l ==> #[trigger] v@[k] == summed_lane(a@, b@, k),
    {
        v[l] = first[l].plus(blocks[8 + l]).plus(blocks[16 + l].plus(blocks[24 + l]));
    }
    let mut total = fold_register(&v);
    proof {
        if functional_dot::<S>(true) {
            assert(v@ =~= Seq::new(8, |l: int| summed_lane(a@, b@, l)));
        }
    }
    let tail: usize = n / 8 * 8;
    let ghost folded = total;
    for i in tail..n
        invariant
            n == a@.len(),
            a@.len() <= b@.len(),
            tail == n / 8 * 8,
            functional_dot::<S>(true) ==> total == strided(folded, a@, b@, tail as int, 1, i - tail),
    {
        total = total.plus(a[i].times(b[i]));
    }
    total
}

/// `b` with its negative values cut off at zero.
pub open spec fn clipped<S: Scalar>(b: Seq<S>) -> Seq<S> {
    b.map_values(|x: S| larger(x, zero()))
}

/// A lane cut off at zero: what is not above zero becomes zero.
pub open spec fn lane_clip<S: Scalar>(x: S) -> S {
    if less(zero(), x) {
        x
    } else {
        zero()
    }
}

/// `b` with every value cut off as a lane is.
pub open spec fn lane_clipped<S: Scalar>(b: Seq<S>) -> Seq<S> {
    b.map_values(|x: S| lane_clip(x))
}

/// The dot product of `a` with `b` cut off at zero, in one eight-lane register.
pub open spec fn relu_in_lanes<S: Scalar>(a: Seq<S>, b: Seq<S>) -> S {
    let n = a.len() as int;
    let folded = fold_lanes(
        Seq::new(8, |l: int| fused_strided(zero(), a, lane_clipped(b), l, 8, n / 8)),
    );
    strided(folded, a, clipped(b), n / 8 * 8, 1, n % 8)
}

/// The dot product of `a` with as many values of `b` cut off at zero, in the order that `simd`
/// selects.
pub open spec fn relu_product<S: Scalar>(simd: bool, a: Seq<S>, b: Seq<S>) -> S {
    if simd {
        relu_in_lanes(a, b)
    } else {
        strided(zero(), a, clipped(b), 0, 1, a.len() as int)
    }
}

/// The operations that a dot product with values cut off at zero is computed with are functions.
pub open spec fn functional_relu<S: Scalar>(simd: bool) -> bool {
    &&& functional_dot::<S>(simd)
    &&& functional_max::<S>()
    &&& simd ==> functional_below::<S>()
}

/// The dot product of `a` with `b` cut off at zero; `simd` is as for [`dot`].
pub fn dot_relu<S: Scalar>(a: &[S], b: &[S], simd: bool) -> (r: S)
    requires
        a@.len() <= b@.len(),
    ensures
        functional_relu::<S>(simd) ==> r == relu_product(simd, a@, b@),
{
    if simd {
        return dot_relu_avx2(a, b);
    }
    let n: usize = a.len();
    let mut s = S::ratio(0, 1);
    for i in 0..n
        invariant
            n == a@.len(),
            a@.len() <= b@.len(),
            functional_relu::<S>(simd) ==> s == strided(zero(), a@, clipped(b@), 0, 1, i as int),
    {
        s = s.plus(a[i].times(b[i].max(S::ratio(0, 1))));
    }
    s
}

fn dot_relu_avx2<S: Scalar>(a: &[S], b: &[S]) -> (r: S)
    requires
        a@.len() <= b@.len(),
    ensures
        functional_relu::<S>(true) ==> r == relu_in_lanes(a@, b@),
{
    let n: usize = a.len();
    let z = S::ratio(0, 1);
    let mut acc = [z; 8];
    let chunks: usize = n / 8;
    for i in 0..chunks
        invariant
            n == a@.len(),
            a@.len() <= b@.len(),
            chunks == n / 8,
            functional_relu::<S>(true) ==> z == zero::<S>(),
            functional_relu::<S>(true) ==> forall|k: int|
                0 <= k < 8 ==> #[trigger] acc@[k] == fused_strided(
                    zero(),
                    a@,
                    lane_clipped(b@),
                    k,
                    8,
                    i as int,
                ),
    {
        let j: usize = i * 8;
        for k in 0..8usize
            invariant
                n == a@.len(),
                a@.len() <= b@.len(),
                chunks == n / 8,
                i < chunks,
                j == i * 8,
                functional_relu::<S>(true) ==> z == zero::<S>(),
                functional_relu::<S>(true) ==> forall|l: int|
                    0 <= l < 8 ==> #[trigger] acc@[l] == fused_strided(
                        zero(),
                        a@,
                        lane_clipped(b@),
                        l,
                        8,
                        if l < k { i + 1 } else { i as int },
                    ),
        {
            let x = b[j + k];
            let vb = if z.below(x) { x } else { z };
            acc[k] = a[j + k].times_plus(vb, acc[k]);
        }
    }
    let mut total = fold_register(&acc);
    proof {
        if functional_relu::<S>(true) {
            assert(acc@ =~= Seq::new(
                8,
                |l: int| fused_strided(zero(), a@, lane_clipped(b@), l, 8, n as int / 8),
            ));
        }
    }
    let tail: usize = chunks * 8;
    let ghost folded = total;
    for i in tail..n
        invariant
            n == a@.len(),
            a@.len() <= b@.len(),
            tail == n / 8 * 8,
            functional_relu::<S>(true) ==> total == strided(
                folded,
                a@,
                clipped(b@),
                tail as int,
                1,
                i - tail,
            ),
    {
        total = total.plus(a[i].times(b[i].max(S::ratio(0, 1))));
    }
    total
}

/// Sums with a stride over the same values are the same.
proof fn lemma_same_strided<S: Scalar>(
    acc: S,
    a: Seq<S>,
    b: Seq<S>,
    c: Seq<S>,
    start: int,
    step: int,
    n: int,
)
    requires
        0 <= start,
        0 < step,
        n > 0 ==> start + (n - 1) * step < a.len(),
        forall|i: int| 0 <= i < a.len() ==> #[trigger] b[i] == c[i],
    ensures
        strided(acc, a, b, start, step, n) == strided(acc, a, c, start, step, n),
        fused_strided(acc, a, b, start, step, n) == fused_strided(acc, a, c, start, step, n),
    decreases n,
{
    if n > 0 {
        let i = start + (n - 1) * step;
        assert(0 <= (n - 1) * step && (n - 2) * step <= (n - 1) * step) by (nonlinear_arith)
            requires
                1 <= n,
                0 < step,
        ;
        lemma_same_strided(acc, a, b, c, start, step, n - 1);
        assert(b[i] == c[i]);
    }
}

/// Values of `b` behind as many as `a` has do not count, in either order of summation.
pub proof fn law_dot_ignores_the_rest<S: Scalar>(simd: bool, a: Seq<S>, b: Seq<S>)
    requires
        a.len() <= b.len(),
    ensures
        dot_product(simd, a, b) == dot_product(simd, a, b.take(a.len() as int)),
        relu_product(simd, a, b) == relu_product(simd, a, b.take(a.len() as int)),
{
    let n = a.len() as int;
    let c = b.take(n);
    if simd {
        let v = Seq::new(8, |l: int| summed_lane(a, b, l));
        let w = Seq::new(8, |l: int| summed_lane(a, c, l));
        assert forall|l: int| 0 <= l < 8 implies #[trigger] v[l] == w[l] by {
            lemma_same_strided(zero(), a, b, c, l, 32, n / 32);
            lemma_same_strided(zero(), a, b, c, 8 + l, 32, n / 32);
            lemma_same_strided(zero(), a, b, c, 16 + l, 32, n / 32);
            lemma_same_strided(zero(), a, b, c, 24 + l, 32, n / 32);
            lemma_same_strided(block_lane(a, b, l), a, b, c, n / 32 * 32 + l, 8, n % 32 / 8);
        }
        assert(v =~= w);
        lemma_same_strided(fold_lanes(v), a, b, c, n / 8 * 8, 1, n % 8);

        let x = Seq::new(8, |l: int| fused_strided(zero(), a, lane_clipped(b), l, 8, n / 8));
        let y = Seq::new(8, |l: int| fused_strided(zero(), a, lane_clipped(c), l, 8, n / 8));
        assert forall|l: int| 0 <= l < 8 implies #[trigger] x[l] == y[l] by {
            lemma_same_strided(zero(), a, lane_clipped(b), lane_clipped(c), l, 8, n / 8);
        }
        assert(x =~= y);
        lemma_same_strided(fold_lanes(x), a, clipped(b), clipped(c), n / 8 * 8, 1, n % 8);
    } else {
        let q = n / 4;
        lemma_same_strided(zero(), a, b, c, 0, 4, q);
        lemma_same_strided(zero(), a, b, c, 1, 4, q);
        lemma_same_strided(zero(), a, b, c, 2, 4, q);
        lemma_same_strided(zero(), a, b, c, 3, 4, q);
        lemma_same_strided(strided(zero(), a, b, 0, 4, q), a, b, c, q * 4, 1, n - q * 4);
        lemma_same_strided(zero(), a, clipped(b), clipped(c), 0, 1, n);
    }
}

} // verus!
