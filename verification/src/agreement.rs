//! The two orders of summation give the same dot product where its partial sums are exact.
//!
//! A rounded sum depends on the order of its terms. Where every partial sum, over any of the places
//! and in any order, comes out exact, the order does not matter. [`partial_sums`] says so of the
//! values at hand; [`law_exact_addition`] gives it for numbers whose addition never rounds, and
//! [`crate::whole`] for whole numbers in floating point.

use vstd::arithmetic::div_mod::{lemma_fundamental_div_mod, lemma_mod_multiples_basic};
use vstd::prelude::*;

use crate::scalar::{fused, product, sum, zero, Scalar};
use crate::simd::{
    block_lane, clipped, dot_in_four, dot_in_lanes, dot_product, fold_lanes, fused_strided,
    lane_clipped, relu_in_lanes, relu_product, strided, summed_lane,
};

verus! {

/// The first `n` places.
pub open spec fn places(n: int) -> Set<int> {
    Set::new(|i: int| 0 <= i < n)
}

/// `over` gives the sum of the products at any of the places, and these sums are exact: that of no
/// product is zero, two sums over different places add up to the sum over all of them, and a product
/// at another place is added, rounded once or twice, to give the sum that includes it.
#[verifier::opaque]
pub open spec fn partial_sums<S: Scalar>(
    over: spec_fn(Set<int>) -> S,
    a: Seq<S>,
    b: Seq<S>,
) -> bool {
    let all = places(a.len() as int);
    &&& over(Set::empty()) == zero::<S>()
    &&& forall|x: Set<int>, y: Set<int>|
        x.subset_of(all) && y.subset_of(all) && x.disjoint(y) ==> #[trigger] sum(over(x), over(y))
            == over(x.union(y))
    &&& forall|x: Set<int>, i: int|
        #![trigger over(x), a[i]]
        x.subset_of(all) && all.contains(i) && !x.contains(i) ==> {
            &&& sum(over(x), product(a[i], b[i])) == over(x.insert(i))
            &&& fused(a[i], b[i], over(x)) == over(x.insert(i))
        }
}

proof fn lemma_two<S: Scalar>(
    over: spec_fn(Set<int>) -> S,
    a: Seq<S>,
    b: Seq<S>,
    x: Set<int>,
    y: Set<int>,
    both: Set<int>,
)
    requires
        partial_sums(over, a, b),
        x.subset_of(places(a.len() as int)),
        y.subset_of(places(a.len() as int)),
        x.disjoint(y),
        both =~= x.union(y),
    ensures
        sum(over(x), over(y)) == over(both),
{
    reveal(partial_sums);
}

proof fn lemma_one_more<S: Scalar>(
    over: spec_fn(Set<int>) -> S,
    a: Seq<S>,
    b: Seq<S>,
    x: Set<int>,
    i: int,
    both: Set<int>,
)
    requires
        partial_sums(over, a, b),
        x.subset_of(places(a.len() as int)),
        0 <= i < a.len(),
        !x.contains(i),
        both =~= x.insert(i),
    ensures
        sum(over(x), product(a[i], b[i])) == over(both),
        fused(a[i], b[i], over(x)) == over(both),
{
    reveal(partial_sums);
    assert(places(a.len() as int).contains(i));
    assert(over(x) == over(x) && a[i] == a[i]);
}

/// The places `start`, `start + step`, ..., `n` of them.
spec fn strip(start: int, step: int, n: int) -> Set<int> {
    Set::new(|i: int| start <= i < start + n * step && (i - start) % step == 0)
}

/// A strip is the one before it and its last place.
proof fn lemma_strip(start: int, step: int, n: int)
    requires
        0 < step,
        0 < n,
    ensures
        strip(start, step, n) =~= strip(start, step, n - 1).insert(start + (n - 1) * step),
        !strip(start, step, n - 1).contains(start + (n - 1) * step),
{
    let last = start + (n - 1) * step;
    lemma_mod_multiples_basic(n - 1, step);
    assert((n - 1) * step + step == n * step && 0 <= (n - 1) * step) by (nonlinear_arith)
        requires
            0 < step,
            0 < n,
    ;
    assert forall|i: int| strip(start, step, n).contains(i) implies i == last || strip(
        start,
        step,
        n - 1,
    ).contains(i) by {
        let d = i - start;
        let t = d / step;
        lemma_fundamental_div_mod(d, step);
        if (n - 1) * step <= d {
            assert(t == n - 1) by (nonlinear_arith)
                requires
                    0 < step,
                    (n - 1) * step <= step * t,
                    step * t < n * step,
            ;
            assert(step * t == (n - 1) * step) by (nonlinear_arith)
                requires
                    t == n - 1,
            ;
        }
    }
}

/// Adding up a strip of products on top of a sum over other places.
proof fn lemma_strided<S: Scalar>(
    over: spec_fn(Set<int>) -> S,
    a: Seq<S>,
    b: Seq<S>,
    x: Set<int>,
    start: int,
    step: int,
    n: int,
    both: Set<int>,
)
    requires
        partial_sums(over, a, b),
        0 < step,
        0 <= n,
        x.subset_of(places(a.len() as int)),
        strip(start, step, n).subset_of(places(a.len() as int)),
        x.disjoint(strip(start, step, n)),
        both =~= x.union(strip(start, step, n)),
    ensures
        strided(over(x), a, b, start, step, n) == over(both),
        fused_strided(over(x), a, b, start, step, n) == over(both),
    decreases n,
{
    if n == 0 {
        assert(n * step == 0) by (nonlinear_arith)
            requires
                n == 0,
        ;
        assert(strip(start, step, n) =~= Set::empty());
        assert(both =~= x);
    } else {
        let i = start + (n - 1) * step;
        let less = x.union(strip(start, step, n - 1));
        lemma_strip(start, step, n);
        assert(strip(start, step, n).contains(i));
        assert(forall|j: int|
            strip(start, step, n - 1).contains(j) ==> strip(start, step, n).contains(j));
        lemma_strided(over, a, b, x, start, step, n - 1, less);
        lemma_one_more(over, a, b, less, i, both);
    }
}

/// The same from zero.
proof fn lemma_strided_from_zero<S: Scalar>(
    over: spec_fn(Set<int>) -> S,
    a: Seq<S>,
    b: Seq<S>,
    start: int,
    step: int,
    n: int,
)
    requires
        partial_sums(over, a, b),
        0 < step,
        0 <= n,
        strip(start, step, n).subset_of(places(a.len() as int)),
    ensures
        strided(zero(), a, b, start, step, n) == over(strip(start, step, n)),
        fused_strided(zero(), a, b, start, step, n) == over(strip(start, step, n)),
{
    assert(over(Set::empty()) == zero::<S>()) by {
        reveal(partial_sums);
    }
    lemma_strided(over, a, b, Set::empty(), start, step, n, strip(start, step, n));
}

/// The sum in four interleaved parts is the sum over all places.
proof fn lemma_in_four<S: Scalar>(over: spec_fn(Set<int>) -> S, a: Seq<S>, b: Seq<S>)
    requires
        partial_sums(over, a, b),
    ensures
        dot_in_four(a, b) == over(places(a.len() as int)),
{
    let n = a.len() as int;
    let q = n / 4;
    let x0 = strip(0, 4, q);
    let x1 = strip(1, 4, q);
    let x2 = strip(2, 4, q);
    let x3 = strip(3, 4, q);
    let y0 = x0.union(strip(q * 4, 1, n - q * 4));
    let y1 = y0.union(x1);
    let y2 = y1.union(x2);
    lemma_strided_from_zero(over, a, b, 0, 4, q);
    lemma_strided_from_zero(over, a, b, 1, 4, q);
    lemma_strided_from_zero(over, a, b, 2, 4, q);
    lemma_strided_from_zero(over, a, b, 3, 4, q);
    lemma_strided(over, a, b, x0, q * 4, 1, n - q * 4, y0);
    lemma_two(over, a, b, y0, x1, y1);
    lemma_two(over, a, b, y1, x2, y2);
    lemma_two(over, a, b, y2, x3, places(n));
}

/// The places below `n` that lane `l` of eight takes.
spec fn lane(l: int, n: int) -> Set<int> {
    Set::new(|i: int| 0 <= i < n && i % 8 == l)
}

/// Folding the sums of eight lanes gives the sum over all their places.
proof fn lemma_fold<S: Scalar>(
    over: spec_fn(Set<int>) -> S,
    a: Seq<S>,
    b: Seq<S>,
    v: Seq<S>,
    n: int,
)
    requires
        partial_sums(over, a, b),
        n <= a.len(),
        forall|l: int| 0 <= l < 8 ==> #[trigger] v[l] == over(lane(l, n)),
    ensures
        fold_lanes(v) == over(places(n)),
{
    let x04 = lane(0, n).union(lane(4, n));
    let x15 = lane(1, n).union(lane(5, n));
    let x26 = lane(2, n).union(lane(6, n));
    let x37 = lane(3, n).union(lane(7, n));
    lemma_two(over, a, b, lane(0, n), lane(4, n), x04);
    lemma_two(over, a, b, lane(1, n), lane(5, n), x15);
    lemma_two(over, a, b, lane(2, n), lane(6, n), x26);
    lemma_two(over, a, b, lane(3, n), lane(7, n), x37);
    lemma_two(over, a, b, x04, x15, x04.union(x15));
    lemma_two(over, a, b, x26, x37, x26.union(x37));
    assert(x04.union(x15).union(x26.union(x37)) =~= places(n));
    lemma_two(over, a, b, x04.union(x15), x26.union(x37), places(n));
}

/// The places below `q` blocks of 32 that lane `k` of the four registers takes.
spec fn block(k: int, q: int) -> Set<int> {
    Set::new(|i: int| 0 <= i < q * 32 && i % 32 == k)
}

/// The places from `q` blocks of 32 on, below `n`, that lane `l` of eight takes.
spec fn rest(l: int, q: int, n: int) -> Set<int> {
    Set::new(|i: int| q * 32 <= i < n && i % 8 == l)
}

/// Lane `l` of eight takes the places that four lanes of 32 take, and the rest.
proof fn lemma_lane_of_blocks(l: int, q: int, n: int)
    requires
        0 <= l < 8,
        0 <= q,
        q * 32 <= n,
    ensures
        block(l, q).union(rest(l, q, n)).union(block(8 + l, q)).union(
            block(16 + l, q).union(block(24 + l, q)),
        ) =~= lane(l, n),
{
    assert forall|i: int| 0 <= i implies (#[trigger] (i % 8) == l <==> i % 32 == l || i % 32 == 8 + l
        || i % 32 == 16 + l || i % 32 == 24 + l) by {}
}

/// Lane `k` of the four registers is the sum over its places.
proof fn lemma_block<S: Scalar>(over: spec_fn(Set<int>) -> S, a: Seq<S>, b: Seq<S>, k: int)
    requires
        partial_sums(over, a, b),
        0 <= k < 32,
    ensures
        block_lane(a, b, k) == over(block(k, a.len() as int / 32)),
{
    let q = a.len() as int / 32;
    assert(strip(k, 32, q) =~= block(k, q));
    lemma_strided_from_zero(over, a, b, k, 32, q);
}

/// Lane `l` of the four registers' sum is the sum over the places of that lane.
proof fn lemma_summed_lane<S: Scalar>(
    over: spec_fn(Set<int>) -> S,
    a: Seq<S>,
    b: Seq<S>,
    l: int,
)
    requires
        partial_sums(over, a, b),
        0 <= l < 8,
    ensures
        summed_lane(a, b, l) == over(lane(l, a.len() as int / 8 * 8)),
{
    let n = a.len() as int;
    let q = n / 32;
    let e = n % 32 / 8;
    let m = n / 8 * 8;
    let x0 = block(l, q);
    let x1 = block(8 + l, q);
    let x2 = block(16 + l, q);
    let x3 = block(24 + l, q);
    let y = rest(l, q, m);
    lemma_block(over, a, b, l);
    lemma_block(over, a, b, 8 + l);
    lemma_block(over, a, b, 16 + l);
    lemma_block(over, a, b, 24 + l);
    assert(strip(q * 32 + l, 8, e) =~= y) by {
        assert(q * 32 + e * 8 == m);
    }
    lemma_strided(over, a, b, x0, q * 32 + l, 8, e, x0.union(y));
    lemma_two(over, a, b, x0.union(y), x1, x0.union(y).union(x1));
    lemma_two(over, a, b, x2, x3, x2.union(x3));
    lemma_lane_of_blocks(l, q, m);
    lemma_two(over, a, b, x0.union(y).union(x1), x2.union(x3), lane(l, m));
}

/// The sum in eight-lane registers is the sum over all places.
proof fn lemma_in_lanes<S: Scalar>(over: spec_fn(Set<int>) -> S, a: Seq<S>, b: Seq<S>)
    requires
        partial_sums(over, a, b),
    ensures
        dot_in_lanes(a, b) == over(places(a.len() as int)),
{
    let n = a.len() as int;
    let m = n / 8 * 8;
    let v = Seq::new(8, |l: int| summed_lane(a, b, l));
    assert forall|l: int| 0 <= l < 8 implies #[trigger] v[l] == over(lane(l, m)) by {
        lemma_summed_lane(over, a, b, l);
    }
    lemma_fold(over, a, b, v, m);
    lemma_strided(over, a, b, places(m), m, 1, n % 8, places(n));
}

/// With or without vector registers the dot product is the same, the sum over all places, where every
/// partial sum is exact.
pub proof fn law_dot_orders_agree<S: Scalar>(
    over: spec_fn(Set<int>) -> S,
    a: Seq<S>,
    b: Seq<S>,
)
    requires
        partial_sums(over, a, b),
    ensures
        dot_product(true, a, b) == over(places(a.len() as int)),
        dot_product(false, a, b) == over(places(a.len() as int)),
{
    lemma_in_four(over, a, b);
    lemma_in_lanes(over, a, b);
}

/// As [`law_dot_orders_agree`], for the dot product with values cut off at zero, in either of the two
/// ways to cut off.
pub proof fn law_relu_orders_agree<S: Scalar>(
    over: spec_fn(Set<int>) -> S,
    a: Seq<S>,
    b: Seq<S>,
)
    requires
        partial_sums(over, a, clipped(b)),
        partial_sums(over, a, lane_clipped(b)),
    ensures
        relu_product(true, a, b) == over(places(a.len() as int)),
        relu_product(false, a, b) == over(places(a.len() as int)),
{
    let n = a.len() as int;
    let m = n / 8 * 8;
    let c = clipped(b);
    let d = lane_clipped(b);
    let v = Seq::new(8, |l: int| fused_strided(zero(), a, d, l, 8, n / 8));
    assert forall|l: int| 0 <= l < 8 implies #[trigger] v[l] == over(lane(l, m)) by {
        assert(strip(l, 8, n / 8) =~= lane(l, m));
        lemma_strided_from_zero(over, a, d, l, 8, n / 8);
    }
    lemma_fold(over, a, d, v, m);
    lemma_strided(over, a, c, places(m), m, 1, n % 8, places(n));
    assert(relu_in_lanes(a, b) == strided(fold_lanes(v), a, c, m, 1, n % 8));
    assert(strip(0, 1, n) =~= places(n));
    lemma_strided_from_zero(over, a, c, 0, 1, n);
}

/// Addition in `S` never rounds: it is commutative and associative with zero as its unit, and
/// multiplying and adding at once is multiplying and then adding.
#[verifier::opaque]
pub open spec fn exact_sums<S: Scalar>() -> bool {
    &&& forall|x: S, y: S| #[trigger] sum(x, y) == sum(y, x)
    &&& forall|x: S, y: S, z: S| #[trigger] sum(sum(x, y), z) == sum(x, sum(y, z))
    &&& forall|x: S| #[trigger] sum(zero(), x) == x
    &&& forall|x: S, y: S, z: S| #[trigger] fused(x, y, z) == sum(product(x, y), z)
}

proof fn lemma_commutes<S: Scalar>(x: S, y: S)
    requires
        exact_sums::<S>(),
    ensures
        sum(x, y) == sum(y, x),
{
    reveal(exact_sums);
}

proof fn lemma_regroups<S: Scalar>(x: S, y: S, z: S)
    requires
        exact_sums::<S>(),
    ensures
        sum(sum(x, y), z) == sum(x, sum(y, z)),
{
    reveal(exact_sums);
}

/// `(x + y) + z == (x + z) + y`.
proof fn lemma_last_two<S: Scalar>(x: S, y: S, z: S)
    requires
        exact_sums::<S>(),
    ensures
        sum(sum(x, y), z) == sum(sum(x, z), y),
{
    lemma_regroups(x, y, z);
    lemma_regroups(x, z, y);
    lemma_commutes(y, z);
}

/// The products at those of the first `n` places that `x` holds, added one after the other.
pub open spec fn picked<S: Scalar>(a: Seq<S>, b: Seq<S>, x: Set<int>, n: int) -> S
    decreases n,
{
    if n <= 0 {
        zero()
    } else if x.contains(n - 1) {
        sum(picked(a, b, x, n - 1), product(a[n - 1], b[n - 1]))
    } else {
        picked(a, b, x, n - 1)
    }
}

proof fn lemma_picked_of_same<S: Scalar>(
    a: Seq<S>,
    b: Seq<S>,
    x: Set<int>,
    y: Set<int>,
    n: int,
)
    requires
        forall|i: int| 0 <= i < n ==> #[trigger] x.contains(i) == y.contains(i),
    ensures
        picked(a, b, x, n) == picked(a, b, y, n),
    decreases n,
{
    if n > 0 {
        lemma_picked_of_same(a, b, x, y, n - 1);
        assert(x.contains(n - 1) == y.contains(n - 1));
    }
}

proof fn lemma_picked_of_none<S: Scalar>(a: Seq<S>, b: Seq<S>, n: int)
    ensures
        picked(a, b, Set::empty(), n) == zero::<S>(),
    decreases n,
{
    if n > 0 {
        lemma_picked_of_none(a, b, n - 1);
    }
}

proof fn lemma_picked_of_two<S: Scalar>(
    a: Seq<S>,
    b: Seq<S>,
    x: Set<int>,
    y: Set<int>,
    n: int,
)
    requires
        exact_sums::<S>(),
        x.disjoint(y),
    ensures
        sum(picked(a, b, x, n), picked(a, b, y, n)) == picked(a, b, x.union(y), n),
    decreases n,
{
    if n <= 0 {
        reveal(exact_sums);
    } else {
        let t = product(a[n - 1], b[n - 1]);
        let px = picked(a, b, x, n - 1);
        let py = picked(a, b, y, n - 1);
        lemma_picked_of_two(a, b, x, y, n - 1);
        lemma_last_two(px, t, py);
        lemma_regroups(px, py, t);
    }
}

proof fn lemma_picked_of_one_more<S: Scalar>(
    a: Seq<S>,
    b: Seq<S>,
    x: Set<int>,
    i: int,
    n: int,
)
    requires
        exact_sums::<S>(),
        0 <= i < n,
        !x.contains(i),
    ensures
        sum(picked(a, b, x, n), product(a[i], b[i])) == picked(a, b, x.insert(i), n),
    decreases n,
{
    if i == n - 1 {
        lemma_picked_of_same(a, b, x, x.insert(i), n - 1);
    } else {
        lemma_picked_of_one_more(a, b, x, i, n - 1);
        lemma_last_two(
            picked(a, b, x, n - 1),
            product(a[n - 1], b[n - 1]),
            product(a[i], b[i]),
        );
    }
}

/// Where addition never rounds, every partial sum is exact.
pub proof fn law_exact_addition<S: Scalar>(a: Seq<S>, b: Seq<S>)
    requires
        exact_sums::<S>(),
    ensures
        partial_sums(|x: Set<int>| picked(a, b, x, a.len() as int), a, b),
{
    let n = a.len() as int;
    let over = |x: Set<int>| picked(a, b, x, n);
    reveal(partial_sums);
    lemma_picked_of_none(a, b, n);
    assert forall|x: Set<int>, y: Set<int>|
        x.subset_of(places(n)) && y.subset_of(places(n)) && x.disjoint(y) implies #[trigger] sum(
        over(x),
        over(y),
    ) == over(x.union(y)) by {
        lemma_picked_of_two(a, b, x, y, n);
    }
    assert forall|x: Set<int>, i: int|
        #![trigger over(x), a[i]]
        x.subset_of(places(n)) && places(n).contains(i) && !x.contains(i) implies {
        &&& sum(over(x), product(a[i], b[i])) == over(x.insert(i))
        &&& fused(a[i], b[i], over(x)) == over(x.insert(i))
    } by {
        lemma_picked_of_one_more(a, b, x, i, n);
        lemma_commutes(over(x), product(a[i], b[i]));
        reveal(exact_sums);
    }
}

} // verus!
