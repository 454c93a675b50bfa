//! Dot products of whole numbers are exact.
//!
//! Single precision holds the whole numbers up to 2^24 exactly, and adds and multiplies them without
//! rounding as long as no result is larger. What is used of this is [`exact_up_to`]. On such values a
//! dot product is the number that it should be, of any length and in either order of summation. The
//! same goes for multiples of a power of two in place of whole numbers.

use vstd::prelude::*;

use crate::agreement::{law_dot_orders_agree, law_relu_orders_agree, partial_sums, places};
use crate::scalar::{fused, larger, product, sum, zero, Scalar};
use crate::simd::{clipped, dot_product, lane_clip, lane_clipped, relu_product};

verus! {

/// The size of a whole number.
pub open spec fn size(n: int) -> int {
    if n < 0 {
        -n
    } else {
        n
    }
}

/// The larger of a whole number and zero.
pub open spec fn cut_off(n: int) -> int {
    if n < 0 {
        0
    } else {
        n
    }
}

/// The sum of whole numbers.
pub open spec fn total(p: Seq<int>) -> int
    decreases p.len(),
{
    if p.len() == 0 {
        0
    } else {
        total(p.drop_last()) + p.last()
    }
}

/// The sizes of whole numbers.
pub open spec fn sizes(p: Seq<int>) -> Seq<int> {
    p.map_values(|n: int| size(n))
}

/// The products of whole numbers, place by place.
pub open spec fn products(x: Seq<int>, y: Seq<int>) -> Seq<int> {
    Seq::new(x.len(), |i: int| x[i] * y[i])
}

/// Up to `limit`, `whole` gives whole numbers as numbers whose sums are exact: zero is one of them,
/// the sum of two is one, and so is the sum of one and a product of values that stand for whole
/// numbers, rounded once or twice. (A value can stand for a whole number without being the one that
/// `whole` gives: in floating point there are two zeros.)
#[verifier::opaque]
pub open spec fn exact_up_to<S: Scalar>(
    limit: int,
    whole: spec_fn(int) -> S,
    stands: spec_fn(S, int) -> bool,
) -> bool {
    &&& whole(0) == zero::<S>()
    &&& forall|m: int, n: int|
        size(m) <= limit && size(n) <= limit && size(m + n) <= limit ==> #[trigger] sum(
            whole(m),
            whole(n),
        ) == whole(m + n)
    &&& forall|m: int, x: int, y: int, u: S, v: S|
        #![trigger whole(m), stands(u, x), stands(v, y)]
        stands(u, x) && stands(v, y) && size(m) <= limit && size(x * y) <= limit && size(
            m + x * y,
        ) <= limit ==> {
            &&& sum(whole(m), product(u, v)) == whole(m + x * y)
            &&& fused(u, v, whole(m)) == whole(m + x * y)
        }
}

/// The values stand for the whole numbers, as many as there are of these.
pub open spec fn stand_for<S>(stands: spec_fn(S, int) -> bool, a: Seq<S>, x: Seq<int>) -> bool {
    &&& x.len() <= a.len()
    &&& forall|i: int| 0 <= i < x.len() ==> stands(#[trigger] a[i], x[i])
}

/// Two whole numbers are added exactly.
pub proof fn lemma_whole_sum<S: Scalar>(
    limit: int,
    whole: spec_fn(int) -> S,
    stands: spec_fn(S, int) -> bool,
    m: int,
    n: int,
)
    requires
        exact_up_to(limit, whole, stands),
        size(m) <= limit,
        size(n) <= limit,
        size(m + n) <= limit,
    ensures
        sum(whole(m), whole(n)) == whole(m + n),
        whole(0) == zero::<S>(),
{
    reveal(exact_up_to);
}

/// The product of values that stand for whole numbers is added exactly.
pub proof fn lemma_whole_product<S: Scalar>(
    limit: int,
    whole: spec_fn(int) -> S,
    stands: spec_fn(S, int) -> bool,
    m: int,
    u: S,
    x: int,
    v: S,
    y: int,
)
    requires
        exact_up_to(limit, whole, stands),
        stands(u, x),
        stands(v, y),
        size(m) <= limit,
        size(x * y) <= limit,
        size(m + x * y) <= limit,
    ensures
        sum(whole(m), product(u, v)) == whole(m + x * y),
        fused(u, v, whole(m)) == whole(m + x * y),
{
    reveal(exact_up_to);
    assert(whole(m) == whole(m));
}

/// Cutting a value off at zero, in either of the two ways, cuts off the whole number that it stands for.
#[verifier::opaque]
pub open spec fn cuts_off<S: Scalar>(stands: spec_fn(S, int) -> bool) -> bool {
    forall|u: S, n: int| #[trigger]
        stands(u, n) ==> stands(larger(u, zero()), cut_off(n)) && stands(lane_clip(u), cut_off(n))
}

proof fn lemma_cut<S: Scalar>(stands: spec_fn(S, int) -> bool, u: S, n: int)
    requires
        cuts_off(stands),
        stands(u, n),
    ensures
        stands(larger(u, zero()), cut_off(n)),
        stands(lane_clip(u), cut_off(n)),
{
    reveal(cuts_off);
}

/// The sum of those of the first `n` whole numbers whose places `x` holds.
spec fn picked(p: Seq<int>, x: Set<int>, n: int) -> int
    decreases n,
{
    if n <= 0 {
        0
    } else if x.contains(n - 1) {
        picked(p, x, n - 1) + p[n - 1]
    } else {
        picked(p, x, n - 1)
    }
}

proof fn lemma_picked_of_two(p: Seq<int>, x: Set<int>, y: Set<int>, n: int)
    requires
        x.disjoint(y),
    ensures
        picked(p, x.union(y), n) == picked(p, x, n) + picked(p, y, n),
    decreases n,
{
    if n > 0 {
        lemma_picked_of_two(p, x, y, n - 1);
    }
}

proof fn lemma_picked_of_one(p: Seq<int>, i: int, n: int)
    requires
        0 <= i,
    ensures
        picked(p, set![i], n) == if i < n {
            p[i]
        } else {
            0
        },
    decreases n,
{
    if n > 0 {
        lemma_picked_of_one(p, i, n - 1);
    }
}

proof fn lemma_picked_of_none(p: Seq<int>, n: int)
    ensures
        picked(p, Set::empty(), n) == 0,
    decreases n,
{
    if n > 0 {
        lemma_picked_of_none(p, n - 1);
    }
}

proof fn lemma_picked_of_all(p: Seq<int>, n: int, m: int)
    requires
        0 <= n <= m,
        n <= p.len(),
    ensures
        picked(p, places(m), n) == total(p.take(n)),
    decreases n,
{
    if n > 0 {
        lemma_picked_of_all(p, n - 1, m);
        assert(p.take(n).drop_last() =~= p.take(n - 1));
    }
}

/// No partial sum is larger than all sizes together.
proof fn lemma_picked_size(p: Seq<int>, x: Set<int>, n: int)
    requires
        0 <= n <= p.len(),
    ensures
        size(picked(p, x, n)) <= total(sizes(p).take(n)),
    decreases n,
{
    if n > 0 {
        lemma_picked_size(p, x, n - 1);
        assert(sizes(p).take(n).drop_last() =~= sizes(p).take(n - 1));
    }
}

/// The partial sums of products of whole numbers are exact.
proof fn lemma_partial_sums<S: Scalar>(
    limit: int,
    whole: spec_fn(int) -> S,
    stands: spec_fn(S, int) -> bool,
    a: Seq<S>,
    b: Seq<S>,
    x: Seq<int>,
    y: Seq<int>,
)
    requires
        exact_up_to(limit, whole, stands),
        x.len() == a.len(),
        y.len() == a.len(),
        stand_for(stands, a, x),
        stand_for(stands, b, y),
        total(sizes(products(x, y))) <= limit,
    ensures
        partial_sums(
            |s: Set<int>| whole(picked(products(x, y), s, a.len() as int)),
            a,
            b,
        ),
{
    let n = a.len() as int;
    let p = products(x, y);
    let over = |s: Set<int>| whole(picked(p, s, n));
    reveal(partial_sums);
    lemma_picked_of_none(p, n);
    assert(sizes(p).take(n) =~= sizes(p));
    lemma_picked_size(p, Set::empty(), n);
    assert(whole(0) == zero::<S>()) by {
        lemma_whole_sum(limit, whole, stands, 0, 0);
    }
    assert forall|s: Set<int>, t: Set<int>|
        s.subset_of(places(n)) && t.subset_of(places(n)) && s.disjoint(t) implies #[trigger] sum(
        over(s),
        over(t),
    ) == over(s.union(t)) by {
        lemma_picked_of_two(p, s, t, n);
        lemma_picked_size(p, s, n);
        lemma_picked_size(p, t, n);
        lemma_picked_size(p, s.union(t), n);
        lemma_whole_sum(limit, whole, stands, picked(p, s, n), picked(p, t, n));
    }
    assert forall|s: Set<int>, i: int|
        #![trigger over(s), a[i]]
        s.subset_of(places(n)) && places(n).contains(i) && !s.contains(i) implies {
        &&& sum(over(s), product(a[i], b[i])) == over(s.insert(i))
        &&& fused(a[i], b[i], over(s)) == over(s.insert(i))
    } by {
        assert(s.insert(i) =~= s.union(set![i]));
        lemma_picked_of_two(p, s, set![i], n);
        lemma_picked_of_one(p, i, n);
        lemma_picked_size(p, s, n);
        lemma_picked_size(p, set![i], n);
        lemma_picked_size(p, s.insert(i), n);
        assert(stands(a[i], x[i]) && stands(b[i], y[i]));
        lemma_whole_product(limit, whole, stands, picked(p, s, n), a[i], x[i], b[i], y[i]);
    }
}

/// The dot product of values that stand for whole numbers is the sum of the products, in either order
/// of summation and of any length, as long as the sizes of the products add up to no more than
/// `limit`, which in single precision can be 2^24. So the two orders agree on such values.
pub proof fn law_dot_of_whole_numbers<S: Scalar>(
    limit: int,
    whole: spec_fn(int) -> S,
    stands: spec_fn(S, int) -> bool,
    a: Seq<S>,
    b: Seq<S>,
    x: Seq<int>,
    y: Seq<int>,
)
    requires
        exact_up_to(limit, whole, stands),
        x.len() == a.len(),
        y.len() == a.len(),
        stand_for(stands, a, x),
        stand_for(stands, b, y),
        total(sizes(products(x, y))) <= limit,
    ensures
        dot_product(true, a, b) == whole(total(products(x, y))),
        dot_product(false, a, b) == whole(total(products(x, y))),
{
    let n = a.len() as int;
    let p = products(x, y);
    lemma_partial_sums(limit, whole, stands, a, b, x, y);
    law_dot_orders_agree(|s: Set<int>| whole(picked(p, s, n)), a, b);
    lemma_picked_of_all(p, n, n);
    assert(p.take(n) =~= p);
}

/// As [`law_dot_of_whole_numbers`], for the dot product with values cut off at zero, where cutting a
/// value off, in either of the two ways, cuts off the whole number that it stands for.
pub proof fn law_relu_of_whole_numbers<S: Scalar>(
    limit: int,
    whole: spec_fn(int) -> S,
    stands: spec_fn(S, int) -> bool,
    a: Seq<S>,
    b: Seq<S>,
    x: Seq<int>,
    y: Seq<int>,
)
    requires
        exact_up_to(limit, whole, stands),
        cuts_off(stands),
        x.len() == a.len(),
        y.len() == a.len(),
        stand_for(stands, a, x),
        stand_for(stands, b, y),
        total(sizes(products(x, y.map_values(|n: int| cut_off(n))))) <= limit,
    ensures
        relu_product(true, a, b) == whole(
            total(products(x, y.map_values(|n: int| cut_off(n)))),
        ),
        relu_product(false, a, b) == whole(
            total(products(x, y.map_values(|n: int| cut_off(n)))),
        ),
{
    let n = a.len() as int;
    let z = y.map_values(|n: int| cut_off(n));
    let p = products(x, z);
    let c = clipped(b);
    let d = lane_clipped(b);
    assert forall|i: int| 0 <= i < z.len() implies stands(#[trigger] c[i], z[i]) by {
        lemma_cut(stands, b[i], y[i]);
    }
    assert forall|i: int| 0 <= i < z.len() implies stands(#[trigger] d[i], z[i]) by {
        lemma_cut(stands, b[i], y[i]);
    }
    lemma_partial_sums(limit, whole, stands, a, c, x, z);
    lemma_partial_sums(limit, whole, stands, a, d, x, z);
    law_relu_orders_agree(|s: Set<int>| whole(picked(p, s, n)), a, b);
    lemma_picked_of_all(p, n, n);
    assert(p.take(n) =~= p);
}

} // verus!
