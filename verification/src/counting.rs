//! Counting and summing over a range of integers, with the facts about them
//! that the rest of the library builds on.

use vstd::prelude::*;

verus! {

/// The number of integers `i` with `lo <= i < hi` for which `p(i)` holds.
pub open spec fn count_range(lo: int, hi: int, p: spec_fn(int) -> bool) -> nat
    decreases hi - lo,
{
    if hi <= lo {
        0
    } else if p(hi - 1) {
        count_range(lo, hi - 1, p) + 1
    } else {
        count_range(lo, hi - 1, p)
    }
}

/// The sum of `f(i)` over the integers `i` with `lo <= i < hi`.
pub open spec fn sum_range(lo: int, hi: int, f: spec_fn(int) -> nat) -> nat
    decreases hi - lo,
{
    if hi <= lo {
        0
    } else {
        sum_range(lo, hi - 1, f) + f(hi - 1)
    }
}

/// A range holds at most as many hits as it has members.
pub proof fn lemma_count_bound(lo: int, hi: int, p: spec_fn(int) -> bool)
    requires
        lo <= hi,
    ensures
        count_range(lo, hi, p) <= hi - lo,
    decreases hi - lo,
{
    if lo < hi {
        lemma_count_bound(lo, hi - 1, p);
    }
}

/// Two predicates that agree on a range have the same count there.
pub proof fn lemma_count_agree(lo: int, hi: int, p: spec_fn(int) -> bool, q: spec_fn(int) -> bool)
    requires
        forall|i: int| lo <= i < hi ==> #[trigger] p(i) == q(i),
    ensures
        count_range(lo, hi, p) == count_range(lo, hi, q),
    decreases hi - lo,
{
    if lo < hi {
        lemma_count_agree(lo, hi - 1, p, q);
    }
}

/// A predicate has at most as many hits as one that holds wherever it
/// holds.
pub proof fn lemma_count_at_most(lo: int, hi: int, p: spec_fn(int) -> bool, q: spec_fn(int) -> bool)
    requires
        forall|i: int| lo <= i < hi && #[trigger] p(i) ==> q(i),
    ensures
        count_range(lo, hi, p) <= count_range(lo, hi, q),
    decreases hi - lo,
{
    if lo < hi {
        lemma_count_at_most(lo, hi - 1, p, q);
    }
}

/// A count over a range is the sum of the counts over its two parts.
pub proof fn lemma_count_split(lo: int, mid: int, hi: int, p: spec_fn(int) -> bool)
    requires
        lo <= mid <= hi,
    ensures
        count_range(lo, hi, p) == count_range(lo, mid, p) + count_range(mid, hi, p),
    decreases hi - mid,
{
    if mid < hi {
        lemma_count_split(lo, mid, hi - 1, p);
    }
}

/// The count is zero exactly when the predicate holds nowhere in the range.
pub proof fn lemma_count_none(lo: int, hi: int, p: spec_fn(int) -> bool)
    ensures
        count_range(lo, hi, p) == 0 <==> forall|i: int| lo <= i < hi ==> !#[trigger] p(i),
    decreases hi - lo,
{
    if lo < hi {
        lemma_count_none(lo, hi - 1, p);
        if count_range(lo, hi, p) == 0 {
            assert forall|i: int| lo <= i < hi implies !#[trigger] p(i) by {
                if i < hi - 1 {
                }
            }
        }
    }
}

/// Where a function leads the hits of `p` below `bound` to hits of `q` below
/// `limit`, and a later hit to a later one, `q` has at least as many hits as
/// `p`.
pub proof fn lemma_count_increasing_image(
    bound: int,
    p: spec_fn(int) -> bool,
    limit: int,
    q: spec_fn(int) -> bool,
    image: spec_fn(int) -> int,
)
    requires
        0 <= limit,
        forall|i: int| 0 <= i < bound && #[trigger] p(i) ==> 0 <= image(i) < limit && q(image(i)),
        forall|i: int, j: int|
            0 <= i < j < bound && #[trigger] p(i) && #[trigger] p(j) ==> image(i) < image(j),
    ensures
        count_range(0, bound, p) <= count_range(0, limit, q),
    decreases bound,
{
    if bound > 0 {
        if p(bound - 1) {
            let top = image(bound - 1);
            lemma_count_increasing_image(bound - 1, p, top, q, image);
            lemma_count_split(0, top + 1, limit, q);
        } else {
            lemma_count_increasing_image(bound - 1, p, limit, q, image);
        }
    }
}

/// Two functions that agree on a range have the same sum there.
pub proof fn lemma_sum_agree(lo: int, hi: int, f: spec_fn(int) -> nat, g: spec_fn(int) -> nat)
    requires
        forall|i: int| lo <= i < hi ==> #[trigger] f(i) == g(i),
    ensures
        sum_range(lo, hi, f) == sum_range(lo, hi, g),
    decreases hi - lo,
{
    if lo < hi {
        lemma_sum_agree(lo, hi - 1, f, g);
    }
}

/// A sum over a range is the sum of the sums over its two parts, so it
/// never shrinks when the range grows.
pub proof fn lemma_sum_split(lo: int, mid: int, hi: int, f: spec_fn(int) -> nat)
    requires
        lo <= mid <= hi,
    ensures
        sum_range(lo, hi, f) == sum_range(lo, mid, f) + sum_range(mid, hi, f),
        sum_range(lo, mid, f) <= sum_range(lo, hi, f),
    decreases hi - mid,
{
    if mid < hi {
        lemma_sum_split(lo, mid, hi - 1, f);
    }
}

/// A sum is bounded by the sum of a function that is nowhere smaller.
pub proof fn lemma_sum_at_most(lo: int, hi: int, f: spec_fn(int) -> nat, g: spec_fn(int) -> nat)
    requires
        forall|i: int| lo <= i < hi ==> #[trigger] f(i) <= g(i),
    ensures
        sum_range(lo, hi, f) <= sum_range(lo, hi, g),
    decreases hi - lo,
{
    if lo < hi {
        lemma_sum_at_most(lo, hi - 1, f, g);
    }
}

/// A sum of zeros is zero.
pub proof fn lemma_sum_zero(lo: int, hi: int, f: spec_fn(int) -> nat)
    requires
        forall|i: int| lo <= i < hi ==> #[trigger] f(i) == 0,
    ensures
        sum_range(lo, hi, f) == 0,
    decreases hi - lo,
{
    if lo < hi {
        lemma_sum_zero(lo, hi - 1, f);
    }
}

/// Where `h` is `f` plus one at each hit of `p`, the sum of `h` is the sum
/// of `f` plus the count of `p`.
pub proof fn lemma_sum_with_count(
    lo: int,
    hi: int,
    f: spec_fn(int) -> nat,
    p: spec_fn(int) -> bool,
    h: spec_fn(int) -> nat,
)
    requires
        forall|i: int|
            lo <= i < hi ==> #[trigger] h(i) == f(i) + if p(i) {
                1nat
            } else {
                0nat
            },
    ensures
        sum_range(lo, hi, h) == sum_range(lo, hi, f) + count_range(lo, hi, p),
    decreases hi - lo,
{
    if lo < hi {
        lemma_sum_with_count(lo, hi - 1, f, p, h);
    }
}

} // verus!
