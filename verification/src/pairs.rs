//! Pairs among `n` things: how many there are, and all of them in order.
//! The two computations are done by `num_integer` and `itertools`.

use crate::counting::{
    count_range, lemma_count_agree, lemma_count_at_most, lemma_count_none, lemma_count_split,
    lemma_sum_at_most, lemma_sum_with_count, lemma_sum_zero, sum_range,
};
use itertools::Itertools;
use vstd::prelude::*;

verus! {

/// The binomial coefficient: the number of ways to choose `k` of `n` things.
pub open spec fn binomial(n: nat, k: nat) -> nat
    decreases n,
{
    if k == 0 {
        1
    } else if n == 0 {
        0
    } else {
        binomial((n - 1) as nat, (k - 1) as nat) + binomial((n - 1) as nat, k)
    }
}

/// The pairs `(first, b)` with `first < b < n`, by increasing `b`.
pub open spec fn pairs_with_first(first: int, n: int) -> Seq<(int, int)> {
    Seq::new((n - first - 1) as nat, |k: int| (first, first + 1 + k))
}

/// The pairs `(a, b)` with `first <= a < b < n`, by increasing `a`, and for
/// one `a` by increasing `b`.
pub open spec fn pairs_from(first: int, n: int) -> Seq<(int, int)>
    decreases n - first,
{
    if first + 1 >= n {
        Seq::empty()
    } else {
        pairs_with_first(first, n) + pairs_from(first + 1, n)
    }
}

/// All pairs `(a, b)` with `0 <= a < b < n`, in lexicographic order.
pub open spec fn index_pairs(n: int) -> Seq<(int, int)> {
    pairs_from(0, n)
}

/// Pairs held as machine integers, read as pairs of integers.
pub open spec fn as_int_pairs(pairs: Seq<(usize, usize)>) -> Seq<(int, int)> {
    Seq::new(pairs.len(), |k: int| (pairs[k].0 as int, pairs[k].1 as int))
}

/// For a property of pairs and a fixed first member, the property of the
/// second member.
pub open spec fn partner_of(p: spec_fn(int, int) -> bool, first: int) -> spec_fn(int) -> bool {
    |second: int| p(first, second)
}

/// The number of pairs `(a, b)` with `first <= a < b < n` that have the
/// property `p`.
pub open spec fn count_pairs_from(first: int, n: int, p: spec_fn(int, int) -> bool) -> nat
    decreases n - first,
{
    if first >= n {
        0
    } else {
        count_range(first + 1, n, partner_of(p, first)) + count_pairs_from(first + 1, n, p)
    }
}

/// The number of pairs `(a, b)` with `0 <= a < b < n` that have the
/// property `p`.
pub open spec fn count_pairs(n: int, p: spec_fn(int, int) -> bool) -> nat {
    count_pairs_from(0, n, p)
}

/// For a function of pairs and a fixed first member, the function of the
/// second member.
pub open spec fn partner_term(f: spec_fn(int, int) -> nat, first: int) -> spec_fn(int) -> nat {
    |second: int| f(first, second)
}

/// The sum of `f(a, b)` over the pairs `(a, b)` with `first <= a < b < n`.
pub open spec fn sum_pairs_from(first: int, n: int, f: spec_fn(int, int) -> nat) -> nat
    decreases n - first,
{
    if first >= n {
        0
    } else {
        sum_range(first + 1, n, partner_term(f, first)) + sum_pairs_from(first + 1, n, f)
    }
}

/// A property of a column and a pair, for one column: the property of pairs.
pub open spec fn in_column(p: spec_fn(int, int, int) -> bool, column: int) -> spec_fn(
    int,
    int,
) -> bool {
    |a: int, b: int| p(column, a, b)
}

/// A property of a column and a pair, for one pair: the property of
/// columns.
pub open spec fn of_pair(p: spec_fn(int, int, int) -> bool, a: int, b: int) -> spec_fn(
    int,
) -> bool {
    |column: int| p(column, a, b)
}

/// For each column, the number of pairs `(a, b)` with `0 <= a < b < n` that
/// have the property `p` in it.
pub open spec fn pairs_per_column(n: int, p: spec_fn(int, int, int) -> bool) -> spec_fn(
    int,
) -> nat {
    |column: int| count_pairs(n, in_column(p, column))
}

/// For each pair, the number of columns below `width` in which it has the
/// property `p`.
pub open spec fn columns_per_pair(width: int, p: spec_fn(int, int, int) -> bool) -> spec_fn(
    int,
    int,
) -> nat {
    |a: int, b: int| count_range(0, width, of_pair(p, a, b))
}

/// The number of members of a list of pairs that have the property `p`.
pub open spec fn count_listed(pairs: Seq<(int, int)>, p: spec_fn(int, int) -> bool) -> nat
    decreases pairs.len(),
{
    if pairs.len() == 0 {
        0
    } else if p(pairs.last().0, pairs.last().1) {
        count_listed(pairs.drop_last(), p) + 1
    } else {
        count_listed(pairs.drop_last(), p)
    }
}

/// One thing can be chosen of `n` in `n` ways.
pub proof fn lemma_binomial_one(n: nat)
    ensures
        binomial(n, 1) == n,
    decreases n,
{
    if n > 0 {
        lemma_binomial_one((n - 1) as nat);
        assert(binomial((n - 1) as nat, 0) == 1);
    }
}

/// There are `n (n - 1) / 2` pairs among `n` things.
pub proof fn lemma_binomial_two(n: nat)
    ensures
        2 * binomial(n, 2) == n * (n - 1),
    decreases n,
{
    if n > 0 {
        let m = (n - 1) as nat;
        lemma_binomial_two(m);
        lemma_binomial_one(m);
        assert(2 * m + m * (m - 1) == n * (n - 1)) by (nonlinear_arith)
            requires
                m == n - 1,
        ;
    } else {
        assert(n * (n - 1) == 0) by (nonlinear_arith)
            requires
                n == 0,
        ;
    }
}

/// The list from `first` holds pairs `(a, b)` with `first <= a < b < n`
/// only, and each of them.
pub proof fn lemma_pairs_from_members(first: int, n: int)
    requires
        0 <= first,
    ensures
        forall|k: int|
            0 <= k < pairs_from(first, n).len() ==> {
                let pair = #[trigger] pairs_from(first, n)[k];
                first <= pair.0 < pair.1 < n
            },
        forall|a: int, b: int|
            first <= a < b < n ==> #[trigger] pairs_from(first, n).contains((a, b)),
    decreases n - first,
{
    if first + 1 < n {
        lemma_pairs_from_members(first + 1, n);
        let head = pairs_with_first(first, n);
        let tail = pairs_from(first + 1, n);
        let all = pairs_from(first, n);
        assert forall|k: int| 0 <= k < all.len() implies {
            let pair = #[trigger] all[k];
            first <= pair.0 < pair.1 < n
        } by {
            if k >= head.len() {
                assert(all[k] == tail[k - head.len()]);
            }
        }
        assert forall|a: int, b: int| first <= a < b < n implies #[trigger] all.contains(
            (a, b),
        ) by {
            if a == first {
                assert(all[b - first - 1] == (a, b));
            } else {
                assert(tail.contains((a, b)));
                let k = choose|k: int| 0 <= k < tail.len() && tail[k] == (a, b);
                assert(all[head.len() + k] == (a, b));
            }
        }
    }
}

/// A count over a list joined of two is the sum of the counts over both.
pub proof fn lemma_count_listed_joined(
    front: Seq<(int, int)>,
    back: Seq<(int, int)>,
    p: spec_fn(int, int) -> bool,
)
    ensures
        count_listed(front + back, p) == count_listed(front, p) + count_listed(back, p),
    decreases back.len(),
{
    if back.len() == 0 {
        assert(front + back == front);
    } else {
        lemma_count_listed_joined(front, back.drop_last(), p);
        assert((front + back).drop_last() == front + back.drop_last());
    }
}

/// The count over a prefix of a list, one pair longer.
pub proof fn lemma_count_listed_next(pairs: Seq<(int, int)>, k: int, p: spec_fn(int, int) -> bool)
    requires
        0 <= k < pairs.len(),
    ensures
        count_listed(pairs.take(k + 1), p) == count_listed(pairs.take(k), p) + if p(
            pairs[k].0,
            pairs[k].1,
        ) {
            1nat
        } else {
            0nat
        },
        count_listed(pairs.take(k), p) <= k,
    decreases k,
{
    assert(pairs.take(k + 1).drop_last() == pairs.take(k));
    if k > 0 {
        lemma_count_listed_next(pairs, k - 1, p);
    }
}

/// Counting over the list of the pairs with one first member is counting
/// the second members.
pub proof fn lemma_count_listed_with_first(first: int, n: int, p: spec_fn(int, int) -> bool)
    requires
        first < n,
    ensures
        count_listed(pairs_with_first(first, n), p) == count_range(
            first + 1,
            n,
            partner_of(p, first),
        ),
    decreases n - first,
{
    if first + 1 < n {
        lemma_count_listed_with_first(first, n - 1, p);
        assert(pairs_with_first(first, n).drop_last() == pairs_with_first(first, n - 1));
    }
}

/// Counting over the list of all pairs is counting the pairs.
pub proof fn lemma_count_listed_pairs(first: int, n: int, p: spec_fn(int, int) -> bool)
    ensures
        count_listed(pairs_from(first, n), p) == count_pairs_from(first, n, p),
    decreases n - first,
{
    if first + 1 < n {
        lemma_count_listed_pairs(first + 1, n, p);
        lemma_count_listed_joined(pairs_with_first(first, n), pairs_from(first + 1, n), p);
        lemma_count_listed_with_first(first, n, p);
    } else if first < n {
        assert(count_pairs_from(first + 1, n, p) == 0);
    }
}

/// Where a pair has the property `p` exactly when both its members have the
/// property `q`, the pairs with `p` are the pairs among the things with `q`.
pub proof fn lemma_count_pairs_among(
    first: int,
    n: int,
    p: spec_fn(int, int) -> bool,
    q: spec_fn(int) -> bool,
)
    requires
        forall|a: int, b: int| first <= a < b < n ==> #[trigger] p(a, b) == (q(a) && q(b)),
    ensures
        count_pairs_from(first, n, p) == binomial(count_range(first, n, q), 2),
    decreases n - first,
{
    if first < n {
        lemma_count_pairs_among(first + 1, n, p, q);
        lemma_count_split(first, first + 1, n, q);
        assert(count_range(first, first + 1, q) == if q(first) {
            1nat
        } else {
            0nat
        }) by {
            assert(count_range(first, first, q) == 0);
        }
        let rest = count_range(first + 1, n, q);
        if q(first) {
            assert forall|b: int| first + 1 <= b < n implies #[trigger] partner_of(p, first)(b)
                == q(b) by {
                assert(p(first, b) == (q(first) && q(b)));
            }
            lemma_count_agree(first + 1, n, partner_of(p, first), q);
            lemma_binomial_one(rest);
            assert(binomial(rest + 1, 2) == binomial(rest, 1) + binomial(rest, 2));
        } else {
            assert forall|b: int| first + 1 <= b < n implies !#[trigger] partner_of(p, first)(
                b,
            ) by {
                assert(p(first, b) == (q(first) && q(b)));
            }
            lemma_count_none(first + 1, n, partner_of(p, first));
        }
    } else {
        assert(binomial(0, 2) == 0);
    }
}

/// Two properties that agree on the pairs count the same.
pub proof fn lemma_count_pairs_agree(
    first: int,
    n: int,
    p: spec_fn(int, int) -> bool,
    q: spec_fn(int, int) -> bool,
)
    requires
        forall|a: int, b: int| first <= a < b < n ==> #[trigger] p(a, b) == q(a, b),
    ensures
        count_pairs_from(first, n, p) == count_pairs_from(first, n, q),
    decreases n - first,
{
    if first < n {
        lemma_count_pairs_agree(first + 1, n, p, q);
        assert forall|b: int| first + 1 <= b < n implies #[trigger] partner_of(p, first)(b)
            == partner_of(q, first)(b) by {
            assert(p(first, b) == q(first, b));
        }
        lemma_count_agree(first + 1, n, partner_of(p, first), partner_of(q, first));
    }
}

/// A property has at most as many pairs as one that holds of each pair of
/// which it holds.
pub proof fn lemma_count_pairs_at_most(
    first: int,
    n: int,
    p: spec_fn(int, int) -> bool,
    q: spec_fn(int, int) -> bool,
)
    requires
        forall|a: int, b: int| first <= a < b < n && #[trigger] p(a, b) ==> q(a, b),
    ensures
        count_pairs_from(first, n, p) <= count_pairs_from(first, n, q),
    decreases n - first,
{
    if first < n {
        lemma_count_pairs_at_most(first + 1, n, p, q);
        assert forall|b: int| first + 1 <= b < n && #[trigger] partner_of(p, first)(
            b,
        ) implies partner_of(q, first)(b) by {
            assert(p(first, b));
        }
        lemma_count_at_most(first + 1, n, partner_of(p, first), partner_of(q, first));
    }
}

/// A sum over the pairs is bounded by the sum of a function that is on no
/// pair smaller.
pub proof fn lemma_sum_pairs_at_most(
    first: int,
    n: int,
    f: spec_fn(int, int) -> nat,
    g: spec_fn(int, int) -> nat,
)
    requires
        forall|a: int, b: int| first <= a < b < n ==> #[trigger] f(a, b) <= g(a, b),
    ensures
        sum_pairs_from(first, n, f) <= sum_pairs_from(first, n, g),
    decreases n - first,
{
    if first < n {
        lemma_sum_pairs_at_most(first + 1, n, f, g);
        assert forall|b: int| first + 1 <= b < n implies #[trigger] partner_term(f, first)(b)
            <= partner_term(g, first)(b) by {
            assert(f(first, b) <= g(first, b));
        }
        lemma_sum_at_most(first + 1, n, partner_term(f, first), partner_term(g, first));
    }
}

/// Where `h` is `f` plus one on each pair with the property `p`, the sum of
/// `h` over the pairs is the sum of `f` plus the number of pairs with `p`.
pub proof fn lemma_sum_pairs_with_count(
    first: int,
    n: int,
    f: spec_fn(int, int) -> nat,
    p: spec_fn(int, int) -> bool,
    h: spec_fn(int, int) -> nat,
)
    requires
        forall|a: int, b: int|
            first <= a < b < n ==> #[trigger] h(a, b) == f(a, b) + if p(a, b) {
                1nat
            } else {
                0nat
            },
    ensures
        sum_pairs_from(first, n, h) == sum_pairs_from(first, n, f) + count_pairs_from(
            first,
            n,
            p,
        ),
    decreases n - first,
{
    if first < n {
        lemma_sum_pairs_with_count(first + 1, n, f, p, h);
        assert forall|b: int| first + 1 <= b < n implies #[trigger] partner_term(h, first)(b)
            == partner_term(f, first)(b) + if partner_of(p, first)(b) {
            1nat
        } else {
            0nat
        } by {
            assert(h(first, b) == f(first, b) + if p(first, b) {
                1nat
            } else {
                0nat
            });
        }
        lemma_sum_with_count(
            first + 1,
            n,
            partner_term(f, first),
            partner_of(p, first),
            partner_term(h, first),
        );
    }
}

/// A sum of zeros over the pairs is zero.
pub proof fn lemma_sum_pairs_zero(first: int, n: int, f: spec_fn(int, int) -> nat)
    requires
        forall|a: int, b: int| first <= a < b < n ==> #[trigger] f(a, b) == 0,
    ensures
        sum_pairs_from(first, n, f) == 0,
    decreases n - first,
{
    if first < n {
        lemma_sum_pairs_zero(first + 1, n, f);
        assert forall|b: int| first + 1 <= b < n implies #[trigger] partner_term(f, first)(b)
            == 0 by {
            assert(f(first, b) == 0);
        }
        lemma_sum_zero(first + 1, n, partner_term(f, first));
    }
}

/// Counting column by column and counting pair by pair come to the same:
/// the pairs with the property `p`, summed over the columns below `width`,
/// are as many as the columns with it, summed over the pairs.
pub proof fn lemma_pairs_by_column(width: int, n: int, p: spec_fn(int, int, int) -> bool)
    ensures
        sum_range(0, width, pairs_per_column(n, p)) == sum_pairs_from(
            0,
            n,
            columns_per_pair(width, p),
        ),
    decreases width,
{
    if width > 0 {
        lemma_pairs_by_column(width - 1, n, p);
        lemma_sum_pairs_with_count(
            0,
            n,
            columns_per_pair(width - 1, p),
            in_column(p, width - 1),
            columns_per_pair(width, p),
        );
    } else {
        lemma_sum_pairs_zero(0, n, columns_per_pair(width, p));
    }
}

/// The binomial coefficient of `n` and `k`, by `num_integer::binomial` at
/// `u128`. Not proved here, but taken from that function: that it returns
/// the coefficient wherever the coefficient fits in 128 bits. It multiplies
/// its way through the coefficients of `n` and 1, 2, ... up to the smaller
/// of `k` and `n - k`, dividing before it multiplies, so that no step
/// exceeds the result: where the result fits, nothing overflows.
#[verifier::external_body]
pub(crate) fn binomial_u128(n: u128, k: u128) -> (coefficient: u128)
    requires
        binomial(n as nat, k as nat) <= u128::MAX,
    ensures
        coefficient == binomial(n as nat, k as nat),
{
    num_integer::binomial(n, k)
}

/// All pairs of indices below `n`, by `Itertools::tuple_combinations` on
/// the range from 0 to `n`. Not proved here, but taken from that adaptor:
/// that it pairs each item of its input with each later item, and goes
/// through the first members in the order of the input, and for each
/// through the second members in that order, so that the pairs collected
/// from the range are `index_pairs(n)`.
#[verifier::external_body]
pub(crate) fn tuple_combinations(n: usize) -> (pairs: Vec<(usize, usize)>)
    ensures
        as_int_pairs(pairs@) == index_pairs(n as int),
{
    (0..n).tuple_combinations().collect()
}

} // verus!
