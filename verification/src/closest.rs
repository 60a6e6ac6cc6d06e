//! The smallest distance between a value of one list and a value of another,
//! found by one pass over both lists in ascending order.

use vstd::prelude::*;
use vstd::slice::slice_subrange;
use vstd::slice::slice_to_vec;

verus! {

/// How far apart `x` and `y` are.
pub open spec fn distance(x: int, y: int) -> int {
    if x > y {
        x - y
    } else {
        y - x
    }
}

/// No value of `s` stands before a smaller one.
pub open spec fn is_ascending(s: Seq<i64>) -> bool {
    forall|i: int, j: int| 0 <= i < j < s.len() ==> s[i] <= s[j]
}

/// `d` is the smallest distance between a value of `a` and a value of `b`:
/// some pair is that far apart, and none is nearer.
pub open spec fn is_smallest_distance(a: Seq<i64>, b: Seq<i64>, d: int) -> bool {
    &&& exists|i: int, j: int|
        0 <= i < a.len() && 0 <= j < b.len() && distance(
            #[trigger] a[i] as int,
            #[trigger] b[j] as int,
        ) == d
    &&& forall|i: int, j: int|
        0 <= i < a.len() && 0 <= j < b.len() ==> d <= distance(
            #[trigger] a[i] as int,
            #[trigger] b[j] as int,
        )
}

/// Every distance between a value of `a` and a value of `b` fits in an
/// `i64`.
pub open spec fn distances_fit(a: Seq<i64>, b: Seq<i64>) -> bool {
    forall|i: int, j: int|
        0 <= i < a.len() && 0 <= j < b.len() ==> distance(
            #[trigger] a[i] as int,
            #[trigger] b[j] as int,
        ) <= i64::MAX
}

/// Walking `b` from index `k`, the last index before the distance to `n`
/// grows.
pub open spec fn walk_end(n: int, b: Seq<i64>, k: int) -> int
    decreases b.len() - k,
{
    if 0 <= k && k + 1 < b.len() && distance(b[k + 1] as int, n) <= distance(b[k] as int, n) {
        walk_end(n, b, k + 1)
    } else {
        k
    }
}

/// The walk from `k` ends inside `b`, not before `k`. Up to its end no step
/// took it further from `n`, so no value on the way is nearer to `n` than the
/// one at the end; and the step after the end would take it further.
pub proof fn lemma_walk_end(n: int, b: Seq<i64>, k: int)
    requires
        0 <= k < b.len(),
    ensures
        k <= walk_end(n, b, k) < b.len(),
        forall|t: int|
            k <= t < walk_end(n, b, k) ==> distance(b[t + 1] as int, n) <= distance(
                #[trigger] b[t] as int,
                n,
            ),
        forall|t: int|
            k <= t <= walk_end(n, b, k) ==> distance(b[walk_end(n, b, k)] as int, n) <= distance(
                #[trigger] b[t] as int,
                n,
            ),
        walk_end(n, b, k) + 1 < b.len() ==> distance(b[walk_end(n, b, k) + 1] as int, n)
            > distance(b[walk_end(n, b, k)] as int, n),
    decreases b.len() - k,
{
    if k + 1 < b.len() && distance(b[k + 1] as int, n) <= distance(b[k] as int, n) {
        lemma_walk_end(n, b, k + 1);
        assert(distance(b[walk_end(n, b, k)] as int, n) <= distance(b[k + 1] as int, n));
    }
}

/// On an ascending list the walk from the start ends at a value that is as
/// near to `n` as any value of the list.
pub proof fn lemma_walk_on_ascending(n: int, b: Seq<i64>)
    requires
        is_ascending(b),
        b.len() > 0,
    ensures
        forall|x: int|
            0 <= x < b.len() ==> distance(b[walk_end(n, b, 0)] as int, n) <= distance(
                #[trigger] b[x] as int,
                n,
            ),
{
    lemma_walk_end(n, b, 0);
    let e = walk_end(n, b, 0);
    assert forall|x: int| 0 <= x < b.len() implies distance(b[e] as int, n) <= distance(
        #[trigger] b[x] as int,
        n,
    ) by {
        if x > e {
            assert(b[e] <= b[e + 1]);
            if x > e + 1 {
                assert(b[e + 1] <= b[x]);
            }
        }
    }
}

/// The smallest distance is one number: two that both are it are equal.
pub proof fn lemma_smallest_distance_is_one(a: Seq<i64>, b: Seq<i64>, d: int, e: int)
    requires
        is_smallest_distance(a, b, d),
        is_smallest_distance(a, b, e),
    ensures
        d == e,
{
}

/// The smallest distance is the same whichever list comes first. It is
/// never negative, and it is zero exactly when the lists share a value.
pub proof fn lemma_smallest_distance_facts(a: Seq<i64>, b: Seq<i64>, d: int)
    requires
        is_smallest_distance(a, b, d),
    ensures
        is_smallest_distance(b, a, d),
        d >= 0,
        d == 0 <==> exists|i: int, j: int|
            0 <= i < a.len() && 0 <= j < b.len() && #[trigger] a[i] == #[trigger] b[j],
{
    let (i, j) = choose|i: int, j: int|
        0 <= i < a.len() && 0 <= j < b.len() && distance(
            #[trigger] a[i] as int,
            #[trigger] b[j] as int,
        ) == d;
    assert(distance(b[j] as int, a[i] as int) == d);
    assert forall|j: int, i: int| 0 <= j < b.len() && 0 <= i < a.len() implies d <= distance(
        #[trigger] b[j] as int,
        #[trigger] a[i] as int,
    ) by {
        assert(d <= distance(a[i] as int, b[j] as int));
    }
    if exists|i: int, j: int|
        0 <= i < a.len() && 0 <= j < b.len() && #[trigger] a[i] == #[trigger] b[j] {
        let (p, q) = choose|i: int, j: int|
            0 <= i < a.len() && 0 <= j < b.len() && #[trigger] a[i] == #[trigger] b[j];
        assert(d <= distance(a[p] as int, b[q] as int));
    }
}

/// The smallest distance depends on the values of the lists alone, not on
/// their order.
pub proof fn lemma_smallest_distance_of_same_values(
    a: Seq<i64>,
    b: Seq<i64>,
    other_a: Seq<i64>,
    other_b: Seq<i64>,
    d: int,
)
    requires
        is_smallest_distance(a, b, d),
        a.to_multiset() == other_a.to_multiset(),
        b.to_multiset() == other_b.to_multiset(),
    ensures
        is_smallest_distance(other_a, other_b, d),
{
    lemma_same_members(a, other_a);
    lemma_same_members(b, other_b);
    lemma_same_members(other_a, a);
    lemma_same_members(other_b, b);
    let (i, j) = choose|i: int, j: int|
        0 <= i < a.len() && 0 <= j < b.len() && distance(
            #[trigger] a[i] as int,
            #[trigger] b[j] as int,
        ) == d;
    assert(other_a.contains(a[i]));
    assert(other_b.contains(b[j]));
    let p = choose|p: int| 0 <= p < other_a.len() && other_a[p] == a[i];
    let q = choose|q: int| 0 <= q < other_b.len() && other_b[q] == b[j];
    assert(distance(other_a[p] as int, other_b[q] as int) == d);
    assert forall|p: int, q: int| 0 <= p < other_a.len() && 0 <= q < other_b.len() implies d
        <= distance(#[trigger] other_a[p] as int, #[trigger] other_b[q] as int) by {
        assert(a.contains(other_a[p]));
        assert(b.contains(other_b[q]));
        let i = choose|i: int| 0 <= i < a.len() && a[i] == other_a[p];
        let j = choose|j: int| 0 <= j < b.len() && b[j] == other_b[q];
        assert(d <= distance(a[i] as int, b[j] as int));
    }
}

/// Two lists with the same values, each as often, have the same members.
proof fn lemma_same_members(x: Seq<i64>, y: Seq<i64>)
    requires
        x.to_multiset() == y.to_multiset(),
    ensures
        x.len() == y.len(),
        forall|i: int| 0 <= i < x.len() ==> y.contains(#[trigger] x[i]),
{
    broadcast use vstd::seq_lib::group_to_multiset_ensures;

    vstd::seq_lib::to_multiset_len(x);
    vstd::seq_lib::to_multiset_len(y);
    assert forall|i: int| 0 <= i < x.len() implies y.contains(#[trigger] x[i]) by {
        assert(x.contains(x[i]));
        assert(x.to_multiset().count(x[i]) > 0);
    }
}

/// Lists with the same values have distances that fit alike.
proof fn lemma_same_values_fit(a: Seq<i64>, b: Seq<i64>, low: Seq<i64>, high: Seq<i64>)
    requires
        distances_fit(a, b),
        low.to_multiset() == a.to_multiset(),
        high.to_multiset() == b.to_multiset(),
    ensures
        distances_fit(low, high),
{
    lemma_same_members(low, a);
    lemma_same_members(high, b);
    assert forall|i: int, j: int| 0 <= i < low.len() && 0 <= j < high.len() implies distance(
        #[trigger] low[i] as int,
        #[trigger] high[j] as int,
    ) <= i64::MAX by {
        let x = choose|x: int| 0 <= x < a.len() && a[x] == low[i];
        let y = choose|y: int| 0 <= y < b.len() && b[y] == high[j];
        assert(distance(a[x] as int, b[y] as int) <= i64::MAX);
    }
}

/// `n` is strictly nearer to the value of `b` at `c` than to the one before
/// it, if there is one before it.
spec fn past_midpoint(b: Seq<i64>, c: int, n: int) -> bool {
    c == 0 || b[c - 1] + b[c] < 2 * n
}

/// Puts the values of `v` in ascending order.
///
/// This is `sort_unstable` of the standard library, of which the contract
/// states what its documentation does: afterwards the slice holds the same
/// values, each as often as before, and no value stands before a smaller
/// one.
#[verifier::external_body]
fn sort_ascending(v: &mut Vec<i64>)
    ensures
        final(v)@.to_multiset() == old(v)@.to_multiset(),
        forall|i: int, j: int| 0 <= i < j < final(v)@.len() ==> final(v)@[i] <= final(v)@[j],
{
    v.sort_unstable();
}

/// A copy of `s` in ascending order.
fn sorted_copy(s: &[i64]) -> (v: Vec<i64>)
    ensures
        v@.to_multiset() == s@.to_multiset(),
        is_ascending(v@),
{
    let mut v = slice_to_vec(s);
    sort_ascending(&mut v);
    v
}

/// Walks `b` from its start for as long as no value is further from `n`
/// than the one before, and returns the distance of the value at which that
/// ends, with the first index at that distance. An empty `b` gives nothing.
///
/// On an ascending list this is the least distance from `n` to a value of
/// the list, and the first index at which it is found.
pub fn smallest_diff_from(n: i64, b: &[i64]) -> (r: Option<(i64, usize)>)
    requires
        forall|k: int| 0 <= k < b@.len() ==> distance(#[trigger] b@[k] as int, n as int) <= i64::MAX,
    ensures
        r is None <==> b@.len() == 0,
        r matches Some((diff, index)) ==> {
            &&& index <= walk_end(n as int, b@, 0) < b@.len()
            &&& diff == distance(b@[walk_end(n as int, b@, 0)] as int, n as int)
            &&& diff == distance(b@[index as int] as int, n as int)
            &&& forall|t: int| 0 <= t < index ==> distance(#[trigger] b@[t] as int, n as int) > diff
        },
        r matches Some((diff, index)) ==> is_ascending(b@) ==> forall|x: int|
            0 <= x < b@.len() ==> diff <= distance(#[trigger] b@[x] as int, n as int),
{
    proof {
        if b@.len() > 0 {
            lemma_walk_end(n as int, b@, 0);
            if is_ascending(b@) {
                lemma_walk_on_ascending(n as int, b@);
            }
        }
    }
    let mut best: Option<(i64, usize)> = None;
    let mut k: usize = 0;
    while k < b.len()
        invariant
            k <= b@.len(),
            forall|t: int| 0 <= t < b@.len() ==> distance(#[trigger] b@[t] as int, n as int) <= i64::MAX,
            k == 0 <==> best is None,
            best matches Some((diff, index)) ==> {
                &&& index < k
                &&& diff == distance(b@[k - 1] as int, n as int)
                &&& diff == distance(b@[index as int] as int, n as int)
                &&& walk_end(n as int, b@, 0) == walk_end(n as int, b@, k - 1)
                &&& forall|t: int| 0 <= t < index ==> distance(#[trigger] b@[t] as int, n as int) > diff
                &&& forall|t: int| 0 <= t < k ==> distance(#[trigger] b@[t] as int, n as int) >= diff
            },
        decreases b@.len() - k,
    {
        let m: i64 = b[k];
        assert(distance(b@[k as int] as int, n as int) <= i64::MAX);
        let diff: i64 = if m > n {
            m - n
        } else {
            n - m
        };
        match best {
            None => {
                best = Some((diff, k));
            },
            Some((least, _)) => {
                if diff < least {
                    best = Some((diff, k));
                } else if diff > least {
                    return best;
                }
            },
        }
        k = k + 1;
    }
    best
}

/// The smallest distance between a value of `a` and a value of `b`; nothing
/// when either list is empty. The lists themselves are left as they are.
///
/// Copies of both lists are put in ascending order. For each value of the
/// first in turn, the pass walks on through the second from where it stands
/// to the value nearest to it.
pub fn smallest_difference(a: &[i64], b: &[i64]) -> (r: Option<i64>)
    requires
        distances_fit(a@, b@),
    ensures
        r is None <==> a@.len() == 0 || b@.len() == 0,
        r matches Some(d) ==> is_smallest_distance(a@, b@, d as int),
{
    if a.len() == 0 || b.len() == 0 {
        return None;
    }
    let low = sorted_copy(a);
    let high = sorted_copy(b);
    proof {
        lemma_same_values_fit(a@, b@, low@, high@);
        lemma_same_members(low@, a@);
        lemma_same_members(high@, b@);
    }
    let mut i: usize = 0;
    let mut smallest_diff: Option<i64> = None;
    let mut t: usize = 0;
    let ghost mut at_low: int = 0;
    let ghost mut at_high: int = 0;
    while t < low.len()
        invariant
            t <= low@.len(),
            high@.len() > 0,
            is_ascending(low@),
            is_ascending(high@),
            distances_fit(low@, high@),
            i < high@.len(),
            t > 0 ==> past_midpoint(high@, i as int, low@[t - 1] as int),
            t == 0 ==> i == 0,
            t == 0 <==> smallest_diff is None,
            smallest_diff matches Some(d) ==> {
                &&& 0 <= at_low < t
                &&& 0 <= at_high < high@.len()
                &&& d == distance(low@[at_low] as int, high@[at_high] as int)
                &&& forall|p: int, q: int|
                    0 <= p < t && 0 <= q < high@.len() ==> d <= distance(
                        #[trigger] low@[p] as int,
                        #[trigger] high@[q] as int,
                    )
            },
        decreases low@.len() - t,
    {
        let n: i64 = low[t];
        let rest = slice_subrange(high.as_slice(), i, high.len());
        proof {
            assert(rest@ == high@.skip(i as int));
            assert forall|k: int| 0 <= k < rest@.len() implies distance(
                #[trigger] rest@[k] as int,
                n as int,
            ) <= i64::MAX by {
                assert(rest@[k] == high@[i + k]);
                assert(distance(low@[t as int] as int, high@[i + k] as int) <= i64::MAX);
            }
            assert(is_ascending(rest@)) by {
                assert forall|x: int, y: int| 0 <= x < y < rest@.len() implies rest@[x]
                    <= rest@[y] by {
                    assert(rest@[x] == high@[i + x]);
                    assert(rest@[y] == high@[i + y]);
                }
            }
            if t > 0 {
                assert(low@[t - 1] <= low@[t as int]);
            }
        }
        match smallest_diff_from(n, rest) {
            Some((diff, j)) => {
                proof {
                    assert(rest@[j as int] == high@[i + j]);
                    if j > 0 {
                        assert(rest@[j - 1] == high@[i + j - 1]);
                        assert(distance(rest@[j - 1] as int, n as int) > diff);
                        assert(high@[i + j - 1] <= high@[i + j]);
                    }
                    assert(past_midpoint(high@, i + j, n as int));
                    assert forall|q: int| 0 <= q < high@.len() implies diff <= distance(
                        low@[t as int] as int,
                        #[trigger] high@[q] as int,
                    ) by {
                        if q >= i {
                            assert(rest@[q - i] == high@[q]);
                            assert(diff <= distance(rest@[q - i] as int, n as int));
                        } else {
                            assert(rest@[0] == high@[i as int]);
                            assert(diff <= distance(rest@[0] as int, n as int));
                            assert(high@[q] <= high@[i - 1]);
                            assert(high@[i - 1] <= high@[i as int]);
                        }
                    }
                }
                match smallest_diff {
                    None => {
                        smallest_diff = Some(diff);
                        proof {
                            at_low = t as int;
                            at_high = i + j;
                        }
                    },
                    Some(least) => {
                        if diff < least {
                            smallest_diff = Some(diff);
                            proof {
                                at_low = t as int;
                                at_high = i + j;
                            }
                        }
                    },
                }
                i = i + j;
            },
            None => {
                assert(false);
            },
        }
        t = t + 1;
    }
    proof {
        let d = smallest_diff->0 as int;
        assert(distance(low@[at_low] as int, high@[at_high] as int) == d);
        assert(is_smallest_distance(low@, high@, d));
        lemma_smallest_distance_of_same_values(low@, high@, a@, b@, d);
    }
    smallest_diff
}

} // verus!
