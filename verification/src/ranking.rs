//! Which of several scores is taken: the highest, the lowest, and the order of all of them.

use crate::scalar::Scalar;
use vstd::prelude::*;

verus! {

/// No score from position `i` up to, and without, position `j` is not a number.
pub open spec fn numbers_between(scores: Seq<Scalar>, i: int, j: int) -> bool {
    forall|q: int| i <= q < j ==> !(#[trigger] scores[q]).nan()
}

/// Every score is a number.
pub open spec fn all_numbers(scores: Seq<Scalar>) -> bool {
    numbers_between(scores, 0, scores.len() as int)
}

/// Position `k` holds the score that is taken where the highest wins and the first of several
/// equal ones is kept. What is not a number never holds its place against a later score, so
/// only the scores after the last one of that kind compete, if there are any.
pub open spec fn first_highest(scores: Seq<Scalar>, k: int) -> bool {
    &&& 0 <= k < scores.len()
    &&& forall|j: int| k < j < scores.len() ==> (#[trigger] scores[j]).le_spec(scores[k])
    &&& forall|j: int|
        0 <= j < k && !scores[k].nan() && numbers_between(scores, j, k) ==> (
        #[trigger] scores[j]).lt_spec(scores[k])
}

/// Position `k` holds the score that is taken where the highest wins and the last of several
/// equal ones is kept. What is not a number never holds its place against a later score, so
/// only the scores after the last one of that kind compete, if there are any.
pub open spec fn last_highest(scores: Seq<Scalar>, k: int) -> bool {
    &&& 0 <= k < scores.len()
    &&& forall|j: int| k < j < scores.len() ==> (#[trigger] scores[j]).lt_spec(scores[k])
    &&& forall|j: int|
        0 <= j < k && !scores[k].nan() && numbers_between(scores, j, k) ==> (
        #[trigger] scores[j]).le_spec(scores[k])
}

/// Position `k` holds the score that is taken where the lowest wins and the first of several
/// equal ones is kept. What is not a number is passed over, except in the first place, where
/// it stays.
pub open spec fn first_lowest(scores: Seq<Scalar>, k: int) -> bool {
    &&& 0 <= k < scores.len()
    &&& scores[0].nan() ==> k == 0
    &&& !scores[0].nan() ==> !scores[k].nan() && forall|j: int|
        0 <= j < scores.len() && !(#[trigger] scores[j]).nan() ==> if j < k {
            scores[k].lt_spec(scores[j])
        } else {
            scores[k].le_spec(scores[j])
        }
}

/// A score ranks above another: it is higher, or it is a number and the other is not.
pub open spec fn above(a: Scalar, b: Scalar) -> bool {
    b.lt_spec(a) || (!a.nan() && b.nan())
}

/// Position `a` is ranked before position `b`: its score ranks above the other, or neither ranks
/// above the other and it is earlier.
pub open spec fn ranked_before(scores: Seq<Scalar>, a: int, b: int) -> bool {
    above(scores[a], scores[b]) || (!above(scores[b], scores[a]) && a < b)
}

/// `order` lists each of the first `n` positions once.
pub open spec fn lists_all(order: Seq<usize>, n: nat) -> bool {
    &&& order.len() == n
    &&& order.no_duplicates()
    &&& forall|p: int| 0 <= p < order.len() ==> (#[trigger] order[p]) < n
}

/// Of any two positions that `order` lists, the one ranked before the other comes first.
pub open spec fn listed_by_rank(scores: Seq<Scalar>, order: Seq<usize>) -> bool {
    forall|p: int, q: int|
        0 <= p < q < order.len() ==> ranked_before(
            scores,
            #[trigger] order[p] as int,
            #[trigger] order[q] as int,
        )
}

/// `order` lists every position once, from the highest score to the lowest, the earlier of two
/// equal ones first. What is not a number comes after all numbers.
pub open spec fn is_ranking(scores: Seq<Scalar>, order: Seq<usize>) -> bool {
    lists_all(order, scores.len()) && listed_by_rank(scores, order)
}

/// The position of the highest score, the first of several equal ones.
pub fn pick_first_highest(scores: &[Scalar]) -> (r: Option<usize>)
    ensures
        scores@.len() == 0 <==> r is None,
        r matches Some(k) ==> first_highest(scores@, k as int),
{
    if scores.len() == 0 {
        return None;
    }
    let mut k: usize = 0;
    let mut i: usize = 1;
    while i < scores.len()
        invariant
            0 < i <= scores.len(),
            first_highest(scores@.take(i as int), k as int),
        decreases scores.len() - i,
    {
        let ghost before = scores@.take(i as int);
        let ghost after = scores@.take(i + 1);
        let keep: bool = scores[i].le(scores[k]);
        proof {
            assert(forall|j: int| 0 <= j < i ==> before[j] == after[j]);
            assert(after[i as int] == scores@[i as int]);
            if keep {
                assert(first_highest(after, k as int)) by {
                    assert forall|j: int|
                        0 <= j < k && numbers_between(after, j, k as int) implies (
                    #[trigger] after[j]).lt_spec(after[k as int]) by {
                        assert(numbers_between(before, j, k as int));
                        assert(before[j].lt_spec(before[k as int]));
                    }
                }
            } else {
                assert(first_highest(after, i as int)) by {
                    assert forall|j: int|
                        0 <= j < i && !after[i as int].nan() && numbers_between(
                            after,
                            j,
                            i as int,
                        ) implies (#[trigger] after[j]).lt_spec(after[i as int]) by {
                        if j <= k {
                            assert(!after[k as int].nan());
                            assert(numbers_between(before, j, k as int));
                            assert(before[j].le_spec(before[k as int]));
                        } else {
                            assert(before[j].le_spec(before[k as int]));
                        }
                    }
                }
            }
        }
        if !keep {
            k = i;
        }
        i = i + 1;
    }
    proof {
        assert(scores@.take(i as int) =~= scores@);
    }
    Some(k)
}

/// The position of the highest score, the last of several equal ones.
pub fn pick_last_highest(scores: &[Scalar]) -> (r: Option<usize>)
    ensures
        scores@.len() == 0 <==> r is None,
        r matches Some(k) ==> last_highest(scores@, k as int),
{
    if scores.len() == 0 {
        return None;
    }
    let mut k: usize = 0;
    let mut i: usize = 1;
    while i < scores.len()
        invariant
            0 < i <= scores.len(),
            last_highest(scores@.take(i as int), k as int),
        decreases scores.len() - i,
    {
        let ghost before = scores@.take(i as int);
        let ghost after = scores@.take(i + 1);
        let keep: bool = scores[i].lt(scores[k]);
        proof {
            assert(forall|j: int| 0 <= j < i ==> before[j] == after[j]);
            assert(after[i as int] == scores@[i as int]);
            if keep {
                assert(last_highest(after, k as int)) by {
                    assert forall|j: int|
                        0 <= j < k && numbers_between(after, j, k as int) implies (
                    #[trigger] after[j]).le_spec(after[k as int]) by {
                        assert(numbers_between(before, j, k as int));
                        assert(before[j].le_spec(before[k as int]));
                    }
                }
            } else {
                assert(last_highest(after, i as int)) by {
                    assert forall|j: int|
                        0 <= j < i && !after[i as int].nan() && numbers_between(
                            after,
                            j,
                            i as int,
                        ) implies (#[trigger] after[j]).le_spec(after[i as int]) by {
                        if j <= k {
                            assert(!after[k as int].nan());
                            assert(numbers_between(before, j, k as int));
                            assert(j < k ==> before[j].le_spec(before[k as int]));
                        } else {
                            assert(before[j].lt_spec(before[k as int]));
                        }
                    }
                }
            }
        }
        if !keep {
            k = i;
        }
        i = i + 1;
    }
    proof {
        assert(scores@.take(i as int) =~= scores@);
    }
    Some(k)
}

/// The position of the lowest score, the first of several equal ones.
pub fn pick_first_lowest(scores: &[Scalar]) -> (r: Option<usize>)
    ensures
        scores@.len() == 0 <==> r is None,
        r matches Some(k) ==> first_lowest(scores@, k as int),
{
    if scores.len() == 0 {
        return None;
    }
    let mut k: usize = 0;
    let mut i: usize = 1;
    while i < scores.len()
        invariant
            0 < i <= scores.len(),
            k < i,
            scores@[0].nan() ==> k == 0,
            !scores@[0].nan() ==> !scores@[k as int].nan(),
            !scores@[0].nan() ==> forall|j: int|
                0 <= j < i && !(#[trigger] scores@[j]).nan() ==> if j < k {
                    scores@[k as int].lt_spec(scores@[j])
                } else {
                    scores@[k as int].le_spec(scores@[j])
                },
        decreases scores.len() - i,
    {
        if scores[i].lt(scores[k]) {
            k = i;
        }
        i = i + 1;
    }
    Some(k)
}

/// Whether a score ranks above another.
fn ranks_above(a: Scalar, b: Scalar) -> (r: bool)
    ensures
        r == above(a, b),
{
    b.lt(a) || (!a.is_nan() && b.is_nan())
}

/// All positions, from the highest score to the lowest, the earlier of two equal ones first. What
/// is not a number comes after all numbers.
pub fn rank_descending(scores: &[Scalar]) -> (order: Vec<usize>)
    ensures
        is_ranking(scores@, order@),
{
    let mut order: Vec<usize> = Vec::new();
    let mut i: usize = 0;
    while i < scores.len()
        invariant
            i <= scores.len(),
            lists_all(order@, i as nat),
            listed_by_rank(scores@, order@),
        decreases scores.len() - i,
    {
        let mut p: usize = i;
        while p > 0 && ranks_above(scores[i], scores[order[p - 1]])
            invariant
                p <= i,
                i < scores.len(),
                order.len() == i,
                forall|q: int| 0 <= q < order.len() ==> (#[trigger] order@[q]) < i,
                forall|q: int|
                    p <= q < i ==> above(scores@[i as int], scores@[(#[trigger] order@[q]) as int]),
            decreases p,
        {
            p = p - 1;
        }
        let ghost old_order = order@;
        order.insert(p, i);
        proof {
            assert(forall|q: int| 0 <= q < p ==> order@[q] == old_order[q]);
            assert(forall|q: int| p < q <= i ==> order@[q] == old_order[q - 1]);
            assert(order@[p as int] == i);
            assert(order@.no_duplicates());
            assert forall|a: int, b: int| 0 <= a < b < order.len() implies ranked_before(
                scores@,
                #[trigger] order@[a] as int,
                #[trigger] order@[b] as int,
            ) by {
                if b == p {
                    assert(!above(scores@[i as int], scores@[order@[p - 1] as int]));
                    if a < p - 1 {
                        assert(ranked_before(
                            scores@,
                            old_order[a] as int,
                            old_order[p - 1] as int,
                        ));
                    }
                } else if a == p {
                    assert(above(scores@[i as int], scores@[old_order[b - 1] as int]));
                } else {
                    let x = if a < p {
                        a
                    } else {
                        a - 1
                    };
                    let y = if b < p {
                        b
                    } else {
                        b - 1
                    };
                    assert(ranked_before(scores@, old_order[x] as int, old_order[y] as int));
                }
            }
        }
        i = i + 1;
    }
    order
}

/// At most one position is the first highest.
pub proof fn law_first_highest_is_unique(scores: Seq<Scalar>, a: int, b: int)
    requires
        first_highest(scores, a),
        first_highest(scores, b),
    ensures
        a == b,
{
    if a < b {
        assert(scores[b].le_spec(scores[a]));
        assert(numbers_between(scores, a, b));
    }
    if b < a {
        assert(scores[a].le_spec(scores[b]));
        assert(numbers_between(scores, b, a));
    }
}

/// Among numbers, the one taken is the highest, and the first of those that are as high.
pub proof fn law_first_highest_of_numbers(scores: Seq<Scalar>, k: int)
    requires
        all_numbers(scores),
        first_highest(scores, k),
    ensures
        forall|j: int| 0 <= j < scores.len() ==> (#[trigger] scores[j]).le_spec(scores[k]),
        forall|j: int| 0 <= j < k ==> (#[trigger] scores[j]).lt_spec(scores[k]),
{
    assert forall|j: int| 0 <= j < k implies (#[trigger] scores[j]).lt_spec(scores[k]) by {
        assert(numbers_between(scores, j, k));
    }
}

/// The order in which scores are listed does not change how high the one taken is: two lists
/// with the same scores, however they are arranged, have equally high winners.
pub proof fn law_highest_is_independent_of_order(
    a: Seq<Scalar>,
    b: Seq<Scalar>,
    j: int,
    k: int,
)
    requires
        all_numbers(a),
        a.to_multiset() == b.to_multiset(),
        first_highest(a, j),
        first_highest(b, k),
    ensures
        a[j].key() == b[k].key(),
{
    a.to_multiset_ensures();
    b.to_multiset_ensures();
    assert(a.contains(a[j]));
    assert(b.to_multiset().contains(a[j]));
    assert(b.contains(a[j]));
    assert(b.contains(b[k]));
    assert(a.to_multiset().contains(b[k]));
    assert(a.contains(b[k]));
    assert(all_numbers(b)) by {
        assert forall|q: int| 0 <= q < b.len() implies !(#[trigger] b[q]).nan() by {
            assert(b.contains(b[q]));
            assert(a.to_multiset().contains(b[q]));
            assert(a.contains(b[q]));
        }
    }
    law_first_highest_of_numbers(a, j);
    law_first_highest_of_numbers(b, k);
}

/// At most one position is the last highest.
pub proof fn law_last_highest_is_unique(scores: Seq<Scalar>, a: int, b: int)
    requires
        last_highest(scores, a),
        last_highest(scores, b),
    ensures
        a == b,
{
    if a < b {
        assert(scores[b].lt_spec(scores[a]));
        assert(numbers_between(scores, a, b));
        assert(scores[a].le_spec(scores[b]));
    }
    if b < a {
        assert(scores[a].lt_spec(scores[b]));
        assert(numbers_between(scores, b, a));
        assert(scores[b].le_spec(scores[a]));
    }
}

/// At most one position is the first lowest.
pub proof fn law_first_lowest_is_unique(scores: Seq<Scalar>, a: int, b: int)
    requires
        first_lowest(scores, a),
        first_lowest(scores, b),
    ensures
        a == b,
{
}

/// A ranking lists every position.
pub proof fn law_ranking_is_complete(scores: Seq<Scalar>, order: Seq<usize>, i: usize)
    requires
        is_ranking(scores, order),
        i < scores.len(),
    ensures
        order.contains(i),
{
    let listed = order.map_values(|p: usize| p as int);
    assert(listed.no_duplicates());
    listed.unique_seq_to_set();
    vstd::set_lib::lemma_int_range(0, scores.len() as int);
    let all = vstd::set_lib::set_int_range(0, scores.len() as int);
    assert forall|x: int| listed.to_set().contains(x) implies all.contains(x) by {
        let p = choose|p: int| 0 <= p < listed.len() && listed[p] == x;
        assert(order[p] < scores.len());
    }
    vstd::set_lib::lemma_len_subset(listed.to_set(), all);
    vstd::set_lib::lemma_subset_equality(listed.to_set(), all);
    assert(all.contains(i as int));
    assert(listed.to_set().contains(i as int));
    let p = choose|p: int| 0 <= p < listed.len() && listed[p] == i as int;
    assert(order[p] == i);
}

/// Scores have one ranking only, whether they are numbers or not.
pub proof fn law_ranking_is_unique(scores: Seq<Scalar>, a: Seq<usize>, b: Seq<usize>)
    requires
        is_ranking(scores, a),
        is_ranking(scores, b),
    ensures
        a == b,
{
    lemma_same_start(scores, a, b, scores.len() as int);
    assert(a =~= b);
}

proof fn lemma_same_start(scores: Seq<Scalar>, a: Seq<usize>, b: Seq<usize>, n: int)
    requires
        is_ranking(scores, a),
        is_ranking(scores, b),
        0 <= n <= scores.len(),
    ensures
        forall|p: int| 0 <= p < n ==> a[p] == b[p],
    decreases n,
{
    if n > 0 {
        lemma_same_start(scores, a, b, n - 1);
        let p = n - 1;
        let (x, y) = (a[p], b[p]);
        if x != y {
            law_ranking_is_complete(scores, b, x);
            let q = choose|q: int| 0 <= q < b.len() && b[q] == x;
            if q < p {
                assert(a[q] == a[p]);
            }
            assert(ranked_before(scores, b[p] as int, b[q] as int));
            law_ranking_is_complete(scores, a, y);
            let r = choose|r: int| 0 <= r < a.len() && a[r] == y;
            if r < p {
                assert(b[r] == b[p]);
            }
            assert(ranked_before(scores, a[p] as int, a[r] as int));
        }
    }
}

} // verus!
