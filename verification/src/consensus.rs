//! Votes over ternary weight memories: the signed majority, and the most frequent weight.

use vstd::prelude::*;

verus! {

/// The sum of what the memories hold at position `i`.
pub open spec fn vote(memories: Seq<Seq<i8>>, i: int) -> int
    decreases memories.len(),
{
    if memories.len() == 0 {
        0
    } else {
        vote(memories.drop_last(), i) + memories.last()[i]
    }
}

/// The signed majority over the memories; where they balance, the weight of `base`.
pub open spec fn consensus_of(base: Seq<i8>, memories: Seq<Seq<i8>>) -> Seq<i8> {
    Seq::new(
        base.len(),
        |i: int|
            if vote(memories, i) > 0 {
                1i8
            } else if vote(memories, i) < 0 {
                -1i8
            } else {
                base[i]
            },
    )
}

/// A weight of a ternary memory.
pub open spec fn is_ternary(w: i8) -> bool {
    w == -1 || w == 0 || w == 1
}

/// Every weight is ternary.
pub open spec fn all_ternary(weights: Seq<i8>) -> bool {
    forall|i: int| 0 <= i < weights.len() ==> is_ternary(#[trigger] weights[i])
}

/// How often `w` occurs in `votes`.
pub open spec fn occurrences(votes: Seq<i8>, w: i8) -> nat {
    votes.to_multiset().count(w)
}

/// Position `k` holds the most frequent weight, the first one listed where several are as
/// frequent.
pub open spec fn first_most_frequent(votes: Seq<i8>, k: int) -> bool {
    &&& 0 <= k < votes.len()
    &&& forall|j: int|
        0 <= j < votes.len() ==> occurrences(votes, #[trigger] votes[j]) <= occurrences(
            votes,
            votes[k],
        )
    &&& forall|j: int|
        0 <= j < k ==> occurrences(votes, #[trigger] votes[j]) < occurrences(votes, votes[k])
}

/// The most frequent weight, the first one listed where several are as frequent; zero where
/// there is no vote.
pub open spec fn plurality(votes: Seq<i8>) -> i8 {
    if votes.len() == 0 {
        0
    } else {
        votes[choose|k: int| first_most_frequent(votes, k)]
    }
}

/// How often `w` occurs in `votes`.
fn count_votes(votes: &[i8], w: i8) -> (r: usize)
    ensures
        r == occurrences(votes@, w),
{
    let mut n: usize = 0;
    let mut i: usize = 0;
    proof {
        votes@.take(0).to_multiset_ensures();
        assert(!votes@.take(0).contains(w));
    }
    while i < votes.len()
        invariant
            i <= votes.len(),
            n <= i,
            n == occurrences(votes@.take(i as int), w),
        decreases votes.len() - i,
    {
        proof {
            let head = votes@.take(i as int);
            assert(votes@.take(i + 1) =~= head.push(votes@[i as int]));
            head.to_multiset_ensures();
        }
        if votes[i] == w {
            n = n + 1;
        }
        i = i + 1;
    }
    proof {
        assert(votes@.take(i as int) =~= votes@);
    }
    n
}

/// The most frequent weight, the first one listed where several are as frequent; zero where
/// there is no vote.
pub fn most_frequent(votes: &[i8]) -> (r: i8)
    ensures
        r == plurality(votes@),
{
    if votes.len() == 0 {
        return 0;
    }
    let mut k: usize = 0;
    let mut best: usize = count_votes(votes, votes[0]);
    let mut i: usize = 1;
    while i < votes.len()
        invariant
            0 < i <= votes.len(),
            k < i,
            best == occurrences(votes@, votes@[k as int]),
            forall|j: int| 0 <= j < i ==> occurrences(votes@, #[trigger] votes@[j]) <= best,
            forall|j: int| 0 <= j < k ==> occurrences(votes@, #[trigger] votes@[j]) < best,
        decreases votes.len() - i,
    {
        let n: usize = count_votes(votes, votes[i]);
        if n > best {
            k = i;
            best = n;
        }
        i = i + 1;
    }
    proof {
        assert(first_most_frequent(votes@, k as int));
        let c = choose|c: int| first_most_frequent(votes@, c);
        lemma_most_frequent_is_unique(votes@, k as int, c);
    }
    votes[k]
}

proof fn lemma_most_frequent_is_unique(votes: Seq<i8>, a: int, b: int)
    requires
        first_most_frequent(votes, a),
        first_most_frequent(votes, b),
    ensures
        a == b,
{
    if a < b {
        assert(occurrences(votes, votes[a]) < occurrences(votes, votes[b]));
    }
    if b < a {
        assert(occurrences(votes, votes[b]) < occurrences(votes, votes[a]));
    }
}

/// The signed majority over the memories; where they balance, the weight of `base`.
pub fn build_consensus(base: &[i8], memories: &Vec<&Vec<i8>>) -> (r: Vec<i8>)
    requires
        forall|t: int|
            0 <= t < memories.len() ==> base.len() <= (#[trigger] memories@[t])@.len(),
    ensures
        r@ == consensus_of(base@, memories@.map_values(|m: &Vec<i8>| m@)),
{
    let ghost held = memories@.map_values(|m: &Vec<i8>| m@);
    let mut out: Vec<i8> = Vec::new();
    let mut i: usize = 0;
    while i < base.len()
        invariant
            i <= base.len(),
            held == memories@.map_values(|m: &Vec<i8>| m@),
            forall|t: int|
                0 <= t < memories.len() ==> base.len() <= (#[trigger] memories@[t])@.len(),
            out@ == consensus_of(base@, held).take(i as int),
        decreases base.len() - i,
    {
        let mut sum: i128 = 0;
        let mut t: usize = 0;
        while t < memories.len()
            invariant
                t <= memories.len(),
                i < base.len(),
                held == memories@.map_values(|m: &Vec<i8>| m@),
                forall|t: int|
                    0 <= t < memories.len() ==> base.len() <= (#[trigger] memories@[t])@.len(),
                sum == vote(held.take(t as int), i as int),
                -128 * t <= sum <= 127 * t,
            decreases memories.len() - t,
        {
            proof {
                assert(held.take(t + 1).drop_last() =~= held.take(t as int));
                assert(held.take(t + 1).last() == memories@[t as int]@);
            }
            sum = sum + memories[t][i] as i128;
            t = t + 1;
        }
        proof {
            assert(held.take(t as int) =~= held);
        }
        if sum > 0 {
            out.push(1);
        } else if sum < 0 {
            out.push(-1);
        } else {
            out.push(base[i]);
        }
        proof {
            assert(out@ =~= consensus_of(base@, held).take(i + 1));
        }
        i = i + 1;
    }
    proof {
        assert(consensus_of(base@, held).take(i as int) =~= consensus_of(base@, held));
    }
    out
}

/// What the memories that reach as far hold at position `i`, in order.
pub open spec fn votes_at(memories: Seq<Seq<i8>>, i: int) -> Seq<i8>
    decreases memories.len(),
{
    if memories.len() == 0 {
        Seq::empty()
    } else {
        let earlier = votes_at(memories.drop_last(), i);
        if i < memories.last().len() {
            earlier.push(memories.last()[i])
        } else {
            earlier
        }
    }
}

/// The most frequent weight of the memories at each of the first `len` positions.
pub open spec fn merged_of(memories: Seq<Seq<i8>>, len: nat) -> Seq<i8> {
    Seq::new(len, |i: int| plurality(votes_at(memories, i)))
}

/// The most frequent weight of the memories at each of the first `len` positions.
pub fn merge_memories(memories: &Vec<&Vec<i8>>, len: usize) -> (r: Vec<i8>)
    ensures
        r@ == merged_of(memories@.map_values(|m: &Vec<i8>| m@), len as nat),
{
    let ghost held = memories@.map_values(|m: &Vec<i8>| m@);
    let mut out: Vec<i8> = Vec::new();
    let mut i: usize = 0;
    while i < len
        invariant
            i <= len,
            held == memories@.map_values(|m: &Vec<i8>| m@),
            out@ == merged_of(held, len as nat).take(i as int),
        decreases len - i,
    {
        let mut votes: Vec<i8> = Vec::new();
        let mut t: usize = 0;
        while t < memories.len()
            invariant
                t <= memories@.len(),
                held == memories@.map_values(|m: &Vec<i8>| m@),
                votes@ == votes_at(held.take(t as int), i as int),
            decreases memories.len() - t,
        {
            proof {
                assert(held.take(t + 1).drop_last() =~= held.take(t as int));
                assert(held.take(t + 1).last() == memories@[t as int]@);
            }
            if i < memories[t].len() {
                votes.push(memories[t][i]);
            }
            t = t + 1;
        }
        proof {
            assert(held.take(t as int) =~= held);
        }
        out.push(most_frequent(votes.as_slice()));
        proof {
            assert(out@ =~= merged_of(held, len as nat).take(i + 1));
        }
        i = i + 1;
    }
    proof {
        assert(merged_of(held, len as nat).take(i as int) =~= merged_of(held, len as nat));
    }
    out
}

/// How many memories hold `w` at position `i`.
pub open spec fn holders(memories: Seq<Seq<i8>>, i: int, w: int) -> nat
    decreases memories.len(),
{
    if memories.len() == 0 {
        0
    } else {
        holders(memories.drop_last(), i, w) + if memories.last()[i] == w {
            1nat
        } else {
            0nat
        }
    }
}

proof fn lemma_vote_counts_holders(memories: Seq<Seq<i8>>, i: int)
    requires
        forall|t: int| 0 <= t < memories.len() ==> is_ternary(#[trigger] memories[t][i]),
    ensures
        vote(memories, i) == holders(memories, i, 1) - holders(memories, i, -1),
    decreases memories.len(),
{
    if memories.len() > 0 {
        let rest = memories.drop_last();
        assert forall|t: int| 0 <= t < rest.len() implies is_ternary(#[trigger] rest[t][i]) by {
            assert(rest[t][i] == memories[t][i]);
        }
        lemma_vote_counts_holders(rest, i);
        let last = memories.len() - 1;
        assert(is_ternary(memories[last][i]));
    }
}

/// The consensus is a majority vote: over ternary memories a position gets the sign that more
/// memories hold, and keeps its base weight where both signs are held equally often.
pub proof fn law_consensus_is_majority(base: Seq<i8>, memories: Seq<Seq<i8>>, i: int)
    requires
        0 <= i < base.len(),
        forall|t: int| 0 <= t < memories.len() ==> is_ternary(#[trigger] memories[t][i]),
    ensures
        holders(memories, i, 1) > holders(memories, i, -1) ==> consensus_of(base, memories)[i] == 1,
        holders(memories, i, 1) < holders(memories, i, -1) ==> consensus_of(base, memories)[i]
            == -1,
        holders(memories, i, 1) == holders(memories, i, -1) ==> consensus_of(base, memories)[i]
            == base[i],
{
    lemma_vote_counts_holders(memories, i);
}

/// The consensus has the shape of its base, and is ternary where the base is.
pub proof fn law_consensus_stays_ternary(base: Seq<i8>, memories: Seq<Seq<i8>>)
    requires
        all_ternary(base),
    ensures
        consensus_of(base, memories).len() == base.len(),
        all_ternary(consensus_of(base, memories)),
{
}

/// Without any memory the consensus is the base itself.
pub proof fn law_no_memory_no_change(base: Seq<i8>)
    ensures
        consensus_of(base, Seq::empty()) == base,
{
    assert(consensus_of(base, Seq::empty()) =~= base);
}

/// A single ternary memory decides every position at which it does not hold zero.
pub proof fn law_single_memory_decides(base: Seq<i8>, memory: Seq<i8>)
    requires
        all_ternary(memory),
        memory.len() == base.len(),
    ensures
        forall|i: int|
            0 <= i < base.len() && memory[i] != 0 ==> #[trigger] consensus_of(
                base,
                seq![memory],
            )[i] == memory[i],
{
    let one = seq![memory];
    assert forall|i: int| 0 <= i < base.len() && memory[i] != 0 implies #[trigger] consensus_of(
        base,
        one,
    )[i] == memory[i] by {
        assert(one.drop_last() =~= Seq::<Seq<i8>>::empty());
        assert(vote(one.drop_last(), i) == 0);
        assert(vote(one, i) == memory[i]);
        assert(is_ternary(memory[i]));
    }
}

/// The vote does not depend on the order of the memories.
pub proof fn law_vote_ignores_order(memories: Seq<Seq<i8>>, other: Seq<Seq<i8>>, i: int)
    requires
        memories.to_multiset() == other.to_multiset(),
    ensures
        vote(memories, i) == vote(other, i),
    decreases memories.len(),
{
    memories.to_multiset_ensures();
    other.to_multiset_ensures();
    if memories.len() > 0 {
        let x = memories.last();
        assert(memories.contains(x));
        assert(other.to_multiset().contains(x));
        assert(other.contains(x));
        let k = choose|k: int| 0 <= k < other.len() && other[k] == x;
        let rest = memories.drop_last();
        assert(rest =~= memories.remove(memories.len() - 1));
        assert(rest.to_multiset() =~= memories.to_multiset().remove(x));
        assert(other.remove(k).to_multiset() =~= other.to_multiset().remove(x));
        law_vote_ignores_order(rest, other.remove(k), i);
        lemma_vote_remove(other, k, i);
    }
}

proof fn lemma_vote_remove(memories: Seq<Seq<i8>>, k: int, i: int)
    requires
        0 <= k < memories.len(),
    ensures
        vote(memories, i) == vote(memories.remove(k), i) + memories[k][i],
    decreases memories.len(),
{
    if k == memories.len() - 1 {
        assert(memories.remove(k) =~= memories.drop_last());
    } else {
        let rest = memories.drop_last();
        lemma_vote_remove(rest, k, i);
        assert(memories.remove(k).drop_last() =~= rest.remove(k));
        assert(memories.remove(k).last() == memories.last());
    }
}

/// The consensus does not depend on the order in which the memories are held.
pub proof fn law_consensus_ignores_order(
    base: Seq<i8>,
    memories: Seq<Seq<i8>>,
    other: Seq<Seq<i8>>,
)
    requires
        memories.to_multiset() == other.to_multiset(),
    ensures
        consensus_of(base, memories) == consensus_of(base, other),
{
    assert forall|i: int| 0 <= i < base.len() implies consensus_of(base, memories)[i]
        == consensus_of(base, other)[i] by {
        law_vote_ignores_order(memories, other, i);
    }
    assert(consensus_of(base, memories) =~= consensus_of(base, other));
}

/// The most frequent weight is one of the votes, and none is more frequent. A weight that most
/// votes name is always taken.
pub proof fn law_plurality_wins(votes: Seq<i8>, w: i8)
    requires
        votes.len() > 0,
    ensures
        votes.contains(plurality(votes)),
        occurrences(votes, w) <= occurrences(votes, plurality(votes)),
        2 * occurrences(votes, w) > votes.len() ==> plurality(votes) == w,
{
    lemma_most_frequent_exists(votes, votes.len() as int);
    let k = choose|k: int| first_most_frequent(votes, k);
    assert(first_most_frequent(votes, k));
    assert(votes.contains(votes[k]));
    votes.to_multiset_ensures();
    if votes.contains(w) {
        let j = choose|j: int| 0 <= j < votes.len() && votes[j] == w;
        assert(occurrences(votes, votes[j]) <= occurrences(votes, votes[k]));
    } else {
        assert(occurrences(votes, w) == 0);
    }
    let p = plurality(votes);
    if p != w && 2 * occurrences(votes, w) > votes.len() {
        lemma_two_counts_fit(votes, p, w);
    }
}

proof fn lemma_two_counts_fit(votes: Seq<i8>, a: i8, b: i8)
    requires
        a != b,
    ensures
        occurrences(votes, a) + occurrences(votes, b) <= votes.len(),
    decreases votes.len(),
{
    votes.to_multiset_ensures();
    if votes.len() > 0 {
        let rest = votes.drop_last();
        rest.to_multiset_ensures();
        lemma_two_counts_fit(rest, a, b);
        assert(votes =~= rest.push(votes.last()));
    } else {
        assert(votes =~= Seq::<i8>::empty());
        assert(votes.to_multiset().len() == 0);
        assert(votes.to_multiset().count(a) <= 0 && votes.to_multiset().count(b) <= 0) by {
            assert(!votes.contains(a) && !votes.contains(b));
        }
    }
}

/// Among the first `n` votes there is a first one of those that occur most often.
proof fn lemma_most_frequent_exists(votes: Seq<i8>, n: int) -> (k: int)
    requires
        0 < n <= votes.len(),
    ensures
        0 <= k < n,
        forall|j: int|
            0 <= j < n ==> occurrences(votes, #[trigger] votes[j]) <= occurrences(votes, votes[k]),
        forall|j: int|
            0 <= j < k ==> occurrences(votes, #[trigger] votes[j]) < occurrences(votes, votes[k]),
        n == votes.len() ==> first_most_frequent(votes, k),
    decreases n,
{
    if n == 1 {
        0
    } else {
        let k = lemma_most_frequent_exists(votes, n - 1);
        if occurrences(votes, votes[n - 1]) > occurrences(votes, votes[k]) {
            n - 1
        } else {
            k
        }
    }
}

/// A single memory is merged into itself.
pub proof fn law_single_memory_is_kept(memory: Seq<i8>)
    ensures
        merged_of(seq![memory], memory.len()) == memory,
{
    let one = seq![memory];
    assert forall|i: int| 0 <= i < memory.len() implies merged_of(one, memory.len())[i]
        == memory[i] by {
        assert(one.drop_last() =~= Seq::<Seq<i8>>::empty());
        assert(votes_at(one.drop_last(), i) =~= Seq::<i8>::empty());
        assert(votes_at(one, i) =~= seq![memory[i]]);
        law_plurality_wins(seq![memory[i]], memory[i]);
    }
    assert(merged_of(one, memory.len()) =~= memory);
}

/// Where most of the memories that reach as far hold the same weight at a position, the merged
/// memory holds it there.
pub proof fn law_majority_is_merged(memories: Seq<Seq<i8>>, len: nat, i: int, w: i8)
    requires
        0 <= i < len,
        2 * occurrences(votes_at(memories, i), w) > votes_at(memories, i).len(),
    ensures
        merged_of(memories, len)[i] == w,
{
    let votes = votes_at(memories, i);
    if votes.len() == 0 {
        lemma_two_counts_fit(votes, w, if w == 0 {
            1
        } else {
            0
        });
    } else {
        law_plurality_wins(votes, w);
    }
}

} // verus!
