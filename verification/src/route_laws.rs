//! What routing is for: the most similar task answers with the class that scores highest, as sure
//! as its margin is large, and memories are merged by what most of them hold.

use crate::arith_laws::{law_larger_part_has_larger_share, law_larger_total_has_smaller_share};
use crate::consensus::{
    consensus_of, first_most_frequent, law_plurality_wins, merged_of, occurrences, plurality, vote,
    votes_at,
};
use crate::counts::{law_ratio_is_a_share, law_ratio_keeps_order};
use crate::daemon::HALF_BITS;
use crate::evolution::TaskSpecialistPool;
use crate::ranking::is_ranking;
use crate::scalar::{INFINITY_BITS, ONE_BITS, SIGN_BIT, Scalar, one_units};
use crate::tci::{
    ClassDecision, MINUS_ONE_BITS, Route, TaskSnapshot, TciEngine, TernaryBrain, column_sum,
    decision_of, doubtful, fittest_of, is_first_named, law_decision_is_unique, mean_sample,
    memories_of, merged_into, merged_with, most_similar, reshaped, scores_fit,
};
use vstd::prelude::*;
use vstd::set_lib::set_int_range;

verus! {

/// The class that scores decide for has the highest score, and every earlier one scores lower; the
/// second score is the highest of the others. Without scores it is the first class.
pub proof fn law_decision_has_the_highest_score(scores: Seq<i32>, d: ClassDecision)
    requires
        d.of(scores),
    ensures
        scores.len() == 0 ==> d.class == 0 && d.top == i32::MIN && d.second == i32::MIN,
        scores.len() > 0 ==> d.class < scores.len() && scores[d.class as int] == d.top,
        forall|j: int| 0 <= j < scores.len() ==> #[trigger] scores[j] <= d.top,
        forall|j: int| 0 <= j < d.class ==> #[trigger] scores[j] < d.top,
        forall|j: int|
            0 <= j < scores.len() && j != d.class ==> #[trigger] scores[j] <= d.second,
        scores.len() > 1 ==> exists|j: int|
            0 <= j < scores.len() && j != d.class && #[trigger] scores[j] == d.second,
        scores.len() == 1 ==> d.second == i32::MIN,
        d == decision_of(scores),
{
    law_decision_is_unique(scores, d, decision_of(scores));
    if scores.len() > 1 && d.second == i32::MIN {
        let j: int = if d.class == 0 {
            1
        } else {
            0
        };
        assert(scores[j] == d.second);
    }
}

/// The confidence is the margin by the size of the winning score, whatever that size is; a winning
/// score of zero counts as one.
pub proof fn law_confidence_is_margin_by_score(d: ClassDecision, margin: nat, size: nat)
    requires
        d.second <= d.top,
        margin == d.top - d.second,
        d.top == size || d.top == -size,
    ensures
        size >= 1 ==> d.confidence_spec() == Scalar::ratio_spec(margin, size),
        size == 0 ==> d.confidence_spec() == Scalar::ratio_spec(margin, 1),
{
}

/// Where no score is negative, the confidence lies between zero and one. It is one where the
/// second score is zero, and below one for winning scores below 2^23 where the second is above
/// zero; it is zero exactly where both are as high.
pub proof fn law_confidence_is_a_share(d: ClassDecision)
    requires
        0 <= d.second <= d.top,
        d.top > 0,
    ensures
        !d.confidence_spec().nan(),
        0 <= d.confidence_spec().key() <= ONE_BITS,
        d.second == 0 ==> d.confidence_spec().bits == ONE_BITS,
        d.second > 0 && d.top < 0x80_0000 ==> d.confidence_spec().key() < ONE_BITS,
        d.confidence_spec().bits == 0 <==> d.second == d.top,
{
    law_ratio_is_a_share((d.top - d.second) as u64, d.top as u64);
    if d.second > 0 && d.top < 0x80_0000 {
        law_larger_part_has_larger_share((d.top - d.second) as nat, d.top as nat, d.top as nat);
        law_ratio_is_a_share(d.top as u64, d.top as u64);
    }
}

/// Of two decisions with the same margin, the one with the larger winning score is not surer; of
/// two with the same winning score, the one with the larger margin is not less sure.
pub proof fn law_confidence_compares_margin_and_score(a: ClassDecision, b: ClassDecision)
    requires
        a.second <= a.top,
        b.second <= b.top,
        0 <= a.top <= b.top,
    ensures
        a.top - a.second == b.top - b.second ==> b.confidence_spec().le_spec(a.confidence_spec()),
        a.top == b.top && a.second <= b.second ==> b.confidence_spec().le_spec(
            a.confidence_spec(),
        ),
{
    let (p, q): (int, int) = (
        if a.top == 0 {
            1
        } else {
            a.top as int
        },
        if b.top == 0 {
            1
        } else {
            b.top as int
        },
    );
    law_confidence_is_margin_by_score(a, (a.top - a.second) as nat, a.top as nat);
    law_confidence_is_margin_by_score(b, (b.top - b.second) as nat, b.top as nat);
    if a.top - a.second == b.top - b.second {
        law_larger_total_has_smaller_share((a.top - a.second) as u64, p as u64, q as u64);
    }
    if a.top == b.top && a.second <= b.second {
        law_ratio_keeps_order((b.top - b.second) as u64, (a.top - a.second) as u64, p as u64);
    }
}

/// A route goes to a task that no other is more similar than, and every earlier one is less
/// similar; what is not a number is passed over. Where no task is similar at all, it goes to the
/// first one.
pub proof fn law_route_goes_to_the_most_similar(similarities: Seq<Scalar>, route: Route)
    requires
        most_similar(similarities, route),
    ensures
        forall|j: int|
            0 <= j < similarities.len() && !(#[trigger] similarities[j]).nan()
                ==> similarities[j].le_spec(route.similarity),
        forall|j: int|
            0 <= j < similarities.len() && j < route.task_index && !(
            #[trigger] similarities[j]).nan() ==> similarities[j].lt_spec(route.similarity),
        route.similarity.bits != INFINITY_BITS + SIGN_BIT ==> route.task_index
            < similarities.len() && similarities[route.task_index as int] == route.similarity,
        route.similarity.bits == INFINITY_BITS + SIGN_BIT ==> route.task_index == 0,
        !route.similarity.nan(),
{
}

/// A route is kept exactly where neither its similarity nor its confidence is below its threshold.
/// So it is kept where both reach them, and higher thresholds never keep what lower ones refuse.
pub proof fn law_thresholds_decide_on_a_route(
    route: Route,
    scores: Seq<i32>,
    d: ClassDecision,
    min_similarity: Scalar,
    min_confidence: Scalar,
    less_similarity: Scalar,
    less_confidence: Scalar,
)
    requires
        d.of(scores),
    ensures
        doubtful(route, scores, min_similarity, min_confidence) <==> route.similarity.lt_spec(
            min_similarity,
        ) || d.confidence_spec().lt_spec(min_confidence),
        min_similarity.le_spec(route.similarity) && min_confidence.le_spec(d.confidence_spec())
            ==> !doubtful(route, scores, min_similarity, min_confidence),
        less_similarity.le_spec(min_similarity) && less_confidence.le_spec(min_confidence)
            && doubtful(route, scores, less_similarity, less_confidence) ==> doubtful(
            route,
            scores,
            min_similarity,
            min_confidence,
        ),
{
    law_decision_is_unique(scores, d, decision_of(scores));
}

/// A consensus gives every position the sign of the sum of what the memories hold there, and keeps
/// the base where they balance. One more memory adds what it holds to that sum.
pub proof fn law_consensus_follows_the_sum(
    base: Seq<i8>,
    memories: Seq<Seq<i8>>,
    memory: Seq<i8>,
    i: int,
)
    ensures
        vote(Seq::empty(), i) == 0,
        vote(memories.push(memory), i) == vote(memories, i) + memory[i],
        consensus_of(base, memories).len() == base.len(),
        0 <= i < base.len() && vote(memories, i) > 0 ==> consensus_of(base, memories)[i] == 1,
        0 <= i < base.len() && vote(memories, i) < 0 ==> consensus_of(base, memories)[i] == -1,
        0 <= i < base.len() && vote(memories, i) == 0 ==> consensus_of(base, memories)[i]
            == base[i],
{
    assert(memories.push(memory).drop_last() =~= memories);
}

/// The weights of the snapshots vote in the consensus of an engine, each once and in full.
pub proof fn law_every_snapshot_votes<P>(tasks: Seq<TaskSnapshot<P>>, t: int)
    ensures
        memories_of(tasks).len() == tasks.len(),
        0 <= t < tasks.len() ==> memories_of(tasks)[t] == tasks[t].weights@,
{
}

/// The memories that hold `w` at position `i`.
pub open spec fn holding(memories: Seq<Seq<i8>>, i: int, w: i8) -> Set<int> {
    set_int_range(0, memories.len() as int).filter(
        |t: int| i < memories[t].len() && memories[t][i] == w,
    )
}

/// The memories that reach as far as position `i`.
pub open spec fn reaching(memories: Seq<Seq<i8>>, i: int) -> Set<int> {
    set_int_range(0, memories.len() as int).filter(|t: int| i < memories[t].len())
}

/// Every memory that reaches as far votes at a position once, with what it holds there.
pub proof fn law_every_memory_votes_once(memories: Seq<Seq<i8>>, i: int, w: i8)
    ensures
        holding(memories, i, w).finite(),
        reaching(memories, i).finite(),
        occurrences(votes_at(memories, i), w) == holding(memories, i, w).len(),
        votes_at(memories, i).len() == reaching(memories, i).len(),
    decreases memories.len(),
{
    let n = memories.len() as int;
    vstd::set_lib::lemma_int_range(0, n);
    let (held, reached) = (holding(memories, i, w), reaching(memories, i));
    let votes = votes_at(memories, i);
    votes.to_multiset_ensures();
    if n == 0 {
        assert(held =~= Set::empty());
        assert(reached =~= Set::empty());
        assert(!votes.contains(w));
    } else {
        let rest = memories.drop_last();
        law_every_memory_votes_once(rest, i, w);
        let (a, b) = (holding(rest, i, w), reaching(rest, i));
        let earlier = votes_at(rest, i);
        earlier.to_multiset_ensures();
        assert(forall|t: int| 0 <= t < n - 1 ==> rest[t] == memories[t]);
        let last = memories.last();
        assert(last == memories[n - 1]);
        if i < last.len() {
            assert(votes == earlier.push(last[i]));
            assert(reached =~= b.insert(n - 1));
            assert(!b.contains(n - 1));
            if last[i] == w {
                assert(held =~= a.insert(n - 1));
                assert(!a.contains(n - 1));
            } else {
                assert(held =~= a);
            }
        } else {
            assert(votes == earlier);
            assert(reached =~= b);
            assert(held =~= a);
        }
    }
}

/// Merged memories hold at each position what at least as many of them hold there as anything
/// else, and zero where none reaches as far.
pub proof fn law_merged_weight_is_held_most(memories: Seq<Seq<i8>>, len: nat, i: int, w: i8)
    requires
        0 <= i < len,
    ensures
        merged_of(memories, len).len() == len,
        reaching(memories, i).len() == 0 ==> merged_of(memories, len)[i] == 0,
        reaching(memories, i).len() > 0 ==> holding(memories, i, merged_of(memories, len)[i]).len()
            > 0,
        holding(memories, i, w).len() <= holding(memories, i, merged_of(memories, len)[i]).len()
            || reaching(memories, i).len() == 0,
{
    let m = merged_of(memories, len)[i];
    law_every_memory_votes_once(memories, i, w);
    law_every_memory_votes_once(memories, i, m);
    let votes = votes_at(memories, i);
    if votes.len() > 0 {
        law_plurality_wins(votes, w);
        votes.to_multiset_ensures();
        assert(votes.contains(m));
        assert(occurrences(votes, m) > 0);
    }
}

/// Of several weights that are as frequent, the one that is listed first is taken.
pub proof fn law_first_of_equals_is_taken(votes: Seq<i8>, k: int)
    requires
        0 <= k < votes.len(),
        forall|j: int|
            0 <= j < votes.len() ==> occurrences(votes, #[trigger] votes[j]) <= occurrences(
                votes,
                votes[k],
            ),
        forall|j: int|
            0 <= j < k ==> occurrences(votes, #[trigger] votes[j]) < occurrences(votes, votes[k]),
    ensures
        plurality(votes) == votes[k],
{
    assert(first_most_frequent(votes, k));
    let c = choose|c: int| first_most_frequent(votes, c);
    assert(first_most_frequent(votes, c));
    if c < k {
        assert(occurrences(votes, votes[c]) < occurrences(votes, votes[k]));
    }
    if k < c {
        assert(occurrences(votes, votes[k]) < occurrences(votes, votes[c]));
    }
}

/// Votes are listed in the order of the memories: one more memory votes behind the others, if it
/// reaches as far.
pub proof fn law_votes_keep_the_order_of_memories(memories: Seq<Seq<i8>>, memory: Seq<i8>, i: int)
    ensures
        votes_at(Seq::empty(), i).len() == 0,
        i < memory.len() ==> votes_at(memories.push(memory), i) == votes_at(memories, i).push(
            memory[i],
        ),
        i >= memory.len() ==> votes_at(memories.push(memory), i) == votes_at(memories, i),
{
    assert(memories.push(memory).drop_last() =~= memories);
}

/// Where several weights are held by as many memories, the merged memory holds the one that comes
/// first in the order of the memories.
pub proof fn law_merge_prefers_the_earlier(memories: Seq<Seq<i8>>, len: nat, i: int, k: int)
    requires
        0 <= i < len,
        0 <= k < votes_at(memories, i).len(),
        forall|j: int|
            0 <= j < votes_at(memories, i).len() ==> holding(
                memories,
                i,
                #[trigger] votes_at(memories, i)[j],
            ).len() <= holding(memories, i, votes_at(memories, i)[k]).len(),
        forall|j: int|
            0 <= j < k ==> holding(memories, i, #[trigger] votes_at(memories, i)[j]).len()
                < holding(memories, i, votes_at(memories, i)[k]).len(),
    ensures
        merged_of(memories, len)[i] == votes_at(memories, i)[k],
{
    let votes = votes_at(memories, i);
    assert forall|w: i8| occurrences(votes, w) == #[trigger] holding(memories, i, w).len() by {
        law_every_memory_votes_once(memories, i, w);
    }
    assert forall|j: int| 0 <= j < votes.len() implies occurrences(votes, #[trigger] votes[j])
        <= occurrences(votes, votes[k]) by {
        assert(holding(memories, i, votes[j]).len() <= holding(memories, i, votes[k]).len());
    }
    assert forall|j: int| 0 <= j < k implies occurrences(votes, #[trigger] votes[j])
        < occurrences(votes, votes[k]) by {
        assert(holding(memories, i, votes[j]).len() < holding(memories, i, votes[k]).len());
    }
    law_first_of_equals_is_taken(votes, k);
}

/// The fittest that are merged into the memory of a task are specialists of the population, each
/// at most once, as many as asked for or as there are; nobody who is left out is fitter. The
/// memory holds what at least as many of them hold as anything else, the consensus what at least
/// as many memories hold, and no other memory changes.
pub proof fn law_merge_takes_the_fittest<P>(
    before: TciEngine<P>,
    after: TciEngine<P>,
    pool: TaskSpecialistPool,
    t: int,
    top_k: nat,
    i: int,
    w: i8,
) -> (r: (Seq<int>, Seq<Seq<i8>>))
    requires
        merged_into(before, after, pool, t, top_k),
        pool.wf(),
        0 <= i < pool.specialists@[0].brain.weights@.len(),
    ensures
        r.0.no_duplicates(),
        r.0.len() == if top_k < pool.specialists@.len() {
            top_k
        } else {
            pool.specialists@.len()
        },
        r.1.len() == r.0.len(),
        forall|p: int|
            0 <= p < r.0.len() ==> 0 <= #[trigger] r.0[p] < pool.specialists@.len() && r.1[p]
                == pool.specialists@[r.0[p]].brain.weights@,
        forall|p: int, s: int|
            0 <= p < r.0.len() && 0 <= s < pool.specialists@.len() && !r.0.contains(s) ==> !(
            pool.fitness_scores@[#[trigger] r.0[p]]).lt_spec(#[trigger] pool.fitness_scores@[s]),
        forall|p: int, q: int|
            0 <= p < q < r.0.len() ==> !(pool.fitness_scores@[#[trigger] r.0[p]]).lt_spec(
                pool.fitness_scores@[#[trigger] r.0[q]],
            ),
        after.tasks@[t].weights@ == merged_of(r.1, pool.specialists@[0].brain.weights@.len()),
        after.consensus@ == merged_of(
            Seq::new(after.tasks@.len(), |u: int| after.tasks@[u].weights@),
            pool.specialists@[0].brain.weights@.len(),
        ),
        after.tasks@[t].weights@.len() == pool.specialists@[0].brain.weights@.len(),
        reaching(r.1, i).len() > 0 ==> holding(r.1, i, w).len() <= holding(
            r.1,
            i,
            after.tasks@[t].weights@[i],
        ).len(),
        reaching(r.1, i).len() == 0 ==> after.tasks@[t].weights@[i] == 0,
        after.consensus@.len() == pool.specialists@[0].brain.weights@.len(),
        reaching(memories_of(after.tasks@), i).len() > 0 ==> holding(
            memories_of(after.tasks@),
            i,
            w,
        ).len() <= holding(memories_of(after.tasks@), i, after.consensus@[i]).len(),
        after.tasks@.len() == before.tasks@.len(),
        forall|u: int|
            0 <= u < before.tasks@.len() && u != t ==> #[trigger] after.tasks@[u]
                == before.tasks@[u],
        after.tasks@[t].name == before.tasks@[t].name,
        after.tasks@[t].prototype == before.tasks@[t].prototype,
        after.tasks@[t].train_accuracy == before.tasks@[t].train_accuracy,
{
    let order = choose|order: Seq<usize>| merged_with(before, after, pool, t, top_k, order);
    assert(merged_with(before, after, pool, t, top_k, order));
    let k = if top_k < order.len() {
        top_k
    } else {
        order.len()
    };
    let len = pool.specialists@[0].brain.weights@.len();
    let taken = Seq::new(k, |p: int| order[p] as int);
    let fittest = fittest_of(pool, order, k);
    assert(is_ranking(pool.fitness_scores@, order));
    assert(pool.specialists.len() == pool.specialists@.len());
    assert forall|p: int, q: int|
        0 <= p < taken.len() && 0 <= q < taken.len() && p != q implies taken[p] != taken[q] by {
        assert(order[p] != order[q]);
    }
    assert forall|p: int| 0 <= p < taken.len() implies 0 <= #[trigger] taken[p]
        < pool.specialists@.len() && fittest[p] == pool.specialists@[taken[p]].brain.weights@ by {
        assert(order[p] < pool.specialists@.len());
    }
    assert forall|p: int, s: int|
        0 <= p < taken.len() && 0 <= s < pool.specialists@.len() && !taken.contains(
            s,
        ) implies !(pool.fitness_scores@[#[trigger] taken[p]]).lt_spec(
        #[trigger] pool.fitness_scores@[s],
    ) by {
        crate::ranking::law_ranking_is_complete(pool.fitness_scores@, order, s as usize);
        let q = choose|q: int| 0 <= q < order.len() && order[q] == s as usize;
        if q < k {
            assert(taken[q] == s);
        }
        assert(crate::ranking::ranked_before(
            pool.fitness_scores@,
            order[p] as int,
            order[q] as int,
        ));
    }
    assert forall|p: int, q: int| 0 <= p < q < taken.len() implies !(
    pool.fitness_scores@[#[trigger] taken[p]]).lt_spec(
        pool.fitness_scores@[#[trigger] taken[q]],
    ) by {
        assert(crate::ranking::ranked_before(
            pool.fitness_scores@,
            order[p] as int,
            order[q] as int,
        ));
    }
    assert(memories_of(after.tasks@) =~= Seq::new(
        after.tasks@.len(),
        |u: int| after.tasks@[u].weights@,
    ));
    law_merged_weight_is_held_most(fittest, len, i, w);
    law_merged_weight_is_held_most(memories_of(after.tasks@), len, i, w);
    (taken, fittest)
}

/// The first snapshot with a name has that name, and no earlier one does.
pub proof fn law_first_named_is_first<P>(
    tasks: Seq<TaskSnapshot<P>>,
    name: Seq<char>,
    t: int,
    u: int,
)
    requires
        is_first_named(tasks, name, t),
    ensures
        0 <= t < tasks.len(),
        tasks[t].name@ == name,
        0 <= u < t ==> tasks[u].name@ != name,
{
}

proof fn lemma_column_partial(
    images: Seq<Scalar>,
    image_dim: int,
    k: int,
    n: nat,
) -> (p: Seq<Scalar>)
    ensures
        p.len() == n + 1,
        p[0].bits == 0,
        forall|s: int|
            0 <= s < n ==> #[trigger] p[s + 1] == p[s].plus_spec(images[s * image_dim + k]),
        p[n as int] == column_sum(images, image_dim, k, n),
    decreases n,
{
    if n == 0 {
        seq![Scalar { bits: 0 }]
    } else {
        let q = lemma_column_partial(images, image_dim, k, (n - 1) as nat);
        let p = q.push(column_sum(images, image_dim, k, n));
        assert forall|s: int| 0 <= s < n implies #[trigger] p[s + 1] == p[s].plus_spec(
            images[s * image_dim + k],
        ) by {
            assert(p[s] == q[s]);
            if s < n - 1 {
                assert(p[s + 1] == q[s + 1]);
            }
        }
        p
    }
}

/// The mean of samples takes in the value of every sample at a position once, and divides by the
/// number of samples, or by one where there is none.
pub proof fn law_mean_sample_takes_in_every_sample(
    images: Seq<Scalar>,
    image_dim: nat,
    n: nat,
    k: int,
) -> (p: Seq<Scalar>)
    requires
        0 <= k < image_dim,
    ensures
        mean_sample(images, image_dim, n).len() == image_dim,
        p.len() == n + 1,
        p[0].bits == 0,
        forall|s: int|
            0 <= s < n ==> #[trigger] p[s + 1] == p[s].plus_spec(images[s * image_dim + k]),
        n > 0 ==> mean_sample(images, image_dim, n)[k] == p[n as int].over_spec(
            Scalar::from_count_spec(n),
        ),
        n == 0 ==> mean_sample(images, image_dim, n)[k] == p[0].over_spec(
            Scalar::from_count_spec(1),
        ),
{
    lemma_column_partial(images, image_dim as int, k, n)
}

/// The consensus of an engine is the vote of all its snapshots over its template.
pub proof fn law_consensus_hears_every_snapshot<P>(engine: TciEngine<P>)
    requires
        engine.agreed(),
    ensures
        engine.consensus@ == consensus_of(
            engine.template.weights@,
            Seq::new(engine.tasks@.len(), |t: int| engine.tasks@[t].weights@),
        ),
{
    assert(memories_of(engine.tasks@) =~= Seq::new(
        engine.tasks@.len(),
        |t: int| engine.tasks@[t].weights@,
    ));
}

/// An engine is in order where its consensus has as many weights as the template and every
/// snapshot at least as many.
pub proof fn law_engine_in_order<P>(engine: TciEngine<P>)
    ensures
        engine.covered() <==> forall|t: int|
            0 <= t < engine.tasks@.len() ==> (#[trigger] engine.tasks@[t]).weights@.len()
                >= engine.template.weights@.len(),
        engine.wf() <==> engine.consensus@.len() == engine.template.weights@.len()
            && engine.covered(),
{
}

/// A decision can be turned into a confidence exactly where its margin, and the size of its
/// winning score, are 32-bit integers.
pub proof fn law_decision_fits(scores: Seq<i32>, d: ClassDecision)
    requires
        d.of(scores),
    ensures
        d.fits() <==> d.top - d.second <= i32::MAX && -d.top <= i32::MAX,
        scores_fit(scores) <==> d.fits(),
{
    law_decision_is_unique(scores, d, decision_of(scores));
}

/// A brain with other weights keeps the shape of its template.
pub proof fn law_reshaped_brain_keeps_its_shape(template: TernaryBrain, weights: Vec<i8>)
    ensures
        reshaped(template, weights).image_dim == template.image_dim,
        reshaped(template, weights).n_classes == template.n_classes,
        reshaped(template, weights).weights == weights,
{
}

/// The plain thresholds are minus one and zero, and those of the daemon are one half.
pub proof fn law_constants_of_routing()
    ensures
        (Scalar { bits: MINUS_ONE_BITS }).units() == -one_units(),
        2 * (Scalar { bits: HALF_BITS }).units() == one_units(),
{
    crate::counts::lemma_one_value();
    crate::arith_laws::law_exponent_doubles(HALF_BITS as int);
}

} // verus!
