//! Populations of specialists: how they are spawned, judged, retired, bred and merged.

use crate::ranking::{first_lowest, last_highest, pick_first_lowest, pick_last_highest};
use crate::scalar::{ONE_BITS, Scalar};
use crate::tci::TernaryBrain;
use crate::text::{decimal, written, zero_padded};
use vstd::prelude::*;

verus! {

/// A specialist: a brain with weights that were mutated from those of a task.
#[derive(Debug, Clone)]
pub struct SpecialistBrain {
    pub id: String,
    pub brain: TernaryBrain,
    pub generation_born: u32,
    pub parent_id: Option<String>,
    pub mutations_applied: u32,
}

/// The population of a task.
#[derive(Debug, Clone)]
pub struct TaskSpecialistPool {
    /// The task that the specialists work on.
    pub task_name: String,
    /// The active specialists.
    pub specialists: Vec<SpecialistBrain>,
    /// The fitness of each specialist, in the same order.
    pub fitness_scores: Vec<Scalar>,
    /// How many generations have passed.
    pub generation: u32,
    /// How many mutations have been spawned.
    pub total_mutations: u32,
}

/// How populations evolve.
#[derive(Clone, Copy, Debug)]
pub struct TciEvolutionConfig {
    /// The size of a fresh population.
    pub pool_size_per_task: usize,
    /// How many mutations a generation spawns.
    pub mutations_per_gen: usize,
    /// The probability of a flip, for each weight.
    pub mutation_rate: Scalar,
    /// The share of a population, the least fit, that a generation retires.
    pub retire_fraction: Scalar,
    /// How many of the fittest are merged into the memory of their task.
    pub merge_top_k: usize,
    /// The seed of all mutations.
    pub seed: u64,
}

/// Pattern of the mutation rate 0.02.
pub const DEFAULT_MUTATION_RATE_BITS: u32 = 0x3ca3_d70a;

/// Pattern of the retired share 0.3.
pub const DEFAULT_RETIRE_FRACTION_BITS: u32 = 0x3e99_999a;

/// Populations of 20, of which a generation retires 0.3 and spawns 5 mutations with a rate of
/// 0.02; the 3 fittest are merged.
pub open spec fn default_config() -> TciEvolutionConfig {
    TciEvolutionConfig {
        pool_size_per_task: 20,
        mutations_per_gen: 5,
        mutation_rate: Scalar { bits: DEFAULT_MUTATION_RATE_BITS },
        retire_fraction: Scalar { bits: DEFAULT_RETIRE_FRACTION_BITS },
        merge_top_k: 3,
        seed: 42,
    }
}

impl Default for TciEvolutionConfig {
    fn default() -> (r: TciEvolutionConfig)
        ensures
            r == default_config(),
    {
        TciEvolutionConfig {
            pool_size_per_task: 20,
            mutations_per_gen: 5,
            mutation_rate: Scalar { bits: DEFAULT_MUTATION_RATE_BITS },
            retire_fraction: Scalar { bits: DEFAULT_RETIRE_FRACTION_BITS },
            merge_top_k: 3,
            seed: 42,
        }
    }
}

/// What came of one generation.
#[derive(Debug, Clone)]
pub struct EvolutionGenerationReport {
    pub task_name: String,
    pub generation: u32,
    pub population_size: usize,
    pub best_fitness: Scalar,
    pub avg_fitness: Scalar,
    pub worst_fitness: Scalar,
    pub mutations_spawned: usize,
    pub retired: usize,
    pub merged_to_consensus: usize,
    pub elapsed_ms: u64,
}

impl EvolutionGenerationReport {
    /// A report equal to this one.
    pub fn copy(&self) -> (r: EvolutionGenerationReport)
        ensures
            r == *self,
    {
        EvolutionGenerationReport {
            task_name: self.task_name.clone(),
            generation: self.generation,
            population_size: self.population_size,
            best_fitness: self.best_fitness,
            avg_fitness: self.avg_fitness,
            worst_fitness: self.worst_fitness,
            mutations_spawned: self.mutations_spawned,
            retired: self.retired,
            merged_to_consensus: self.merged_to_consensus,
            elapsed_ms: self.elapsed_ms,
        }
    }
}

/// What the backend has to mutate: so many children of these weights, with this flip
/// probability and this seed.
#[derive(Debug)]
pub struct MutationOrder {
    pub parent: usize,
    pub weights: Vec<i8>,
    pub flip_rate: Scalar,
    pub seed: u64,
    pub children: usize,
}

/// The identifier of the specialist number `i` of a fresh population.
pub open spec fn founder_id(task: Seq<char>, i: nat) -> Seq<char> {
    task + "-spec-"@ + zero_padded(written(i, 16), 6)
}

/// The identifier of a child that the specialist at position `parent` has in a generation.
pub open spec fn child_id(task: Seq<char>, generation: nat, parent: nat) -> Seq<char> {
    task + "-gen"@ + decimal(generation) + "-mut"@ + decimal(parent)
}

/// How many of the first `n` predictions agree with the label at their position.
pub open spec fn hits(predictions: Seq<u8>, labels: Seq<u8>, n: nat) -> nat
    decreases n,
{
    if n == 0 {
        0
    } else {
        hits(predictions, labels, (n - 1) as nat) + if n <= predictions.len() && n <= labels.len()
            && predictions[n - 1] == labels[n - 1] {
            1nat
        } else {
            0nat
        }
    }
}

/// The share of predictions that agree with the labels: the hits, by the number of samples or of
/// predictions, whichever is less.
pub open spec fn fitness_of(predictions: Seq<u8>, labels: Seq<u8>, n_samples: nat) -> Scalar {
    Scalar::ratio_spec(
        hits(predictions, labels, predictions.len()),
        if n_samples < predictions.len() {
            n_samples
        } else {
            predictions.len()
        },
    )
}

/// How many of `len` specialists a generation retires: the given share, and at least one.
pub open spec fn retire_count(len: nat, fraction: Scalar) -> nat {
    Scalar::from_count_spec(len).times_spec(fraction).max_spec(
        Scalar { bits: ONE_BITS },
    ).to_count_spec()
}

/// How many of `len` specialists are kept: those that are not retired, and at least one.
pub open spec fn keep_count(len: nat, fraction: Scalar) -> nat {
    if len > retire_count(len, fraction) {
        (len - retire_count(len, fraction)) as nat
    } else {
        1
    }
}

/// The items at the first `keep` positions that `order` lists.
pub open spec fn selected<T>(items: Seq<T>, order: Seq<usize>, keep: nat) -> Seq<T> {
    Seq::new(keep, |i: int| items[order[i] as int])
}

/// The sum of scores, added one after the other.
pub open spec fn score_sum(scores: Seq<Scalar>) -> Scalar
    decreases scores.len(),
{
    if scores.len() == 0 {
        Scalar { bits: 0 }
    } else {
        score_sum(scores.drop_last()).plus_spec(scores.last())
    }
}

/// The mean of scores; zero where there is none.
pub open spec fn score_mean(scores: Seq<Scalar>) -> Scalar {
    score_sum(scores).over_spec(
        Scalar::from_count_spec(
            if scores.len() == 0 {
                1
            } else {
                scores.len()
            },
        ),
    )
}

/// `s` is the highest score; zero where there is none.
pub open spec fn is_best(scores: Seq<Scalar>, s: Scalar) -> bool {
    if scores.len() == 0 {
        s.bits == 0
    } else {
        exists|k: int| last_highest(scores, k) && s == #[trigger] scores[k]
    }
}

/// `s` is the lowest score; zero where there is none.
pub open spec fn is_worst(scores: Seq<Scalar>, s: Scalar) -> bool {
    if scores.len() == 0 {
        s.bits == 0
    } else {
        exists|k: int| first_lowest(scores, k) && s == #[trigger] scores[k]
    }
}

/// The highest score; zero where there is none.
pub fn best_score(scores: &[Scalar]) -> (r: Scalar)
    ensures
        is_best(scores@, r),
{
    match pick_last_highest(scores) {
        Some(k) => {
            proof {
                assert(last_highest(scores@, k as int));
                assert(scores@[k as int] == scores@[k as int]);
            }
            scores[k]
        },
        None => Scalar::zero(),
    }
}

/// The lowest score; zero where there is none.
pub fn worst_score(scores: &[Scalar]) -> (r: Scalar)
    ensures
        is_worst(scores@, r),
{
    match pick_first_lowest(scores) {
        Some(k) => {
            proof {
                assert(first_lowest(scores@, k as int));
                assert(scores@[k as int] == scores@[k as int]);
            }
            scores[k]
        },
        None => Scalar::zero(),
    }
}

/// The mean of scores; zero where there is none.
pub fn mean_score(scores: &[Scalar]) -> (r: Scalar)
    ensures
        r == score_mean(scores@),
{
    let mut sum = Scalar::zero();
    let mut i: usize = 0;
    while i < scores.len()
        invariant
            i <= scores@.len(),
            sum == score_sum(scores@.take(i as int)),
        decreases scores.len() - i,
    {
        proof {
            assert(scores@.take(i + 1).drop_last() =~= scores@.take(i as int));
        }
        sum = sum.plus(scores[i]);
        i = i + 1;
    }
    proof {
        assert(scores@.take(i as int) =~= scores@);
    }
    let count: u64 = if scores.len() == 0 {
        1
    } else {
        scores.len() as u64
    };
    sum.over(Scalar::from_count(count))
}

/// Counts the predictions that agree with the label at their position.
pub fn count_hits(predictions: &[u8], labels: &[u8]) -> (r: usize)
    ensures
        r == hits(predictions@, labels@, predictions@.len()),
        r <= predictions@.len(),
{
    let mut n: usize = 0;
    let mut j: usize = 0;
    while j < predictions.len()
        invariant
            j <= predictions@.len(),
            n <= j,
            n == hits(predictions@, labels@, j as nat),
        decreases predictions.len() - j,
    {
        if j < labels.len() && predictions[j] == labels[j] {
            n = n + 1;
        }
        j = j + 1;
    }
    n
}

/// The share of predictions that agree with the labels.
pub fn fitness(predictions: &[u8], labels: &[u8], n_samples: usize) -> (r: Scalar)
    ensures
        r == fitness_of(predictions@, labels@, n_samples as nat),
{
    let correct: usize = count_hits(predictions, labels);
    let total: usize = if n_samples < predictions.len() {
        n_samples
    } else {
        predictions.len()
    };
    Scalar::ratio(correct as u64, total as u64)
}

/// How many of `len` specialists a generation retires.
pub fn count_retired(len: usize, fraction: Scalar) -> (r: usize)
    ensures
        r == retire_count(len as nat, fraction),
        r >= 1,
{
    proof {
        law_someone_retires(len as nat, fraction);
    }
    Scalar::from_count(len as u64).times(fraction).max(Scalar::one()).to_count()
}

/// Every generation retires at least one.
pub proof fn law_someone_retires(len: nat, fraction: Scalar)
    ensures
        retire_count(len, fraction) >= 1,
{
    let x = Scalar::from_count_spec(len).times_spec(fraction).max_spec(Scalar { bits: ONE_BITS });
    crate::counts::lemma_one_value();
    if x.mag() > ONE_BITS {
        crate::scalar::lemma_magnitude_increases(ONE_BITS as int, x.mag());
    }
    let o = crate::scalar::one_units();
    assert(x.abs_units() / o >= 1) by (nonlinear_arith)
        requires
            x.abs_units() >= o,
            o > 0,
    ;
}

/// A share of at most one never retires more than there are, in populations of up to 2^24.
pub proof fn law_share_fits(len: nat, fraction: Scalar)
    requires
        1 <= len <= 0x100_0000,
        !fraction.nan(),
        fraction.key() <= ONE_BITS,
    ensures
        retire_count(len, fraction) <= len,
{
    let x = Scalar::from_count_spec(len);
    let y = x.times_spec(fraction);
    let one = Scalar { bits: ONE_BITS };
    let z = y.max_spec(one);
    let o = crate::scalar::one_units();
    crate::counts::law_small_counts_are_exact(len);
    crate::counts::lemma_one_value();
    crate::counts::law_counts_keep_order(len, len);
    let u = len * o;
    assert(u >= o) by (nonlinear_arith)
        requires
            u == len * o,
            len >= 1,
            o > 0,
    ;
    let v = fraction.abs_units();
    if fraction.mag() > 0 {
        crate::scalar::lemma_magnitude_increases(0, fraction.mag());
    }
    let n = u * v;
    assert(n >= 0) by (nonlinear_arith)
        requires
            n == u * v,
            0 <= v,
            0 <= u,
    ;
    crate::rounding::lemma_nearest_exists(n, o);
    if fraction.negative() {
        assert(y.key() <= 0);
    } else {
        if fraction.mag() < ONE_BITS {
            crate::scalar::lemma_magnitude_increases(fraction.mag(), ONE_BITS as int);
        }
        assert(0 <= n <= u * o) by (nonlinear_arith)
            requires
                n == u * v,
                0 <= v <= o,
                u >= 0,
        ;
        crate::rounding::lemma_number_is_nearest(x.mag(), o);
        let m = crate::arith::rounded(n, o);
        crate::rounding::lemma_nearest_monotone(m, n, x.mag(), u * o, o);
        if m < x.mag() {
            crate::scalar::lemma_magnitude_increases(m, x.mag());
        }
        assert(y.abs_units() <= u);
    }
    assert(z.abs_units() <= u);
    assert(z.abs_units() / o <= len) by (nonlinear_arith)
        requires
            z.abs_units() <= len * o,
            o > 0,
    ;
}

/// Takes the items at the first `keep` positions that `order` lists.
pub(crate) fn select<T>(items: Vec<T>, order: &Vec<usize>, keep: usize) -> (r: Vec<T>)
    requires
        order@.len() == items@.len(),
        order@.no_duplicates(),
        forall|p: int| 0 <= p < order@.len() ==> (#[trigger] order@[p]) < items@.len(),
        keep <= order@.len(),
    ensures
        r@ == selected(items@, order@, keep as nat),
{
    let ghost all = items@;
    let mut rest = items;
    // The positions that the remaining items had at the start.
    let mut left: Vec<usize> = Vec::new();
    let mut i: usize = 0;
    while i < rest.len()
        invariant
            i <= rest@.len(),
            rest@ == all,
            left@.len() == i,
            forall|j: int| 0 <= j < i ==> #[trigger] left@[j] == j,
        decreases rest.len() - i,
    {
        left.push(i);
        i = i + 1;
    }
    proof {
        assert forall|q: int| 0 <= q < order@.len() implies left@.contains(
            #[trigger] order@[q],
        ) by {
            assert(left@[order@[q] as int] == order@[q]);
        }
    }
    let mut out: Vec<T> = Vec::new();
    let mut p: usize = 0;
    while p < keep
        invariant
            p <= keep <= order@.len(),
            order@.no_duplicates(),
            forall|q: int| 0 <= q < order@.len() ==> (#[trigger] order@[q]) < all.len(),
            out@ == selected(all, order@, p as nat),
            left@.len() == rest@.len(),
            forall|j: int| 0 <= j < left@.len() ==> (#[trigger] left@[j]) < all.len(),
            forall|j: int|
                0 <= j < left@.len() ==> #[trigger] rest@[j] == all[left@[j] as int],
            forall|q: int| p <= q < order@.len() ==> left@.contains(#[trigger] order@[q]),
        decreases keep - p,
    {
        let wanted: usize = order[p];
        assert(left@.contains(order@[p as int]));
        let count: usize = left.len();
        let mut k: usize = 0;
        while left[k] != wanted
            invariant
                k < count,
                count == left@.len(),
                left@.contains(wanted),
                forall|j: int| 0 <= j < k ==> left@[j] != wanted,
            decreases left@.len() - k,
        {
            proof {
                let w = choose|w: int| 0 <= w < left@.len() && left@[w] == wanted;
                assert(w > k);
            }
            k = k + 1;
        }
        let ghost (old_left, old_rest) = (left@, rest@);
        let item = rest.remove(k);
        left.remove(k);
        proof {
            assert(item == all[wanted as int]);
            assert forall|j: int| 0 <= j < left@.len() implies #[trigger] rest@[j]
                == all[left@[j] as int] by {
                let b = if j < k {
                    j
                } else {
                    j + 1
                };
                assert(left@[j] == old_left[b]);
                assert(rest@[j] == old_rest[b]);
            }
            assert forall|q: int| p + 1 <= q < order@.len() implies left@.contains(
                #[trigger] order@[q],
            ) by {
                assert(old_left.contains(order@[q]));
                let w = choose|w: int| 0 <= w < old_left.len() && old_left[w] == order@[q];
                assert(w != k);
                let b = if w < k {
                    w
                } else {
                    w - 1
                };
                assert(left@[b] == order@[q]);
            }
        }
        out.push(item);
        p = p + 1;
        proof {
            assert(out@ =~= selected(all, order@, p as nat));
        }
    }
    out
}

} // verus!
