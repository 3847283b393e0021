//! The life of a population: founders, judgement, retirement, offspring, and the end of a
//! generation.

use crate::evolution::{
    EvolutionGenerationReport, MutationOrder, SpecialistBrain, TaskSpecialistPool,
    TciEvolutionConfig, best_score, child_id, count_retired, fitness, fitness_of, founder_id,
    is_best, is_worst, keep_count, mean_score, retire_count, score_mean, select, selected,
    worst_score,
};
use crate::ranking::{is_ranking, rank_descending};
use crate::scalar::Scalar;
use crate::tci::TernaryBrain;
use crate::text::{push_decimal, push_hex};
use vstd::prelude::*;

verus! {

/// `s` is the specialist number `i` of a fresh population with the given base.
pub open spec fn is_founder(
    s: SpecialistBrain,
    task: Seq<char>,
    i: nat,
    base: TernaryBrain,
) -> bool {
    &&& s.id@ == founder_id(task, i)
    &&& s.brain.image_dim == base.image_dim
    &&& s.brain.n_classes == base.n_classes
    &&& s.brain.weights@ == base.weights@
    &&& s.generation_born == 0
    &&& s.parent_id is None
    &&& s.mutations_applied == 0
}

/// `s` is the child with the given weights that the specialist `parent`, at position `at`, has in
/// a generation.
pub open spec fn is_child(
    s: SpecialistBrain,
    task: Seq<char>,
    generation: u32,
    at: nat,
    parent: SpecialistBrain,
    weights: Vec<i8>,
) -> bool {
    &&& s.id@ == child_id(task, generation as nat, at)
    &&& s.brain.image_dim == parent.brain.image_dim
    &&& s.brain.n_classes == parent.brain.n_classes
    &&& s.brain.weights == weights
    &&& s.generation_born == generation + 1
    &&& s.parent_id == Some(parent.id)
    &&& s.mutations_applied == parent.mutations_applied + 1
}

impl TaskSpecialistPool {
    /// Every specialist has a fitness.
    pub open spec fn wf(self) -> bool {
        self.fitness_scores@.len() == self.specialists@.len()
    }

    /// No specialist was born after the given generation, or has more mutations than that.
    pub open spec fn aged_by(self, generation: int) -> bool {
        forall|i: int|
            0 <= i < self.specialists@.len() ==> (#[trigger] self.specialists@[i]).generation_born
                <= generation && self.specialists@[i].mutations_applied <= generation
    }

    /// No specialist is younger, or has more mutations, than generations have passed.
    pub open spec fn aged(self) -> bool {
        self.aged_by(self.generation as int)
    }

    /// A fresh population: `size` copies of the base, without any fitness yet.
    pub fn spawn(task_name: &str, base: &TernaryBrain, size: usize) -> (r: TaskSpecialistPool)
        ensures
            r.wf(),
            r.aged(),
            r.task_name@ == task_name@,
            r.specialists@.len() == size,
            forall|i: int|
                0 <= i < size ==> is_founder(
                    #[trigger] r.specialists@[i],
                    task_name@,
                    i as nat,
                    *base,
                ),
            forall|i: int| 0 <= i < size ==> (#[trigger] r.fitness_scores@[i]).bits == 0,
            r.generation == 0,
            r.total_mutations == 0,
    {
        let mut specialists: Vec<SpecialistBrain> = Vec::new();
        let mut fitness_scores: Vec<Scalar> = Vec::new();
        let mut i: usize = 0;
        while i < size
            invariant
                i <= size,
                specialists@.len() == i,
                fitness_scores@.len() == i,
                forall|j: int|
                    0 <= j < i ==> is_founder(
                        #[trigger] specialists@[j],
                        task_name@,
                        j as nat,
                        *base,
                    ),
                forall|j: int| 0 <= j < i ==> (#[trigger] fitness_scores@[j]).bits == 0,
            decreases size - i,
        {
            let mut id: String = task_name.to_owned();
            id.append("-spec-");
            push_hex(&mut id, i as u64, 6);
            specialists.push(
                SpecialistBrain {
                    id,
                    brain: base.copy(),
                    generation_born: 0,
                    parent_id: None,
                    mutations_applied: 0,
                },
            );
            fitness_scores.push(Scalar::zero());
            i = i + 1;
        }
        TaskSpecialistPool {
            task_name: task_name.to_owned(),
            specialists,
            fitness_scores,
            generation: 0,
            total_mutations: 0,
        }
    }

    /// Gives every specialist the share of its predictions that agree with the labels.
    pub fn evaluate_pool(
        &mut self,
        predictions: &Vec<Vec<u8>>,
        labels: &[u8],
        n_samples: usize,
    )
        requires
            old(self).wf(),
            predictions@.len() == old(self).specialists@.len(),
        ensures
            final(self).wf(),
            final(self).task_name == old(self).task_name,
            final(self).specialists == old(self).specialists,
            final(self).generation == old(self).generation,
            final(self).total_mutations == old(self).total_mutations,
            forall|i: int|
                0 <= i < final(self).specialists@.len()
                    ==> #[trigger] final(self).fitness_scores@[i] == fitness_of(
                    predictions@[i]@,
                    labels@,
                    n_samples as nat,
                ),
    {
        let mut i: usize = 0;
        while i < self.specialists.len()
            invariant
                i <= self.specialists@.len(),
                self.wf(),
                predictions@.len() == self.specialists@.len(),
                self.task_name == old(self).task_name,
                self.specialists == old(self).specialists,
                self.generation == old(self).generation,
                self.total_mutations == old(self).total_mutations,
                forall|j: int|
                    0 <= j < i ==> #[trigger] self.fitness_scores@[j] == fitness_of(
                        predictions@[j]@,
                        labels@,
                        n_samples as nat,
                    ),
            decreases self.specialists.len() - i,
        {
            let score = fitness(predictions[i].as_slice(), labels, n_samples);
            self.fitness_scores.set(i, score);
            i = i + 1;
        }
    }

    /// Retires the least fit: the population is put in order of fitness and its tail is dropped.
    /// Returns how many the share asks to retire.
    pub fn retire(&mut self, fraction: Scalar) -> (r: usize)
        requires
            old(self).wf(),
            retire_count(old(self).specialists@.len(), fraction) <= old(self).specialists@.len(),
        ensures
            r == retire_count(old(self).specialists@.len(), fraction),
            1 <= r <= old(self).specialists@.len(),
            r < old(self).specialists@.len() ==> final(self).specialists@.len()
                == old(self).specialists@.len() - r,
            r == old(self).specialists@.len() ==> final(self).specialists@.len() == 1,
            final(self).wf(),
            final(self).task_name == old(self).task_name,
            final(self).generation == old(self).generation,
            final(self).total_mutations == old(self).total_mutations,
            exists|order: Seq<usize>|
                is_ranking(old(self).fitness_scores@, order) && final(self).specialists@
                    == #[trigger] selected(
                    old(self).specialists@,
                    order,
                    keep_count(old(self).specialists@.len(), fraction),
                ) && final(self).fitness_scores@ == selected(
                    old(self).fitness_scores@,
                    order,
                    keep_count(old(self).specialists@.len(), fraction),
                ),
            old(self).aged() ==> final(self).aged(),
    {
        let len: usize = self.specialists.len();
        let retired: usize = count_retired(len, fraction);
        let order = rank_descending(self.fitness_scores.as_slice());
        let keep: usize = if len > retired {
            len - retired
        } else {
            1
        };
        let mut specialists: Vec<SpecialistBrain> = Vec::new();
        std::mem::swap(&mut specialists, &mut self.specialists);
        self.specialists = select(specialists, &order, keep);
        let mut scores: Vec<Scalar> = Vec::new();
        std::mem::swap(&mut scores, &mut self.fitness_scores);
        self.fitness_scores = select(scores, &order, keep);
        proof {
            let k = keep_count(old(self).specialists@.len(), fraction);
            assert(self.specialists@ == selected(old(self).specialists@, order@, k));
        }
        retired
    }

    /// What the backend has to mutate: all children of a generation have the parent that the seed
    /// picks among the survivors.
    pub fn mutation_order(&self, config: &TciEvolutionConfig) -> (r: MutationOrder)
        requires
            self.specialists@.len() > 0,
        ensures
            r.parent == (config.seed as usize) as int % self.specialists@.len() as int,
            r.weights@ == self.specialists@[r.parent as int].brain.weights@,
            r.flip_rate == config.mutation_rate,
            r.seed == config.seed ^ (self.generation as u64),
            r.children == config.mutations_per_gen,
    {
        let parent: usize = (config.seed as usize) % self.specialists.len();
        MutationOrder {
            parent,
            weights: self.specialists[parent].brain.dump_weights_i8(),
            flip_rate: config.mutation_rate,
            seed: config.seed ^ (self.generation as u64),
            children: config.mutations_per_gen,
        }
    }

    /// A child of the specialist at position `parent` with the given weights.
    fn bear(&self, parent: usize, weights: Vec<i8>) -> (r: SpecialistBrain)
        requires
            parent < self.specialists@.len(),
            self.generation < u32::MAX,
            self.specialists@[parent as int].mutations_applied < u32::MAX,
        ensures
            is_child(
                r,
                self.task_name@,
                self.generation,
                parent as nat,
                self.specialists@[parent as int],
                weights,
            ),
    {
        let mut id: String = self.task_name.clone();
        id.append("-gen");
        push_decimal(&mut id, self.generation as u64);
        id.append("-mut");
        push_decimal(&mut id, parent as u64);
        SpecialistBrain {
            id,
            brain: TernaryBrain::with_weights(&self.specialists[parent].brain, weights),
            generation_born: self.generation + 1,
            parent_id: Some(self.specialists[parent].id.clone()),
            mutations_applied: self.specialists[parent].mutations_applied + 1,
        }
    }

    /// Adds a child of the specialist at position `parent` for each of the given weights, without
    /// any fitness yet.
    #[verifier::spinoff_prover]
    pub fn breed(&mut self, parent: usize, children: Vec<Vec<i8>>)
        requires
            old(self).wf(),
            old(self).aged(),
            parent < old(self).specialists@.len(),
            old(self).generation < u32::MAX,
            old(self).total_mutations + children@.len() <= u32::MAX,
        ensures
            final(self).wf(),
            final(self).task_name == old(self).task_name,
            final(self).generation == old(self).generation,
            final(self).total_mutations == old(self).total_mutations + children@.len(),
            final(self).specialists@.len() == old(self).specialists@.len() + children@.len(),
            forall|i: int|
                0 <= i < old(self).specialists@.len() ==> #[trigger] final(self).specialists@[i]
                    == old(self).specialists@[i] && final(self).fitness_scores@[i]
                    == old(self).fitness_scores@[i],
            forall|i: int|
                0 <= i < children@.len() ==> is_child(
                    #[trigger] final(self).specialists@[old(self).specialists@.len() + i],
                    old(self).task_name@,
                    old(self).generation,
                    parent as nat,
                    old(self).specialists@[parent as int],
                    children@[i],
                ) && final(self).fitness_scores@[old(self).specialists@.len() + i].bits == 0,
            final(self).aged_by(old(self).generation + 1),
    {
        let ghost before = old(self).specialists@;
        let ghost weights = children@;
        let mut rest = children;
        while rest.len() > 0
            invariant
                self.wf(),
                old(self).wf(),
                old(self).aged(),
                parent < before.len(),
                before == old(self).specialists@,
                self.task_name == old(self).task_name,
                self.generation == old(self).generation,
                self.generation < u32::MAX,
                old(self).total_mutations + weights.len() <= u32::MAX,
                rest@.len() <= weights.len(),
                rest@ == weights.skip(weights.len() - rest@.len()),
                self.specialists@.len() + rest@.len() == before.len() + weights.len(),
                self.total_mutations == old(self).total_mutations + (weights.len() - rest@.len()),
                forall|i: int|
                    0 <= i < before.len() ==> #[trigger] self.specialists@[i] == before[i]
                        && self.fitness_scores@[i] == old(self).fitness_scores@[i],
                forall|q: int|
                    before.len() <= q < self.specialists@.len() ==> is_child(
                        #[trigger] self.specialists@[q],
                        self.task_name@,
                        self.generation,
                        parent as nat,
                        before[parent as int],
                        weights[q - before.len()],
                    ) && self.fitness_scores@[q].bits == 0,
            decreases rest.len(),
        {
            let ghost at = weights.len() - rest@.len();
            let w = rest.remove(0);
            proof {
                assert(w == weights[at]);
                assert(rest@ =~= weights.skip(at + 1));
                assert(self.specialists@[parent as int] == before[parent as int]);
                assert(before[parent as int].mutations_applied <= old(self).generation);
            }
            let child = self.bear(parent, w);
            let ghost listed = self.specialists@;
            let ghost scores = self.fitness_scores@;
            self.specialists.push(child);
            self.fitness_scores.push(Scalar::zero());
            self.total_mutations = self.total_mutations + 1;
            proof {
                let n = before.len();
                assert(listed.len() == n + at);
                assert forall|i: int| 0 <= i < n implies #[trigger] self.specialists@[i]
                    == before[i] && self.fitness_scores@[i] == old(self).fitness_scores@[i] by {
                    assert(self.specialists@[i] == listed[i]);
                    assert(self.fitness_scores@[i] == scores[i]);
                }
                assert forall|q: int| n <= q < self.specialists@.len() implies is_child(
                    #[trigger] self.specialists@[q],
                    self.task_name@,
                    self.generation,
                    parent as nat,
                    before[parent as int],
                    weights[q - n],
                ) && self.fitness_scores@[q].bits == 0 by {
                    if q < n + at {
                        assert(self.specialists@[q] == listed[q]);
                        assert(self.fitness_scores@[q] == scores[q]);
                    } else {
                        assert(self.specialists@[q] == child);
                        assert(self.fitness_scores@[q].bits == 0);
                    }
                }
            }
        }
        proof {
            let n = before.len();
            assert forall|i: int| 0 <= i < self.specialists@.len() implies (
            #[trigger] self.specialists@[i]).generation_born <= self.generation + 1
                && self.specialists@[i].mutations_applied <= self.generation + 1 by {
                if i < n {
                    assert(self.specialists@[i] == before[i]);
                } else {
                    assert(is_child(
                        self.specialists@[i],
                        self.task_name@,
                        self.generation,
                        parent as nat,
                        before[parent as int],
                        weights[i - n],
                    ));
                }
            }
            assert forall|i: int| 0 <= i < weights.len() implies is_child(
                #[trigger] self.specialists@[n + i],
                self.task_name@,
                self.generation,
                parent as nat,
                before[parent as int],
                weights[i],
            ) && self.fitness_scores@[n + i].bits == 0 by {
                let q = n + i;
                assert(is_child(
                    self.specialists@[q],
                    self.task_name@,
                    self.generation,
                    parent as nat,
                    before[parent as int],
                    weights[q - n],
                ));
            }
        }
    }

    /// Ends a generation: reports on the population, and counts the generation. How long it took
    /// is for the caller to fill in.
    pub fn close_generation(&mut self, retired: usize, spawned: usize) -> (r:
        EvolutionGenerationReport)
        requires
            old(self).generation < u32::MAX,
        ensures
            final(self).task_name == old(self).task_name,
            final(self).specialists == old(self).specialists,
            final(self).fitness_scores == old(self).fitness_scores,
            final(self).total_mutations == old(self).total_mutations,
            final(self).generation == old(self).generation + 1,
            r.task_name == old(self).task_name,
            r.generation == old(self).generation + 1,
            r.population_size == old(self).specialists@.len(),
            is_best(old(self).fitness_scores@, r.best_fitness),
            r.avg_fitness == score_mean(old(self).fitness_scores@),
            is_worst(old(self).fitness_scores@, r.worst_fitness),
            r.mutations_spawned == spawned,
            r.retired == retired,
            r.merged_to_consensus == 0,
            r.elapsed_ms == 0,
    {
        let best_fitness = best_score(self.fitness_scores.as_slice());
        let avg_fitness = mean_score(self.fitness_scores.as_slice());
        let worst_fitness = worst_score(self.fitness_scores.as_slice());
        self.generation = self.generation + 1;
        EvolutionGenerationReport {
            task_name: self.task_name.clone(),
            generation: self.generation,
            population_size: self.specialists.len(),
            best_fitness,
            avg_fitness,
            worst_fitness,
            mutations_spawned: spawned,
            retired,
            merged_to_consensus: 0,
            elapsed_ms: 0,
        }
    }
}

} // verus!
