//! The daemon: learns tasks, evolves a population for each of them, and keeps what came of it.
//!
//! Training, prediction and mutation belong to a backend. A run of the daemon is a sequence of
//! steps: each one takes what the backend has answered and says what it has to do next.

use crate::evolution::{
    EvolutionGenerationReport, MutationOrder, TaskSpecialistPool, TciEvolutionConfig, best_score,
    count_retired, default_config, fitness_of, is_best, is_worst, keep_count, mean_score,
    retire_count, score_mean, selected,
};
use crate::pool::{is_child, is_founder};
use crate::ranking::is_ranking;
use crate::scalar::Scalar;
use crate::tci::{
    Route, RouteOutcome, RouteStep, TciEngine, TciError, TernaryBrain, TrainedTask, decision_of,
    doubtful, error_text, is_first_named, merged_into, most_similar, reshaped, scores_fit,
};
use vstd::prelude::*;

verus! {

/// Pattern of one half, the least similarity and confidence of a routed sample.
pub const HALF_BITS: u32 = 0x3f00_0000;

/// Why the daemon gives no answer.
#[derive(Debug)]
pub enum DaemonError {
    /// The task could not be learned.
    Learn { cause: TciError },
    /// The sample could not be routed.
    Routing { cause: TciError },
    /// The backend could not load the weights of a child.
    Offspring { message: String },
}

/// The text of a `DaemonError`.
pub open spec fn daemon_error_text(e: DaemonError) -> Seq<char> {
    match e {
        DaemonError::Learn { cause } => "TCI learn_task failed: "@ + error_text(cause),
        DaemonError::Routing { cause } => "Routing failed: "@ + error_text(cause),
        DaemonError::Offspring { message } => message@,
    }
}

impl DaemonError {
    /// The error in words.
    pub fn message(&self) -> (r: String)
        ensures
            r@ == daemon_error_text(*self),
    {
        match self {
            DaemonError::Learn { cause } => {
                let mut out: String = "TCI learn_task failed: ".to_owned();
                out.append(cause.message().as_str());
                out
            },
            DaemonError::Routing { cause } => {
                let mut out: String = "Routing failed: ".to_owned();
                out.append(cause.message().as_str());
                out
            },
            DaemonError::Offspring { message } => message.clone(),
        }
    }
}

/// Where a run of the daemon stands.
#[derive(Clone, Copy, Debug, PartialEq, Eq, Structural)]
pub enum RunPhase {
    /// The founders have to predict.
    Founders,
    /// The backend has to mutate.
    Offspring,
    /// The generation, with its offspring, has to predict.
    Generation,
}

/// A population on its way through the generations.
#[derive(Debug)]
pub struct EvolutionRun {
    pub pool: TaskSpecialistPool,
    pub labels: Vec<u8>,
    pub n_samples: usize,
    /// How many generations are still to begin.
    pub rounds_left: usize,
    pub phase: RunPhase,
    /// How many the present generation has retired.
    pub retired: usize,
    /// The position of the parent of the present generation.
    pub parent: usize,
}

impl EvolutionRun {
    /// The generations that are still to end.
    pub open spec fn rounds_open(self) -> int {
        if self.phase == RunPhase::Founders {
            self.rounds_left as int
        } else {
            self.rounds_left + 1
        }
    }

    /// The mutations that are still to be spawned.
    pub open spec fn mutations_open(self, config: TciEvolutionConfig) -> int {
        if self.phase == RunPhase::Offspring {
            (self.rounds_left + 1) * config.mutations_per_gen
        } else {
            self.rounds_left * config.mutations_per_gen
        }
    }

    /// The run fits a daemon: every brain has as many weights as its template, and the counters
    /// of the population suffice for what is still to come.
    pub open spec fn fits(self, config: TciEvolutionConfig, weight_count: nat) -> bool {
        &&& self.pool.wf()
        &&& self.phase == RunPhase::Generation ==> self.pool.aged_by(self.pool.generation + 1)
        &&& self.phase != RunPhase::Generation ==> self.pool.aged()
        &&& forall|i: int|
            0 <= i < self.pool.specialists@.len() ==> (
            #[trigger] self.pool.specialists@[i]).brain.weights@.len() == weight_count
        &&& self.pool.generation + self.rounds_open() <= u32::MAX
        &&& self.pool.total_mutations + self.mutations_open(config) <= u32::MAX
        &&& self.phase == RunPhase::Offspring ==> self.parent < self.pool.specialists@.len()
    }

    /// Whether the share that the next generation retires, if there is one, does not exceed the
    /// population.
    pub fn retirement_fits(&self, config: &TciEvolutionConfig) -> (r: bool)
        ensures
            r == self.can_retire(*config),
    {
        let len: usize = self.pool.specialists.len();
        self.rounds_left == 0 || count_retired(len, config.retire_fraction) <= len
    }

    /// The share that the next generation retires, if there is one, does not exceed the population.
    pub open spec fn can_retire(self, config: TciEvolutionConfig) -> bool {
        self.rounds_left > 0 ==> retire_count(
            self.pool.specialists@.len(),
            config.retire_fraction,
        ) <= self.pool.specialists@.len()
    }
}

/// What follows in a run.
#[derive(Debug)]
pub enum EvolutionStep {
    /// The backend has to mutate.
    Mutate { run: EvolutionRun, order: MutationOrder },
    /// The population has come to its end and is stored at this position.
    Finished { pool_index: usize },
}

/// The population `after` is `before` with the fitness that the predictions give.
pub open spec fn pool_scored(
    before: TaskSpecialistPool,
    after: TaskSpecialistPool,
    predictions: Seq<Vec<u8>>,
    labels: Seq<u8>,
    n_samples: nat,
) -> bool {
    &&& after.task_name == before.task_name
    &&& after.specialists == before.specialists
    &&& after.generation == before.generation
    &&& after.total_mutations == before.total_mutations
    &&& after.fitness_scores@.len() == before.specialists@.len()
    &&& forall|i: int|
        0 <= i < before.specialists@.len() ==> #[trigger] after.fitness_scores@[i] == fitness_of(
            predictions[i]@,
            labels,
            n_samples,
        )
}

/// The population `after` is what is left of `before` once the least fit have retired.
pub open spec fn pool_retired(
    before: TaskSpecialistPool,
    after: TaskSpecialistPool,
    fraction: Scalar,
) -> bool {
    let keep = keep_count(before.specialists@.len(), fraction);
    &&& after.task_name == before.task_name
    &&& after.generation == before.generation
    &&& after.total_mutations == before.total_mutations
    &&& exists|order: Seq<usize>|
        is_ranking(before.fitness_scores@, order) && after.specialists@ == #[trigger] selected(
            before.specialists@,
            order,
            keep,
        ) && after.fitness_scores@ == selected(before.fitness_scores@, order, keep)
}

/// The step `step` begins a generation of the population `pool`.
pub open spec fn generation_begun(
    pool: TaskSpecialistPool,
    run: EvolutionRun,
    config: TciEvolutionConfig,
    step: EvolutionStep,
) -> bool {
    &&& step matches EvolutionStep::Mutate { run: next, order }
    &&& pool_retired(pool, next.pool, config.retire_fraction)
    &&& next.labels == run.labels
    &&& next.n_samples == run.n_samples
    &&& next.rounds_left == run.rounds_left - 1
    &&& next.phase == RunPhase::Offspring
    &&& next.retired == retire_count(pool.specialists@.len(), config.retire_fraction)
    &&& next.parent == order.parent
    &&& order.parent == (config.seed as usize) as int % next.pool.specialists@.len() as int
    &&& order.weights@ == next.pool.specialists@[order.parent as int].brain.weights@
    &&& order.flip_rate == config.mutation_rate
    &&& order.seed == config.seed ^ (pool.generation as u64)
    &&& order.children == config.mutations_per_gen
}

/// A population and the key under which it is stored.
pub type PoolEntry = (String, TaskSpecialistPool);

/// `after` is `before` with a population stored under the name of its task.
pub open spec fn pool_stored(
    before: Seq<PoolEntry>,
    after: Seq<PoolEntry>,
    pool: TaskSpecialistPool,
    at: int,
) -> bool {
    &&& 0 <= at < after.len()
    &&& after[at].0@ == pool.task_name@
    &&& after[at].1 == pool
    &&& if exists|i: int|
        0 <= i < before.len() && (#[trigger] before[i]).0@ == pool.task_name@ {
        &&& at < before.len()
        &&& before[at].0@ == pool.task_name@
        &&& after == before.update(at, after[at])
    } else {
        &&& at == before.len()
        &&& after == before.push(after[at])
    }
}

/// What a population looks like from outside.
#[derive(Debug, Clone)]
pub struct TaskStatus {
    pub name: String,
    pub population_size: usize,
    pub generation: u32,
    pub best_fitness: Scalar,
    pub avg_fitness: Scalar,
}

/// What the daemon looks like from outside.
#[derive(Debug, Clone)]
pub struct DaemonStatus {
    pub running: bool,
    pub total_tasks: usize,
    pub total_specialists: usize,
    pub total_generations: u32,
    pub tasks: Vec<TaskStatus>,
}

/// No two populations are stored under the same key.
pub open spec fn keys_distinct(pools: Seq<PoolEntry>) -> bool {
    forall|i: int, j: int|
        0 <= i < j < pools.len() ==> (#[trigger] pools[i]).0@ != (#[trigger] pools[j]).0@
}

/// Every population is stored under the name of its task.
pub open spec fn keys_name_tasks(pools: Seq<PoolEntry>) -> bool {
    forall|i: int|
        0 <= i < pools.len() ==> (#[trigger] pools[i]).0@ == pools[i].1.task_name@
}

/// The number of specialists in all populations.
pub open spec fn specialists_in(pools: Seq<PoolEntry>) -> nat
    decreases pools.len(),
{
    if pools.len() == 0 {
        0
    } else {
        specialists_in(pools.drop_last()) + pools.last().1.specialists@.len()
    }
}

/// The daemon.
#[derive(Debug)]
pub struct TciEvolutionDaemon<P> {
    pub config: TciEvolutionConfig,
    pub engine: TciEngine<P>,
    /// One population for each task that was evolved, stored under the name of the task.
    pub pools: Vec<PoolEntry>,
    pub reports: Vec<EvolutionGenerationReport>,
    pub running: bool,
    pub total_generations: u32,
}

impl<P> TciEvolutionDaemon<P> {
    /// No two populations are stored under the same key, and the engine is in order.
    pub open spec fn wf(self) -> bool {
        self.engine.wf() && keys_distinct(self.pools@)
    }

    /// Whether no two populations are stored under the same key, and the engine is in order.
    pub fn in_order(&self) -> (r: bool)
        ensures
            r == self.wf(),
    {
        if !self.engine.in_order() {
            return false;
        }
        let mut j: usize = 0;
        while j < self.pools.len()
            invariant
                self.engine.wf(),
                j <= self.pools@.len(),
                forall|a: int, b: int|
                    0 <= a < b < j ==> (#[trigger] self.pools@[a]).0@ != (
                    #[trigger] self.pools@[b]).0@,
            decreases self.pools.len() - j,
        {
            let mut i: usize = 0;
            while i < j
                invariant
                    i <= j < self.pools@.len(),
                    forall|a: int|
                        0 <= a < i ==> (#[trigger] self.pools@[a]).0@ != self.pools@[j as int].0@,
                decreases j - i,
            {
                if self.pools[i].0 == self.pools[j].0 {
                    proof {
                        assert(self.pools@[i as int].0@ == self.pools@[j as int].0@);
                    }
                    return false;
                }
                i = i + 1;
            }
            j = j + 1;
        }
        true
    }

    /// A daemon with a fresh engine.
    pub fn with_template(template: TernaryBrain) -> (r: TciEvolutionDaemon<P>)
        ensures
            r.wf(),
            r.engine.template == template,
            r.engine.tasks@.len() == 0,
            r.engine.consensus@ == template.weights@,
            r.config == default_config(),
            r.pools@.len() == 0,
            r.reports@.len() == 0,
            !r.running,
            r.total_generations == 0,
    {
        Self::from_engine(TciEngine::new(template))
    }

    /// A daemon that goes on with an engine that has already learned.
    pub fn from_engine(engine: TciEngine<P>) -> (r: TciEvolutionDaemon<P>)
        ensures
            engine.wf() ==> r.wf(),
            r.engine == engine,
            r.config == default_config(),
            r.pools@.len() == 0,
            r.reports@.len() == 0,
            !r.running,
            r.total_generations == 0,
    {
        TciEvolutionDaemon {
            config: TciEvolutionConfig::default(),
            engine,
            pools: Vec::new(),
            reports: Vec::new(),
            running: false,
            total_generations: 0,
        }
    }

    /// Learns a task from what the backend has trained, and spawns its population: copies of the
    /// learned brain, which have to predict next.
    pub fn learn_task_with_evolution(
        &mut self,
        task_name: &str,
        labels: Vec<u8>,
        n_samples: usize,
        evolution_rounds: usize,
        trained: Result<TrainedTask<P>, String>,
    ) -> (r: Result<EvolutionRun, DaemonError>)
        requires
            n_samples > 0 && trained is Ok ==> old(self).engine.covered(),
            trained matches Ok(t) ==> t.weights@.len() == old(self).engine.template.weights@.len(),
            evolution_rounds <= u32::MAX,
            evolution_rounds * old(self).config.mutations_per_gen <= u32::MAX,
        ensures
            engine_learned(*old(self), *final(self)),
            r is Ok && keys_distinct(old(self).pools@) ==> final(self).wf(),
            n_samples == 0 ==> r == Err::<EvolutionRun, DaemonError>(
                DaemonError::Learn { cause: TciError::NoSamples },
            ),
            n_samples > 0 ==> (trained matches Err(e) ==> r == Err::<EvolutionRun, DaemonError>(
                DaemonError::Learn { cause: TciError::Backend { message: e } },
            )),
            r is Err ==> *final(self) == *old(self),
            n_samples > 0 ==> (trained matches Ok(t) ==> {
                &&& final(self).engine.tasks@.len() == old(self).engine.tasks@.len() + 1
                &&& final(self).engine.tasks@.drop_last() == old(self).engine.tasks@
                &&& final(self).engine.tasks@.last().name@ == task_name@
                &&& final(self).engine.tasks@.last().weights == t.weights
                &&& final(self).engine.tasks@.last().prototype == t.prototype
                &&& final(self).engine.tasks@.last().train_accuracy == t.accuracy
                &&& final(self).engine.agreed()
                &&& r matches Ok(run)
                &&& run.fits(old(self).config, old(self).engine.template.weights@.len())
                &&& run.pool.task_name@ == task_name@
                &&& run.pool.specialists@.len() == old(self).config.pool_size_per_task
                &&& forall|i: int|
                    0 <= i < run.pool.specialists@.len() ==> is_founder(
                        #[trigger] run.pool.specialists@[i],
                        task_name@,
                        i as nat,
                        reshaped(old(self).engine.template, t.weights),
                    )
                &&& run.pool.generation == 0
                &&& run.pool.total_mutations == 0
                &&& run.labels == labels
                &&& run.n_samples == n_samples
                &&& run.rounds_left == evolution_rounds
                &&& run.phase == RunPhase::Founders
            }),
    {
        match self.engine.learn_task(task_name, n_samples, trained) {
            Err(cause) => Err(DaemonError::Learn { cause }),
            Ok(_) => {
                let last: usize = self.engine.tasks.len() - 1;
                let weights = vstd::slice::slice_to_vec(self.engine.tasks[last].weights.as_slice());
                let base = TernaryBrain::with_weights(&self.engine.template, weights);
                let pool = TaskSpecialistPool::spawn(
                    task_name,
                    &base,
                    self.config.pool_size_per_task,
                );
                let run = EvolutionRun {
                    pool,
                    labels,
                    n_samples,
                    rounds_left: evolution_rounds,
                    phase: RunPhase::Founders,
                    retired: 0,
                    parent: 0,
                };
                proof {
                    assert forall|i: int|
                        0 <= i < run.pool.specialists@.len() implies is_founder(
                        #[trigger] run.pool.specialists@[i],
                        task_name@,
                        i as nat,
                        reshaped(self.engine.template, self.engine.tasks@.last().weights),
                    ) && run.pool.specialists@[i].brain.weights@.len()
                        == self.engine.template.weights@.len() by {
                        assert(is_founder(run.pool.specialists@[i], task_name@, i as nat, base));
                    }
                }
                Ok(run)
            },
        }
    }

    /// Stores a population under the name of its task, in place of an earlier one.
    fn store_pool(&mut self, pool: TaskSpecialistPool) -> (r: usize)
        requires
            old(self).wf(),
        ensures
            final(self).wf(),
            pool_stored(old(self).pools@, final(self).pools@, pool, r as int),
            final(self).config == old(self).config,
            final(self).engine == old(self).engine,
            final(self).reports == old(self).reports,
            final(self).running == old(self).running,
            final(self).total_generations == old(self).total_generations,
    {
        let mut i: usize = 0;
        while i < self.pools.len()
            invariant
                i <= self.pools@.len(),
                *self == *old(self),
                self.wf(),
                forall|j: int|
                    0 <= j < i ==> (#[trigger] self.pools@[j]).0@ != pool.task_name@,
            decreases self.pools.len() - i,
        {
            if self.pools[i].0 == pool.task_name {
                proof {
                    assert(old(self).pools@[i as int].0@ == pool.task_name@);
                }
                let key: String = pool.task_name.clone();
                self.pools.set(i, (key, pool));
                proof {
                    let at = i as int;
                    assert(self.pools@ =~= old(self).pools@.update(at, self.pools@[at]));
                }
                return i;
            }
            i = i + 1;
        }
        let key: String = pool.task_name.clone();
        self.pools.push((key, pool));
        proof {
            assert(self.pools@ =~= old(self).pools@.push(self.pools@[i as int]));
        }
        i
    }

    /// Begins the next generation of a judged population, or ends its run: then the fittest are
    /// merged into the memory of the task and the population is stored.
    fn next_round(&mut self, run: EvolutionRun) -> (r: EvolutionStep)
        requires
            old(self).wf(),
            run.pool.wf(),
            run.pool.aged(),
            forall|i: int|
                0 <= i < run.pool.specialists@.len() ==> (
                #[trigger] run.pool.specialists@[i]).brain.weights@.len()
                    == old(self).engine.template.weights@.len(),
            run.pool.generation + run.rounds_left <= u32::MAX,
            run.pool.total_mutations + run.rounds_left * old(self).config.mutations_per_gen
                <= u32::MAX,
            run.can_retire(old(self).config),
        ensures
            final(self).wf(),
            final(self).config == old(self).config,
            final(self).reports == old(self).reports,
            final(self).running == old(self).running,
            final(self).total_generations == old(self).total_generations,
            final(self).engine.template == old(self).engine.template,
            run.rounds_left > 0 ==> {
                &&& final(self).engine == old(self).engine
                &&& final(self).pools == old(self).pools
                &&& generation_begun(run.pool, run, old(self).config, r)
                &&& r->run.fits(old(self).config, old(self).engine.template.weights@.len())
            },
            run.rounds_left == 0 ==> run_finished(*old(self), *final(self), run.pool, r),
    {
        let mut run = run;
        if run.rounds_left == 0 {
            let name: String = run.pool.task_name.clone();
            self.engine.merge_best_into_task(
                &run.pool,
                name.as_str(),
                self.config.merge_top_k,
            );
            let pool_index = self.store_pool(run.pool);
            return EvolutionStep::Finished { pool_index };
        }
        let ghost before = run;
        let retired: usize = run.pool.retire(self.config.retire_fraction);
        proof {
            assert forall|i: int|
                0 <= i < run.pool.specialists@.len() implies (
            #[trigger] run.pool.specialists@[i]).brain.weights@.len()
                == self.engine.template.weights@.len() by {
                let order = choose|order: Seq<usize>|
                    is_ranking(before.pool.fitness_scores@, order) && run.pool.specialists@
                        == #[trigger] selected(
                        before.pool.specialists@,
                        order,
                        keep_count(before.pool.specialists@.len(), self.config.retire_fraction),
                    );
                assert(i < order.len());
                assert(order[i] < before.pool.specialists@.len());
                assert(run.pool.specialists@[i] == before.pool.specialists@[order[i] as int]);
            }
        }
        let order = run.pool.mutation_order(&self.config);
        proof {
            let (x, m) = (run.rounds_left as int, self.config.mutations_per_gen as int);
            assert((x - 1 + 1) * m == x * m);
        }
        run.retired = retired;
        run.parent = order.parent;
        run.phase = RunPhase::Offspring;
        run.rounds_left = run.rounds_left - 1;
        EvolutionStep::Mutate { run, order }
    }

    /// The founders have predicted: judges them, and begins the first generation or ends the run.
    pub fn founders_scored(&mut self, run: EvolutionRun, predictions: &Vec<Vec<u8>>) -> (r:
        EvolutionStep)
        requires
            old(self).wf(),
            run.fits(old(self).config, old(self).engine.template.weights@.len()),
            run.phase == RunPhase::Founders,
            predictions@.len() == run.pool.specialists@.len(),
            run.can_retire(old(self).config),
        ensures
            founders_advanced(*old(self), *final(self), run, predictions@, r),
    {
        let mut run = run;
        let ghost before = run;
        run.pool.evaluate_pool(predictions, run.labels.as_slice(), run.n_samples);
        proof {
            assert(pool_scored(
                before.pool,
                run.pool,
                predictions@,
                run.labels@,
                run.n_samples as nat,
            ));
        }
        let ghost pool = run.pool;
        let r = self.next_round(run);
        proof {
            assert(pool_scored(
                before.pool,
                pool,
                predictions@,
                before.labels@,
                before.n_samples as nat,
            ));
        }
        r
    }

    /// The backend has mutated: adds the children to the population, which has to predict next.
    /// Where a child could not be loaded, the run ends without a result.
    pub fn offspring_bred(
        &self,
        run: EvolutionRun,
        children: Result<Vec<Vec<i8>>, String>,
    ) -> (r: Result<EvolutionRun, DaemonError>)
        requires
            run.fits(self.config, self.engine.template.weights@.len()),
            run.phase == RunPhase::Offspring,
            children matches Ok(c) ==> c@.len() == self.config.mutations_per_gen && forall|i: int|
                0 <= i < c@.len() ==> (#[trigger] c@[i])@.len()
                    == self.engine.template.weights@.len(),
        ensures
            children matches Err(e) ==> r == Err::<EvolutionRun, DaemonError>(
                DaemonError::Offspring { message: e },
            ),
            children matches Ok(c) ==> (r matches Ok(next) && next.fits(
                self.config,
                self.engine.template.weights@.len(),
            ) && offspring_added(run, next, c@)),
    {
        match children {
            Err(message) => Err(DaemonError::Offspring { message }),
            Ok(c) => {
                let mut run = run;
                let ghost before = run;
                let ghost weights = c@;
                proof {
                    let (x, m) = (run.rounds_left as int, self.config.mutations_per_gen as int);
                    assert((x + 1) * m == x * m + m) by (nonlinear_arith);
                    assert(x * m >= 0) by (nonlinear_arith)
                        requires
                            x >= 0,
                            m >= 0,
                    ;
                }
                run.pool.breed(run.parent, c);
                run.phase = RunPhase::Generation;
                proof {
                    let n = before.pool.specialists@.len();
                    assert forall|i: int| 0 <= i < run.pool.specialists@.len() implies ({
                        let s = #[trigger] run.pool.specialists@[i];
                        s.brain.weights@.len() == self.engine.template.weights@.len()
                    }) by {
                        if i >= n {
                            assert(is_child(
                                run.pool.specialists@[n + (i - n)],
                                before.pool.task_name@,
                                before.pool.generation,
                                before.parent as nat,
                                before.pool.specialists@[before.parent as int],
                                weights[i - n],
                            ));
                        } else {
                            assert(run.pool.specialists@[i] == before.pool.specialists@[i]);
                        }
                    }
                    assert(pool_bred(before.pool, run.pool, before.parent as nat, weights));
                }
                Ok(run)
            },
        }
    }

    /// Judges a generation that has predicted, counts it, and reports on it.
    fn judge_generation(
        &mut self,
        run: EvolutionRun,
        predictions: &Vec<Vec<u8>>,
        elapsed_ms: u64,
    ) -> (r: EvolutionRun)
        requires
            run.pool.wf(),
            run.pool.generation < u32::MAX,
            predictions@.len() == run.pool.specialists@.len(),
        ensures
            final(self).config == old(self).config,
            final(self).engine == old(self).engine,
            final(self).pools == old(self).pools,
            final(self).running == old(self).running,
            final(self).total_generations == (old(self).total_generations + 1) % 0x1_0000_0000,
            final(self).reports@.len() == old(self).reports@.len() + 1,
            final(self).reports@.drop_last() == old(self).reports@,
            generation_judged(
                run,
                r.pool,
                final(self).reports@.last(),
                predictions@,
                old(self).config.mutations_per_gen,
                elapsed_ms,
            ),
            r.pool.wf(),
            r.pool.specialists == run.pool.specialists,
            r.pool.generation == run.pool.generation + 1,
            r.pool.total_mutations == run.pool.total_mutations,
            r.labels == run.labels,
            r.n_samples == run.n_samples,
            r.rounds_left == run.rounds_left,
    {
        let (judged, report) = judge_pool(
            run,
            predictions,
            self.config.mutations_per_gen,
            elapsed_ms,
        );
        self.reports.push(report);
        self.total_generations = self.total_generations.wrapping_add(1);
        proof {
            assert(self.reports@.drop_last() =~= old(self).reports@);
            assert(self.reports@.last() == report);
        }
        judged
    }

    /// A generation has predicted, which took `elapsed_ms`: judges it, reports on it, and begins
    /// the next one or ends the run.
    pub fn evolve_generation(
        &mut self,
        run: EvolutionRun,
        predictions: &Vec<Vec<u8>>,
        elapsed_ms: u64,
    ) -> (r: EvolutionStep)
        requires
            old(self).wf(),
            run.fits(old(self).config, old(self).engine.template.weights@.len()),
            run.phase == RunPhase::Generation,
            predictions@.len() == run.pool.specialists@.len(),
            run.can_retire(old(self).config),
        ensures
            generation_advanced(*old(self), *final(self), run, predictions@, elapsed_ms, r),
    {
        let ghost before = run;
        let judged = self.judge_generation(run, predictions, elapsed_ms);
        let ghost pool = judged.pool;
        let ghost middle = *self;
        proof {
            assert(judged.pool.aged());
        }
        let r = self.next_round(judged);
        proof {
            assert(self.reports == middle.reports);
            assert(generation_judged(
                before,
                pool,
                self.reports@.last(),
                predictions@,
                old(self).config.mutations_per_gen,
                elapsed_ms,
            ));
            if before.rounds_left > 0 {
                assert(generation_begun(pool, before, old(self).config, r));
            } else {
                assert(run_finished(*old(self), *self, pool, r));
            }
        }
        r
    }

    /// The reports on a task, in the order in which they were made.
    pub fn task_reports(&self, task_name: &str) -> (r: Vec<EvolutionGenerationReport>)
        ensures
            r@ == reports_on(self.reports@, task_name@),
    {
        let wanted: String = task_name.to_owned();
        let mut out: Vec<EvolutionGenerationReport> = Vec::new();
        let mut i: usize = 0;
        proof {
            reveal(Seq::filter);
        }
        while i < self.reports.len()
            invariant
                i <= self.reports@.len(),
                wanted@ == task_name@,
                out@ == reports_on(self.reports@.take(i as int), task_name@),
            decreases self.reports.len() - i,
        {
            proof {
                let earlier = self.reports@.take(i as int);
                law_report_reaches_its_task(earlier, self.reports@[i as int], task_name@);
                assert(self.reports@.take(i + 1) =~= earlier.push(self.reports@[i as int]));
            }
            if self.reports[i].task_name == wanted {
                out.push(self.reports[i].copy());
            }
            i = i + 1;
        }
        proof {
            assert(self.reports@.take(i as int) =~= self.reports@);
        }
        out
    }

    /// What the daemon looks like from outside: its counters, and each population.
    pub fn status(&self) -> (r: DaemonStatus)
        requires
            specialists_in(self.pools@) <= usize::MAX,
        ensures
            is_daemon_status(r, *self),
    {
        let mut tasks: Vec<TaskStatus> = Vec::new();
        let mut total: usize = 0;
        let mut i: usize = 0;
        while i < self.pools.len()
            invariant
                i <= self.pools@.len(),
                specialists_in(self.pools@) <= usize::MAX,
                total == specialists_in(self.pools@.take(i as int)),
                tasks@.len() == i,
                forall|j: int|
                    0 <= j < i ==> is_status_of(#[trigger] tasks@[j], self.pools@[j].1),
            decreases self.pools.len() - i,
        {
            proof {
                assert(self.pools@.take(i + 1).drop_last() =~= self.pools@.take(i as int));
                lemma_specialists_of_part(self.pools@, i + 1);
            }
            let pool = &self.pools[i].1;
            total = total + pool.specialists.len();
            tasks.push(
                TaskStatus {
                    name: pool.task_name.clone(),
                    population_size: pool.specialists.len(),
                    generation: pool.generation,
                    best_fitness: best_score(pool.fitness_scores.as_slice()),
                    avg_fitness: mean_score(pool.fitness_scores.as_slice()),
                },
            );
            i = i + 1;
        }
        proof {
            assert(self.pools@.take(i as int) =~= self.pools@);
        }
        DaemonStatus {
            running: self.running,
            total_tasks: self.pools.len(),
            total_specialists: total,
            total_generations: self.total_generations,
            tasks,
        }
    }

    /// The task that a sample resembles most, given how similar it is to each of them.
    pub fn nearest_task(&self, sample_len: usize, similarities: &[Scalar]) -> (r: Result<
        Route,
        DaemonError,
    >)
        requires
            self.engine.tasks@.len() > 0 && sample_len == self.engine.template.image_dim
                ==> similarities@.len() == self.engine.tasks@.len(),
        ensures
            self.engine.tasks@.len() == 0 ==> r == Err::<Route, DaemonError>(
                DaemonError::Routing { cause: TciError::NoTasks },
            ),
            self.engine.tasks@.len() > 0 && sample_len != self.engine.template.image_dim ==> r
                == Err::<Route, DaemonError>(
                DaemonError::Routing {
                    cause: TciError::SampleDim {
                        expected: self.engine.template.image_dim,
                        got: sample_len,
                    },
                },
            ),
            self.engine.tasks@.len() > 0 && sample_len == self.engine.template.image_dim ==> r
                is Ok,
            r matches Ok(route) ==> most_similar(similarities@, route) && route.task_index
                < self.engine.tasks@.len(),
    {
        match self.engine.route(sample_len, similarities) {
            Ok(route) => Ok(route),
            Err(cause) => Err(DaemonError::Routing { cause }),
        }
    }

    /// The answer of the routed task, where neither the similarity nor the confidence is below
    /// one half; the consensus has to answer otherwise.
    pub fn route_sample(&self, route: Route, scored: Result<Vec<i32>, String>) -> (r: Result<
        RouteStep,
        DaemonError,
    >)
        requires
            route.task_index < self.engine.tasks@.len(),
            scored matches Ok(scores) ==> scores_fit(scores@),
        ensures
            scored matches Err(e) ==> r == Err::<RouteStep, DaemonError>(
                DaemonError::Routing { cause: TciError::Backend { message: e } },
            ),
            scored matches Ok(scores) ==> r is Ok && if doubtful(
                route,
                scores@,
                Scalar { bits: HALF_BITS },
                Scalar { bits: HALF_BITS },
            ) {
                r->Ok_0 is ScoreConsensus
            } else {
                &&& r->Ok_0 matches RouteStep::Done { outcome }
                &&& outcome.task_index == route.task_index
                &&& outcome.task_name@ == self.engine.tasks@[route.task_index as int].name@
                &&& outcome.similarity == route.similarity
                &&& outcome.prediction == decision_of(scores@).class % 256
                &&& outcome.confidence == decision_of(scores@).confidence_spec()
                &&& !outcome.used_consensus_fallback
            },
    {
        let half = Scalar { bits: HALF_BITS };
        match self.engine.route_and_predict_robust(route, scored, half, half) {
            Ok(step) => Ok(step),
            Err(cause) => Err(DaemonError::Routing { cause }),
        }
    }

    /// The answer of the consensus to a doubtful route.
    pub fn route_sample_by_consensus(&self, route: Route, scored: Result<Vec<i32>, String>) -> (r:
        Result<RouteOutcome, DaemonError>)
        requires
            scored matches Ok(scores) ==> scores_fit(scores@),
        ensures
            scored matches Err(e) ==> r == Err::<RouteOutcome, DaemonError>(
                DaemonError::Routing { cause: TciError::Backend { message: e } },
            ),
            scored matches Ok(scores) ==> {
                &&& r matches Ok(outcome)
                &&& outcome.task_index == usize::MAX
                &&& outcome.task_name@ == "consensus"@
                &&& outcome.similarity == route.similarity
                &&& outcome.prediction == decision_of(scores@).class % 256
                &&& outcome.confidence == decision_of(scores@).confidence_spec()
                &&& outcome.used_consensus_fallback
            },
    {
        match self.engine.consensus_outcome(route, scored) {
            Ok(outcome) => Ok(outcome),
            Err(cause) => Err(DaemonError::Routing { cause }),
        }
    }
}

/// Learning changes nothing of the daemon but what its engine remembers.
pub open spec fn engine_learned<P>(
    before: TciEvolutionDaemon<P>,
    after: TciEvolutionDaemon<P>,
) -> bool {
    &&& before.wf() ==> after.wf()
    &&& after.config == before.config
    &&& after.engine.template == before.engine.template
    &&& after.pools == before.pools
    &&& after.reports == before.reports
    &&& after.running == before.running
    &&& after.total_generations == before.total_generations
}

/// What follows for a judged population: its next generation begins, or its run ends.
pub open spec fn pool_advanced<P>(
    before: TciEvolutionDaemon<P>,
    after: TciEvolutionDaemon<P>,
    pool: TaskSpecialistPool,
    run: EvolutionRun,
    step: EvolutionStep,
) -> bool {
    if run.rounds_left > 0 {
        &&& after.engine == before.engine
        &&& after.pools == before.pools
        &&& generation_begun(pool, run, before.config, step)
        &&& step->run.fits(before.config, before.engine.template.weights@.len())
    } else {
        run_finished(before, after, pool, step)
    }
}

/// The founders of a run have been judged by their predictions, and the run has gone on.
pub open spec fn founders_advanced<P>(
    before: TciEvolutionDaemon<P>,
    after: TciEvolutionDaemon<P>,
    run: EvolutionRun,
    predictions: Seq<Vec<u8>>,
    step: EvolutionStep,
) -> bool {
    &&& after.wf()
    &&& after.config == before.config
    &&& after.engine.template == before.engine.template
    &&& after.reports == before.reports
    &&& after.running == before.running
    &&& after.total_generations == before.total_generations
    &&& exists|pool: TaskSpecialistPool| #[trigger]
        pool_scored(run.pool, pool, predictions, run.labels@, run.n_samples as nat)
            && pool_advanced(before, after, pool, run, step)
}

/// The population of a run has got a child for each of the given weights.
pub open spec fn offspring_added(
    run: EvolutionRun,
    next: EvolutionRun,
    children: Seq<Vec<i8>>,
) -> bool {
    &&& pool_bred(run.pool, next.pool, run.parent as nat, children)
    &&& next.labels == run.labels
    &&& next.n_samples == run.n_samples
    &&& next.rounds_left == run.rounds_left
    &&& next.phase == RunPhase::Generation
    &&& next.retired == run.retired
}

/// A generation has been judged by its predictions, counted and reported on, and the run has gone
/// on.
pub open spec fn generation_advanced<P>(
    before: TciEvolutionDaemon<P>,
    after: TciEvolutionDaemon<P>,
    run: EvolutionRun,
    predictions: Seq<Vec<u8>>,
    elapsed_ms: u64,
    step: EvolutionStep,
) -> bool {
    &&& after.wf()
    &&& after.config == before.config
    &&& after.engine.template == before.engine.template
    &&& after.running == before.running
    &&& after.total_generations == (before.total_generations + 1) % 0x1_0000_0000
    &&& after.reports@.len() == before.reports@.len() + 1
    &&& after.reports@.drop_last() == before.reports@
    &&& exists|pool: TaskSpecialistPool| #[trigger]
        generation_judged(
            run,
            pool,
            after.reports@.last(),
            predictions,
            before.config.mutations_per_gen,
            elapsed_ms,
        ) && pool_advanced(before, after, pool, run, step)
}

/// `status` is about the daemon `d`.
pub open spec fn is_daemon_status<P>(status: DaemonStatus, d: TciEvolutionDaemon<P>) -> bool {
    &&& status.running == d.running
    &&& status.total_tasks == d.pools@.len()
    &&& status.total_specialists == specialists_in(d.pools@)
    &&& status.total_generations == d.total_generations
    &&& status.tasks@.len() == d.pools@.len()
    &&& forall|i: int|
        0 <= i < status.tasks@.len() ==> is_status_of(#[trigger] status.tasks@[i], d.pools@[i].1)
}

/// The reports on a task, in the order in which they were made.
pub open spec fn reports_on(
    reports: Seq<EvolutionGenerationReport>,
    name: Seq<char>,
) -> Seq<EvolutionGenerationReport> {
    reports.filter(|x: EvolutionGenerationReport| x.task_name@ == name)
}

/// Judges the population of a run by its predictions, and reports on its generation.
fn judge_pool(
    run: EvolutionRun,
    predictions: &Vec<Vec<u8>>,
    spawned: usize,
    elapsed_ms: u64,
) -> (r: (EvolutionRun, EvolutionGenerationReport))
    requires
        run.pool.wf(),
        run.pool.generation < u32::MAX,
        predictions@.len() == run.pool.specialists@.len(),
    ensures
        generation_judged(run, r.0.pool, r.1, predictions@, spawned, elapsed_ms),
        r.0.pool.wf(),
        r.0.pool.specialists == run.pool.specialists,
        r.0.pool.generation == run.pool.generation + 1,
        r.0.pool.total_mutations == run.pool.total_mutations,
        r.0.labels == run.labels,
        r.0.n_samples == run.n_samples,
        r.0.rounds_left == run.rounds_left,
{
    let mut run = run;
    let ghost before = run;
    run.pool.evaluate_pool(predictions, run.labels.as_slice(), run.n_samples);
    let ghost scored = run.pool;
    let mut report = run.pool.close_generation(run.retired, spawned);
    report.elapsed_ms = elapsed_ms;
    proof {
        assert(pool_scored(
            before.pool,
            scored,
            predictions@,
            before.labels@,
            before.n_samples as nat,
        ));
        assert(pool_closed(scored, run.pool));
        assert(is_report_of(report, scored, before.retired, spawned, elapsed_ms));
    }
    (run, report)
}

/// The population `after` is `before` with a child of the specialist at position `parent` for each
/// of the given weights.
pub open spec fn pool_bred(
    before: TaskSpecialistPool,
    after: TaskSpecialistPool,
    parent: nat,
    children: Seq<Vec<i8>>,
) -> bool {
    let n = before.specialists@.len();
    &&& after.task_name == before.task_name
    &&& after.generation == before.generation
    &&& after.total_mutations == before.total_mutations + children.len()
    &&& after.specialists@.len() == n + children.len()
    &&& after.fitness_scores@.len() == n + children.len()
    &&& forall|i: int|
        0 <= i < n ==> #[trigger] after.specialists@[i] == before.specialists@[i]
            && after.fitness_scores@[i] == before.fitness_scores@[i]
    &&& forall|i: int|
        0 <= i < children.len() ==> is_child(
            #[trigger] after.specialists@[n + i],
            before.task_name@,
            before.generation,
            parent,
            before.specialists@[parent as int],
            children[i],
        ) && after.fitness_scores@[n + i].bits == 0
}

/// The population `after` is `before`, one generation later.
pub open spec fn pool_closed(before: TaskSpecialistPool, after: TaskSpecialistPool) -> bool {
    &&& after.task_name == before.task_name
    &&& after.specialists == before.specialists
    &&& after.fitness_scores == before.fitness_scores
    &&& after.generation == before.generation + 1
    &&& after.total_mutations == before.total_mutations
}

/// `report` is about the generation that the judged population `pool` has just ended.
pub open spec fn is_report_of(
    report: EvolutionGenerationReport,
    pool: TaskSpecialistPool,
    retired: usize,
    spawned: usize,
    elapsed_ms: u64,
) -> bool {
    &&& report.task_name == pool.task_name
    &&& report.generation == pool.generation + 1
    &&& report.population_size == pool.specialists@.len()
    &&& is_best(pool.fitness_scores@, report.best_fitness)
    &&& report.avg_fitness == score_mean(pool.fitness_scores@)
    &&& is_worst(pool.fitness_scores@, report.worst_fitness)
    &&& report.mutations_spawned == spawned
    &&& report.retired == retired
    &&& report.merged_to_consensus == 0
    &&& report.elapsed_ms == elapsed_ms
}

/// A generation has been judged by its predictions: `pool` is what it is one generation later,
/// and `report` is about it.
pub open spec fn generation_judged(
    run: EvolutionRun,
    pool: TaskSpecialistPool,
    report: EvolutionGenerationReport,
    predictions: Seq<Vec<u8>>,
    spawned: usize,
    elapsed_ms: u64,
) -> bool {
    exists|scored: TaskSpecialistPool| #[trigger]
        pool_scored(run.pool, scored, predictions, run.labels@, run.n_samples as nat)
            && pool_closed(scored, pool) && is_report_of(
            report,
            scored,
            run.retired,
            spawned,
            elapsed_ms,
        )
}

/// `status` is about the population `pool`.
pub open spec fn is_status_of(status: TaskStatus, pool: TaskSpecialistPool) -> bool {
    &&& status.name == pool.task_name
    &&& status.population_size == pool.specialists@.len()
    &&& status.generation == pool.generation
    &&& is_best(pool.fitness_scores@, status.best_fitness)
    &&& status.avg_fitness == score_mean(pool.fitness_scores@)
}

proof fn lemma_specialists_of_part(pools: Seq<PoolEntry>, n: int)
    requires
        0 <= n <= pools.len(),
    ensures
        specialists_in(pools.take(n)) <= specialists_in(pools),
    decreases pools.len(),
{
    if n < pools.len() {
        let rest = pools.drop_last();
        lemma_specialists_of_part(rest, n);
        assert(rest.take(n) =~= pools.take(n));
    } else {
        assert(pools.take(n) =~= pools);
    }
}

/// The run of a population has ended: the fittest are merged into the memory of its task, and the
/// population is stored.
pub open spec fn run_finished<P>(
    before: TciEvolutionDaemon<P>,
    after: TciEvolutionDaemon<P>,
    pool: TaskSpecialistPool,
    step: EvolutionStep,
) -> bool {
    &&& step matches EvolutionStep::Finished { pool_index }
    &&& pool_stored(before.pools@, after.pools@, pool, pool_index as int)
    &&& pool.specialists@.len() == 0 ==> after.engine == before.engine
    &&& (forall|t: int|
        0 <= t < before.engine.tasks@.len() ==> (#[trigger] before.engine.tasks@[t]).name@
            != pool.task_name@) ==> after.engine == before.engine
    &&& pool.specialists@.len() > 0 ==> forall|t: int| #[trigger]
        is_first_named(before.engine.tasks@, pool.task_name@, t) ==> merged_into(
            before.engine,
            after.engine,
            pool,
            t,
            before.config.merge_top_k as nat,
        )
}

/// Retirement takes the least fit: a specialist is among the survivors, or no survivor is less
/// fit.
pub proof fn law_survivors_are_the_fittest(
    before: TaskSpecialistPool,
    after: TaskSpecialistPool,
    fraction: Scalar,
    i: int,
)
    requires
        before.wf(),
        pool_retired(before, after, fraction),
        retire_count(before.specialists@.len(), fraction) <= before.specialists@.len(),
        0 <= i < before.specialists@.len() <= usize::MAX,
    ensures
        (exists|p: int|
            0 <= p < after.specialists@.len() && #[trigger] after.specialists@[p]
                == before.specialists@[i]) || (forall|p: int|
            0 <= p < after.fitness_scores@.len() ==> !(
            #[trigger] after.fitness_scores@[p]).lt_spec(before.fitness_scores@[i])),
{
    crate::evolution::law_someone_retires(before.specialists@.len(), fraction);
    let keep = keep_count(before.specialists@.len(), fraction);
    let order = choose|order: Seq<usize>|
        is_ranking(before.fitness_scores@, order) && after.specialists@ == #[trigger] selected(
            before.specialists@,
            order,
            keep,
        ) && after.fitness_scores@ == selected(before.fitness_scores@, order, keep);
    crate::ranking::law_ranking_is_complete(before.fitness_scores@, order, i as usize);
    let q = choose|q: int| 0 <= q < order.len() && order[q] == i as usize;
    if q < keep {
        assert(after.specialists@[q] == before.specialists@[i]);
    } else {
        assert forall|p: int| 0 <= p < after.fitness_scores@.len() implies !(
        #[trigger] after.fitness_scores@[p]).lt_spec(before.fitness_scores@[i]) by {
            assert(crate::ranking::ranked_before(
                before.fitness_scores@,
                order[p] as int,
                order[q] as int,
            ));
        }
    }
}

/// A generation keeps those that are not retired and adds its mutations; no survivor is changed.
pub proof fn law_generation_size(
    pool: TaskSpecialistPool,
    run: EvolutionRun,
    config: TciEvolutionConfig,
    step: EvolutionStep,
    after: TaskSpecialistPool,
    children: Seq<Vec<i8>>,
)
    requires
        generation_begun(pool, run, config, step),
        children.len() == config.mutations_per_gen,
        pool_bred(step->run.pool, after, step->run.parent as nat, children),
    ensures
        after.specialists@.len() == keep_count(pool.specialists@.len(), config.retire_fraction)
            + config.mutations_per_gen,
        after.fitness_scores@.len() == after.specialists@.len(),
        after.total_mutations == pool.total_mutations + config.mutations_per_gen,
        after.task_name == pool.task_name,
{
    let next = step->run.pool;
    let keep = keep_count(pool.specialists@.len(), config.retire_fraction);
    let order = choose|order: Seq<usize>|
        is_ranking(pool.fitness_scores@, order) && next.specialists@ == #[trigger] selected(
            pool.specialists@,
            order,
            keep,
        ) && next.fitness_scores@ == selected(pool.fitness_scores@, order, keep);
    assert(next.specialists@.len() == keep);
}

/// When a run ends, its population is found under the name of its task, and every other
/// population is still there.
pub proof fn law_stored_pool_is_found(
    before: Seq<PoolEntry>,
    after: Seq<PoolEntry>,
    pool: TaskSpecialistPool,
    at: int,
    i: int,
)
    requires
        pool_stored(before, after, pool, at),
        0 <= i < before.len(),
    ensures
        0 <= at < after.len(),
        after[at].0@ == pool.task_name@,
        after[at].1 == pool,
        before[i].0@ != pool.task_name@ ==> after[i] == before[i],
        before.len() <= after.len() <= before.len() + 1,
{
}

/// The fittest survives: some survivor is at least as fit as every specialist was.
pub proof fn law_the_fittest_survives(
    before: TaskSpecialistPool,
    after: TaskSpecialistPool,
    fraction: Scalar,
)
    requires
        before.wf(),
        pool_retired(before, after, fraction),
        retire_count(before.specialists@.len(), fraction) <= before.specialists@.len(),
        0 < before.specialists@.len() <= usize::MAX,
    ensures
        after.specialists@.len() > 0,
        forall|i: int|
            0 <= i < before.fitness_scores@.len() ==> !after.fitness_scores@[0].lt_spec(
                #[trigger] before.fitness_scores@[i],
            ),
{
    crate::evolution::law_someone_retires(before.specialists@.len(), fraction);
    let keep = keep_count(before.specialists@.len(), fraction);
    let order = choose|order: Seq<usize>|
        is_ranking(before.fitness_scores@, order) && after.specialists@ == #[trigger] selected(
            before.specialists@,
            order,
            keep,
        ) && after.fitness_scores@ == selected(before.fitness_scores@, order, keep);
    assert(after.specialists@.len() == keep);
    assert forall|i: int|
        0 <= i < before.fitness_scores@.len() implies !after.fitness_scores@[0].lt_spec(
        #[trigger] before.fitness_scores@[i],
    ) by {
        crate::ranking::law_ranking_is_complete(before.fitness_scores@, order, i as usize);
        let q = choose|q: int| 0 <= q < order.len() && order[q] == i as usize;
        if q > 0 {
            assert(crate::ranking::ranked_before(
                before.fitness_scores@,
                order[0] as int,
                order[q] as int,
            ));
        }
    }
}

/// A new report is found under the name of its task, behind the earlier ones; what is reported on
/// other tasks stays as it is.
pub proof fn law_report_reaches_its_task(
    reports: Seq<EvolutionGenerationReport>,
    report: EvolutionGenerationReport,
    task_name: Seq<char>,
)
    ensures
        reports_on(reports.push(report), task_name) == if report.task_name@ == task_name {
            reports_on(reports, task_name).push(report)
        } else {
            reports_on(reports, task_name)
        },
{
    reveal(Seq::filter);
    assert(reports.push(report).drop_last() =~= reports);
}

} // verus!
