//! Evolution can be repeated: populations that are alike, with the same configuration and so the
//! same seed, go through generations that are alike.

use crate::daemon::{
    EvolutionRun, EvolutionStep, generation_begun, generation_judged, is_report_of, offspring_added,
    pool_bred, pool_closed, pool_retired, pool_scored,
};
use crate::daemon_state::{pool_view, specialist_view};
use crate::evolution::{
    EvolutionGenerationReport, MutationOrder, TaskSpecialistPool, TciEvolutionConfig, is_best,
    is_worst, keep_count, law_someone_retires, retire_count, selected,
};
use crate::pool::is_child;
use crate::ranking::{
    first_lowest, is_ranking, last_highest, law_first_lowest_is_unique,
    law_last_highest_is_unique, law_ranking_is_unique,
};
use crate::scalar::Scalar;
use vstd::prelude::*;

verus! {

/// Two populations hold the same.
pub open spec fn pools_alike(a: TaskSpecialistPool, b: TaskSpecialistPool) -> bool {
    pool_view(a) == pool_view(b)
}

/// Two orders ask for the same mutations.
pub open spec fn orders_alike(a: MutationOrder, b: MutationOrder) -> bool {
    &&& a.parent == b.parent
    &&& a.weights@ == b.weights@
    &&& a.flip_rate == b.flip_rate
    &&& a.seed == b.seed
    &&& a.children == b.children
}

/// Two lists hold the same weights.
pub open spec fn weights_alike(a: Seq<Vec<i8>>, b: Seq<Vec<i8>>) -> bool {
    a.len() == b.len() && forall|i: int| 0 <= i < a.len() ==> (#[trigger] a[i])@ == b[i]@
}

/// Two lists hold the same predictions.
pub open spec fn predictions_alike(a: Seq<Vec<u8>>, b: Seq<Vec<u8>>) -> bool {
    a.len() == b.len() && forall|i: int| 0 <= i < a.len() ==> (#[trigger] a[i])@ == b[i]@
}

/// Two reports say the same, but for the time that was taken.
pub open spec fn reports_alike(
    a: EvolutionGenerationReport,
    b: EvolutionGenerationReport,
) -> bool {
    &&& a.task_name@ == b.task_name@
    &&& a.generation == b.generation
    &&& a.population_size == b.population_size
    &&& a.best_fitness == b.best_fitness
    &&& a.avg_fitness == b.avg_fitness
    &&& a.worst_fitness == b.worst_fitness
    &&& a.mutations_spawned == b.mutations_spawned
    &&& a.retired == b.retired
    &&& a.merged_to_consensus == b.merged_to_consensus
}

proof fn lemma_alike(a: TaskSpecialistPool, b: TaskSpecialistPool)
    requires
        pools_alike(a, b),
    ensures
        a.task_name@ == b.task_name@,
        a.specialists@.len() == b.specialists@.len(),
        forall|i: int|
            0 <= i < a.specialists@.len() ==> specialist_view(#[trigger] a.specialists@[i])
                == specialist_view(b.specialists@[i]),
        a.fitness_scores@ == b.fitness_scores@,
        a.generation == b.generation,
        a.total_mutations == b.total_mutations,
{
    let (x, y) = (pool_view(a), pool_view(b));
    assert(x.1.len() == y.1.len() && x.2.len() == y.2.len());
    assert forall|i: int| 0 <= i < a.specialists@.len() implies specialist_view(
        #[trigger] a.specialists@[i],
    ) == specialist_view(b.specialists@[i]) by {
        assert(x.1[i] == y.1[i]);
    }
    assert forall|i: int| 0 <= i < a.fitness_scores@.len() implies #[trigger] a.fitness_scores@[i]
        == b.fitness_scores@[i] by {
        assert(x.2[i] == y.2[i]);
    }
    assert(a.fitness_scores@ =~= b.fitness_scores@);
}

proof fn lemma_become_alike(a: TaskSpecialistPool, b: TaskSpecialistPool)
    requires
        a.task_name@ == b.task_name@,
        a.specialists@.len() == b.specialists@.len(),
        forall|i: int|
            0 <= i < a.specialists@.len() ==> specialist_view(#[trigger] a.specialists@[i])
                == specialist_view(b.specialists@[i]),
        a.fitness_scores@ == b.fitness_scores@,
        a.generation == b.generation,
        a.total_mutations == b.total_mutations,
    ensures
        pools_alike(a, b),
{
    assert(pool_view(a).1 =~= pool_view(b).1);
    assert(pool_view(a).2 =~= pool_view(b).2);
}

proof fn lemma_retired_alike(
    a: TaskSpecialistPool,
    b: TaskSpecialistPool,
    after_a: TaskSpecialistPool,
    after_b: TaskSpecialistPool,
    fraction: Scalar,
)
    requires
        pools_alike(a, b),
        a.wf(),
        retire_count(a.specialists@.len(), fraction) <= a.specialists@.len(),
        pool_retired(a, after_a, fraction),
        pool_retired(b, after_b, fraction),
    ensures
        pools_alike(after_a, after_b),
        after_a.specialists@.len() > 0,
{
    lemma_alike(a, b);
    law_someone_retires(a.specialists@.len(), fraction);
    let keep = keep_count(a.specialists@.len(), fraction);
    let x = choose|order: Seq<usize>|
        is_ranking(a.fitness_scores@, order) && after_a.specialists@ == #[trigger] selected(
            a.specialists@,
            order,
            keep,
        ) && after_a.fitness_scores@ == selected(a.fitness_scores@, order, keep);
    let y = choose|order: Seq<usize>|
        is_ranking(b.fitness_scores@, order) && after_b.specialists@ == #[trigger] selected(
            b.specialists@,
            order,
            keep,
        ) && after_b.fitness_scores@ == selected(b.fitness_scores@, order, keep);
    law_ranking_is_unique(a.fitness_scores@, x, y);
    assert(keep <= a.specialists@.len());
    assert forall|i: int| 0 <= i < after_a.specialists@.len() implies specialist_view(
        #[trigger] after_a.specialists@[i],
    ) == specialist_view(after_b.specialists@[i]) by {
        assert(x[i] < a.specialists@.len());
        assert(after_a.specialists@[i] == a.specialists@[x[i] as int]);
        assert(after_b.specialists@[i] == b.specialists@[x[i] as int]);
    }
    lemma_become_alike(after_a, after_b);
}

proof fn lemma_bred_alike(
    a: TaskSpecialistPool,
    b: TaskSpecialistPool,
    after_a: TaskSpecialistPool,
    after_b: TaskSpecialistPool,
    parent: nat,
    children_a: Seq<Vec<i8>>,
    children_b: Seq<Vec<i8>>,
)
    requires
        pools_alike(a, b),
        a.wf(),
        parent < a.specialists@.len(),
        weights_alike(children_a, children_b),
        pool_bred(a, after_a, parent, children_a),
        pool_bred(b, after_b, parent, children_b),
    ensures
        pools_alike(after_a, after_b),
{
    lemma_alike(a, b);
    let n = a.specialists@.len();
    assert forall|i: int| 0 <= i < after_a.specialists@.len() implies specialist_view(
        #[trigger] after_a.specialists@[i],
    ) == specialist_view(after_b.specialists@[i]) && after_a.fitness_scores@[i]
        == after_b.fitness_scores@[i] by {
        if i < n {
            assert(after_a.specialists@[i] == a.specialists@[i]);
            assert(after_b.specialists@[i] == b.specialists@[i]);
        } else {
            let (s, t) = (after_a.specialists@[n + (i - n)], after_b.specialists@[n + (i - n)]);
            let (p, q) = (a.specialists@[parent as int], b.specialists@[parent as int]);
            assert(is_child(s, a.task_name@, a.generation, parent, p, children_a[i - n]));
            assert(is_child(t, b.task_name@, b.generation, parent, q, children_b[i - n]));
            assert(specialist_view(p) == specialist_view(q));
            assert(children_a[i - n]@ == children_b[i - n]@);
        }
    }
    assert forall|i: int| 0 <= i < after_a.fitness_scores@.len() implies #[trigger]
        after_a.fitness_scores@[i] == after_b.fitness_scores@[i] by {
        assert(specialist_view(after_a.specialists@[i]) == specialist_view(
            after_b.specialists@[i],
        ));
    }
    assert(after_a.fitness_scores@ =~= after_b.fitness_scores@);
    lemma_become_alike(after_a, after_b);
}

proof fn lemma_scored_alike(
    a: TaskSpecialistPool,
    b: TaskSpecialistPool,
    after_a: TaskSpecialistPool,
    after_b: TaskSpecialistPool,
    predictions_a: Seq<Vec<u8>>,
    predictions_b: Seq<Vec<u8>>,
    labels: Seq<u8>,
    n_samples: nat,
)
    requires
        pools_alike(a, b),
        predictions_a.len() == a.specialists@.len(),
        predictions_alike(predictions_a, predictions_b),
        pool_scored(a, after_a, predictions_a, labels, n_samples),
        pool_scored(b, after_b, predictions_b, labels, n_samples),
    ensures
        pools_alike(after_a, after_b),
{
    lemma_alike(a, b);
    assert forall|i: int| 0 <= i < after_a.fitness_scores@.len() implies #[trigger]
        after_a.fitness_scores@[i] == after_b.fitness_scores@[i] by {
        assert(predictions_a[i]@ == predictions_b[i]@);
    }
    assert(after_a.fitness_scores@ =~= after_b.fitness_scores@);
    lemma_become_alike(after_a, after_b);
}

proof fn lemma_same_extremes(
    scores: Seq<Scalar>,
    best: Scalar,
    other_best: Scalar,
    worst: Scalar,
    other_worst: Scalar,
)
    requires
        is_best(scores, best),
        is_best(scores, other_best),
        is_worst(scores, worst),
        is_worst(scores, other_worst),
    ensures
        best == other_best,
        worst == other_worst,
{
    if scores.len() > 0 {
        let i = choose|k: int| last_highest(scores, k) && best == #[trigger] scores[k];
        let j = choose|k: int| last_highest(scores, k) && other_best == #[trigger] scores[k];
        law_last_highest_is_unique(scores, i, j);
        let k = choose|k: int| first_lowest(scores, k) && worst == #[trigger] scores[k];
        let l = choose|k: int| first_lowest(scores, k) && other_worst == #[trigger] scores[k];
        law_first_lowest_is_unique(scores, k, l);
    }
}

proof fn lemma_judged_alike(
    run_a: EvolutionRun,
    run_b: EvolutionRun,
    after_a: TaskSpecialistPool,
    after_b: TaskSpecialistPool,
    report_a: EvolutionGenerationReport,
    report_b: EvolutionGenerationReport,
    predictions_a: Seq<Vec<u8>>,
    predictions_b: Seq<Vec<u8>>,
    spawned: usize,
    elapsed_a: u64,
    elapsed_b: u64,
)
    requires
        pools_alike(run_a.pool, run_b.pool),
        run_a.labels@ == run_b.labels@,
        run_a.n_samples == run_b.n_samples,
        run_a.retired == run_b.retired,
        predictions_a.len() == run_a.pool.specialists@.len(),
        predictions_alike(predictions_a, predictions_b),
        generation_judged(run_a, after_a, report_a, predictions_a, spawned, elapsed_a),
        generation_judged(run_b, after_b, report_b, predictions_b, spawned, elapsed_b),
    ensures
        pools_alike(after_a, after_b),
        reports_alike(report_a, report_b),
{
    let (labels, n) = (run_a.labels@, run_a.n_samples as nat);
    let s = choose|scored: TaskSpecialistPool| #[trigger]
        pool_scored(run_a.pool, scored, predictions_a, labels, n) && pool_closed(scored, after_a)
            && is_report_of(report_a, scored, run_a.retired, spawned, elapsed_a);
    let t = choose|scored: TaskSpecialistPool| #[trigger]
        pool_scored(run_b.pool, scored, predictions_b, labels, n) && pool_closed(scored, after_b)
            && is_report_of(report_b, scored, run_b.retired, spawned, elapsed_b);
    lemma_scored_alike(
        run_a.pool,
        run_b.pool,
        s,
        t,
        predictions_a,
        predictions_b,
        labels,
        n,
    );
    lemma_alike(s, t);
    lemma_same_extremes(
        s.fitness_scores@,
        report_a.best_fitness,
        report_b.best_fitness,
        report_a.worst_fitness,
        report_b.worst_fitness,
    );
    assert forall|i: int| 0 <= i < after_a.specialists@.len() implies specialist_view(
        #[trigger] after_a.specialists@[i],
    ) == specialist_view(after_b.specialists@[i]) by {
        assert(specialist_view(s.specialists@[i]) == specialist_view(t.specialists@[i]));
    }
    lemma_become_alike(after_a, after_b);
}

/// With the same configuration, and so the same seed, populations that are alike begin their next
/// generation alike: the same specialists stay, and the same mutations are ordered.
pub proof fn law_same_seed_same_order(
    a: TaskSpecialistPool,
    b: TaskSpecialistPool,
    run_a: EvolutionRun,
    run_b: EvolutionRun,
    config: TciEvolutionConfig,
    step_a: EvolutionStep,
    step_b: EvolutionStep,
)
    requires
        pools_alike(a, b),
        a.wf(),
        retire_count(a.specialists@.len(), config.retire_fraction) <= a.specialists@.len(),
        generation_begun(a, run_a, config, step_a),
        generation_begun(b, run_b, config, step_b),
    ensures
        pools_alike(step_a->run.pool, step_b->run.pool),
        step_a->run.retired == step_b->run.retired,
        step_a->run.parent == step_b->run.parent,
        orders_alike(step_a->order, step_b->order),
{
    lemma_alike(a, b);
    let (x, y) = (step_a->run.pool, step_b->run.pool);
    lemma_retired_alike(a, b, x, y, config.retire_fraction);
    lemma_alike(x, y);
    let parent = step_a->order.parent as int;
    assert(0 <= parent < x.specialists@.len()) by {
        let (p, n) = ((config.seed as usize) as int, x.specialists@.len() as int);
        assert(0 <= p % n < n) by (nonlinear_arith)
            requires
                n > 0,
        ;
    }
    assert(specialist_view(x.specialists@[parent]) == specialist_view(y.specialists@[parent]));
}

/// With the same configuration, and so the same seed, populations that are alike go through their
/// next generation alike: where the mutations that were ordered, and the predictions, come out the
/// same, the populations that come of it are alike, and so are the reports on them but for the
/// time that was taken.
pub proof fn law_same_seed_same_generation(
    a: TaskSpecialistPool,
    b: TaskSpecialistPool,
    run_a: EvolutionRun,
    run_b: EvolutionRun,
    config: TciEvolutionConfig,
    step_a: EvolutionStep,
    step_b: EvolutionStep,
    bred_a: EvolutionRun,
    bred_b: EvolutionRun,
    children_a: Seq<Vec<i8>>,
    children_b: Seq<Vec<i8>>,
    predictions_a: Seq<Vec<u8>>,
    predictions_b: Seq<Vec<u8>>,
    elapsed_a: u64,
    elapsed_b: u64,
    after_a: TaskSpecialistPool,
    after_b: TaskSpecialistPool,
    report_a: EvolutionGenerationReport,
    report_b: EvolutionGenerationReport,
)
    requires
        pools_alike(a, b),
        a.wf(),
        retire_count(a.specialists@.len(), config.retire_fraction) <= a.specialists@.len(),
        run_a.labels@ == run_b.labels@,
        run_a.n_samples == run_b.n_samples,
        generation_begun(a, run_a, config, step_a),
        generation_begun(b, run_b, config, step_b),
        weights_alike(children_a, children_b),
        offspring_added(step_a->run, bred_a, children_a),
        offspring_added(step_b->run, bred_b, children_b),
        predictions_a.len() == bred_a.pool.specialists@.len(),
        predictions_alike(predictions_a, predictions_b),
        generation_judged(
            bred_a,
            after_a,
            report_a,
            predictions_a,
            config.mutations_per_gen,
            elapsed_a,
        ),
        generation_judged(
            bred_b,
            after_b,
            report_b,
            predictions_b,
            config.mutations_per_gen,
            elapsed_b,
        ),
    ensures
        orders_alike(step_a->order, step_b->order),
        pools_alike(after_a, after_b),
        reports_alike(report_a, report_b),
{
    law_same_seed_same_order(a, b, run_a, run_b, config, step_a, step_b);
    let (x, y) = (step_a->run, step_b->run);
    lemma_alike(a, b);
    lemma_retired_alike(a, b, x.pool, y.pool, config.retire_fraction);
    assert(x.parent < x.pool.specialists@.len()) by {
        let (p, n) = ((config.seed as usize) as int, x.pool.specialists@.len() as int);
        assert(0 <= p % n < n) by (nonlinear_arith)
            requires
                n > 0,
        ;
    }
    assert(pool_retired(a, x.pool, config.retire_fraction));
    assert(x.pool.wf());
    lemma_bred_alike(
        x.pool,
        y.pool,
        bred_a.pool,
        bred_b.pool,
        x.parent as nat,
        children_a,
        children_b,
    );
    lemma_judged_alike(
        bred_a,
        bred_b,
        after_a,
        after_b,
        report_a,
        report_b,
        predictions_a,
        predictions_b,
        config.mutations_per_gen,
        elapsed_a,
        elapsed_b,
    );
}

} // verus!
