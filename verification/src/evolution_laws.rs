//! What evolution is for: nobody is lost or doubled in a generation, fitness counts agreements,
//! and children, founders and reports are what they are said to be.

use crate::arith_laws::{law_whole_part, lemma_nearest_form};
use crate::counts::lemma_one_value;
use crate::daemon::{
    DaemonStatus, EvolutionRun, EvolutionStep, TciEvolutionDaemon, engine_learned,
    founders_advanced, generation_advanced, generation_begun, generation_judged, is_daemon_status,
    is_report_of, is_status_of, offspring_added, pool_advanced, pool_bred, pool_closed,
    pool_retired, pool_scored, pool_stored, run_finished,
};
use crate::evolution::{
    EvolutionGenerationReport, SpecialistBrain, TaskSpecialistPool, TciEvolutionConfig, child_id,
    default_config, fitness_of, founder_id, hits, is_best, is_worst, keep_count, retire_count,
    score_mean, score_sum, selected,
};
use crate::pool::{is_child, is_founder};
use crate::ranking::{all_numbers, first_lowest, is_ranking, last_highest, numbers_between};
use crate::rounding::nearest;
use crate::scalar::{ONE_BITS, Scalar, law_order_is_numeric, one_units};
use crate::tci::{TernaryBrain, is_first_named, merged_into};
use crate::text_laws::{
    law_padding_keeps_the_digits, law_written_numbers_are_read_back, lemma_same_text,
};
use vstd::prelude::*;
use vstd::set_lib::set_int_range;

verus! {

/// The number of retired specialists is the whole part of their share of the population, and at
/// least one.
pub proof fn law_retired_is_the_whole_share(len: nat, fraction: Scalar)
    ensures
        ({
            let share = Scalar::from_count_spec(len).times_spec(fraction);
            let r = retire_count(len, fraction);
            &&& share.nan() || share.units() < one_units() ==> r == 1
            &&& !share.nan() && share.units() >= one_units() ==> r * one_units() <= share.units()
            &&& !share.nan() && share.units() >= one_units() && r < usize::MAX ==> share.units()
                < (r + 1) * one_units()
        }),
{
    let share = Scalar::from_count_spec(len).times_spec(fraction);
    let one = Scalar { bits: ONE_BITS };
    let top = share.max_spec(one);
    lemma_one_value();
    law_whole_part(top);
    let (r, o) = (retire_count(len, fraction) as int, one_units());
    if !share.nan() {
        law_order_is_numeric(share, one);
        law_order_is_numeric(one, share);
    }
    if share.nan() || share.units() < o {
        assert(top == one);
        assert(r * o <= o && (r < usize::MAX ==> o < (r + 1) * o));
        assert(r == 1) by (nonlinear_arith)
            requires
                r * o <= o,
                r < usize::MAX ==> o < (r + 1) * o,
                o > 0,
                usize::MAX >= 2,
        ;
    } else {
        assert(top.units() == share.units());
    }
}

/// Survivors and retired add up to the population: where fewer are retired than there are, exactly
/// the others remain; else one remains.
pub proof fn law_survivors_and_retired_add_up(
    before: TaskSpecialistPool,
    after: TaskSpecialistPool,
    fraction: Scalar,
    retired: nat,
)
    requires
        pool_retired(before, after, fraction),
        retired == retire_count(before.specialists@.len(), fraction),
    ensures
        retired < before.specialists@.len() ==> after.specialists@.len() + retired
            == before.specialists@.len(),
        retired >= before.specialists@.len() ==> after.specialists@.len() == 1,
        after.fitness_scores@.len() == after.specialists@.len(),
{
}

/// When a generation begins, its survivors and those that it retires add up to the population, and
/// with the children the next generation has so many more.
pub proof fn law_generation_adds_up(
    pool: TaskSpecialistPool,
    run: EvolutionRun,
    config: TciEvolutionConfig,
    step: EvolutionStep,
    bred: TaskSpecialistPool,
    children: Seq<Vec<i8>>,
)
    requires
        generation_begun(pool, run, config, step),
        pool_bred(step->run.pool, bred, step->run.parent as nat, children),
    ensures
        step->run.retired < pool.specialists@.len() ==> {
            &&& step->run.pool.specialists@.len() + step->run.retired == pool.specialists@.len()
            &&& bred.specialists@.len() + step->run.retired == pool.specialists@.len()
                + children.len()
        },
        step->run.retired >= pool.specialists@.len() ==> bred.specialists@.len() == 1
            + children.len(),
        bred.fitness_scores@.len() == bred.specialists@.len(),
        bred.total_mutations == pool.total_mutations + children.len(),
{
}

/// Nobody is changed, doubled or made up by retirement: each survivor was at a position of its own
/// in the population and keeps its fitness, and the fitter survivors come first.
pub proof fn law_survivors_are_some_of_the_population(
    before: TaskSpecialistPool,
    after: TaskSpecialistPool,
    fraction: Scalar,
) -> (positions: Seq<int>)
    requires
        before.wf(),
        before.specialists@.len() > 0,
        pool_retired(before, after, fraction),
    ensures
        positions.len() == after.specialists@.len(),
        positions.no_duplicates(),
        forall|p: int|
            0 <= p < positions.len() ==> {
                &&& 0 <= #[trigger] positions[p] < before.specialists@.len()
                &&& after.specialists@[p] == before.specialists@[positions[p]]
                &&& after.fitness_scores@[p] == before.fitness_scores@[positions[p]]
            },
        forall|p: int, q: int|
            0 <= p < q < after.fitness_scores@.len() ==> !(
            #[trigger] after.fitness_scores@[p]).lt_spec(#[trigger] after.fitness_scores@[q]),
        after.task_name == before.task_name,
        after.generation == before.generation,
        after.total_mutations == before.total_mutations,
{
    let n = before.specialists@.len();
    let keep = keep_count(n, fraction);
    crate::evolution::law_someone_retires(n, fraction);
    let order = choose|order: Seq<usize>|
        is_ranking(before.fitness_scores@, order) && after.specialists@ == #[trigger] selected(
            before.specialists@,
            order,
            keep,
        ) && after.fitness_scores@ == selected(before.fitness_scores@, order, keep);
    assert(keep <= n);
    let positions = Seq::new(keep, |p: int| order[p] as int);
    assert forall|p: int, q: int| 0 <= p < q < after.fitness_scores@.len() implies !(
    #[trigger] after.fitness_scores@[p]).lt_spec(#[trigger] after.fitness_scores@[q]) by {
        assert(crate::ranking::ranked_before(
            before.fitness_scores@,
            order[p] as int,
            order[q] as int,
        ));
    }
    assert forall|p: int, q: int|
        0 <= p < positions.len() && 0 <= q < positions.len() && p != q implies positions[p]
        != positions[q] by {
        assert(order[p] != order[q]);
    }
    positions
}

/// A generation begins with one parent among the survivors, which the seed picks, and asks for the
/// children of the configuration: with its weights, its rate, and a seed that the number of the
/// generation turns into that of the configuration.
pub proof fn law_parent_is_picked_by_the_seed(
    pool: TaskSpecialistPool,
    run: EvolutionRun,
    config: TciEvolutionConfig,
    step: EvolutionStep,
)
    requires
        generation_begun(pool, run, config, step),
        step->run.pool.specialists@.len() > 0,
    ensures
        step->order.parent < step->run.pool.specialists@.len(),
        exists|q: int|
            (config.seed as usize) as int == #[trigger] (q
                * step->run.pool.specialists@.len()) + step->order.parent,
        step->run.parent == step->order.parent,
        step->order.weights@
            == step->run.pool.specialists@[step->order.parent as int].brain.weights@,
        step->order.flip_rate == config.mutation_rate,
        step->order.seed ^ (pool.generation as u64) == config.seed,
        step->order.children == config.mutations_per_gen,
        step->run.rounds_left == run.rounds_left - 1,
        step->run.labels == run.labels,
        step->run.n_samples == run.n_samples,
{
    let (s, n) = ((config.seed as usize) as int, step->run.pool.specialists@.len() as int);
    vstd::arithmetic::div_mod::lemma_fundamental_div_mod(s, n);
    assert(0 <= s % n < n) by (nonlinear_arith)
        requires
            n > 0,
    ;
    let q = s / n;
    assert(n * q == q * n) by (nonlinear_arith);
    assert(s == (q * n) + step->order.parent);
    let (a, b) = (config.seed, pool.generation as u64);
    assert((a ^ b) ^ b == a) by (bit_vector);
}

/// The positions below `n` at which a prediction agrees with its label.
pub open spec fn agreements(predictions: Seq<u8>, labels: Seq<u8>, n: int) -> Set<int> {
    set_int_range(0, n).filter(
        |j: int| j < predictions.len() && j < labels.len() && predictions[j] == labels[j],
    )
}

proof fn lemma_hits_are_agreements(predictions: Seq<u8>, labels: Seq<u8>, n: nat)
    ensures
        agreements(predictions, labels, n as int).finite(),
        hits(predictions, labels, n) == agreements(predictions, labels, n as int).len(),
    decreases n,
{
    let b = agreements(predictions, labels, n as int);
    vstd::set_lib::lemma_int_range(0, n as int);
    if n == 0 {
        assert(b =~= Set::empty());
    } else {
        let k = n - 1;
        lemma_hits_are_agreements(predictions, labels, k as nat);
        let a = agreements(predictions, labels, k);
        if k < predictions.len() && k < labels.len() && predictions[k] == labels[k] {
            assert(b =~= a.insert(k));
            assert(!a.contains(k));
        } else {
            assert(b =~= a);
        }
    }
}

/// Fitness is the share of agreements: the number of positions at which a prediction is the label,
/// by the number of samples or of predictions, whichever is less.
pub proof fn law_fitness_is_the_share_of_agreements(
    predictions: Seq<u8>,
    labels: Seq<u8>,
    n_samples: nat,
)
    ensures
        agreements(predictions, labels, predictions.len() as int).finite(),
        hits(predictions, labels, predictions.len()) == agreements(
            predictions,
            labels,
            predictions.len() as int,
        ).len(),
        n_samples < predictions.len() ==> fitness_of(predictions, labels, n_samples)
            == Scalar::ratio_spec(
            agreements(predictions, labels, predictions.len() as int).len(),
            n_samples,
        ),
        n_samples >= predictions.len() ==> fitness_of(predictions, labels, n_samples)
            == Scalar::ratio_spec(
            agreements(predictions, labels, predictions.len() as int).len(),
            predictions.len(),
        ),
{
    lemma_hits_are_agreements(predictions, labels, predictions.len());
}

/// The judgement of a population gives every specialist the share of agreements of its own
/// predictions, and changes nothing else.
pub proof fn law_judgement_is_by_own_predictions(
    before: TaskSpecialistPool,
    after: TaskSpecialistPool,
    predictions: Seq<Vec<u8>>,
    labels: Seq<u8>,
    n_samples: nat,
    i: int,
)
    requires
        pool_scored(before, after, predictions, labels, n_samples),
        0 <= i < before.specialists@.len(),
    ensures
        after.specialists == before.specialists,
        after.task_name == before.task_name,
        after.generation == before.generation,
        after.total_mutations == before.total_mutations,
        after.fitness_scores@.len() == before.specialists@.len(),
        after.fitness_scores@[i] == Scalar::ratio_spec(
            agreements(predictions[i]@, labels, predictions[i]@.len() as int).len(),
            if n_samples < predictions[i]@.len() {
                n_samples
            } else {
                predictions[i]@.len()
            },
        ),
{
    law_fitness_is_the_share_of_agreements(predictions[i]@, labels, n_samples);
}

proof fn lemma_score_partial(scores: Seq<Scalar>) -> (p: Seq<Scalar>)
    ensures
        p.len() == scores.len() + 1,
        p[0].bits == 0,
        forall|k: int| 0 <= k < scores.len() ==> #[trigger] p[k + 1] == p[k].plus_spec(scores[k]),
        score_sum(scores) == p[scores.len() as int],
    decreases scores.len(),
{
    if scores.len() == 0 {
        seq![Scalar { bits: 0 }]
    } else {
        let rest = scores.drop_last();
        let q = lemma_score_partial(rest);
        let p = q.push(score_sum(scores));
        assert forall|k: int| 0 <= k < scores.len() implies #[trigger] p[k + 1]
            == p[k].plus_spec(scores[k]) by {
            assert(p[k] == q[k]);
            if k < rest.len() {
                assert(p[k + 1] == q[k + 1]);
                assert(rest[k] == scores[k]);
            }
        }
        p
    }
}

/// The mean adds every score once, starting from zero, and divides by how many there are; without
/// scores it divides by one.
pub proof fn law_mean_takes_in_every_score(scores: Seq<Scalar>) -> (p: Seq<Scalar>)
    ensures
        p.len() == scores.len() + 1,
        p[0].bits == 0,
        forall|k: int| 0 <= k < scores.len() ==> #[trigger] p[k + 1] == p[k].plus_spec(scores[k]),
        scores.len() > 0 ==> score_mean(scores) == p[scores.len() as int].over_spec(
            Scalar::from_count_spec(scores.len()),
        ),
        scores.len() == 0 ==> score_mean(scores) == p[0].over_spec(Scalar::from_count_spec(1)),
{
    lemma_score_partial(scores)
}

/// The best fitness of numbers is one of them, and none is above it; the worst is one of them, and
/// none is below it. Without any both are zero.
pub proof fn law_best_and_worst(scores: Seq<Scalar>, best: Scalar, worst: Scalar)
    requires
        is_best(scores, best),
        is_worst(scores, worst),
        all_numbers(scores),
    ensures
        scores.len() == 0 ==> best.bits == 0 && worst.bits == 0,
        scores.len() > 0 ==> scores.contains(best) && scores.contains(worst),
        forall|j: int|
            0 <= j < scores.len() ==> (#[trigger] scores[j]).le_spec(best) && worst.le_spec(
                scores[j],
            ),
{
    if scores.len() > 0 {
        let k = choose|k: int|
            last_highest(scores, k) && best == #[trigger] scores[k];
        let w = choose|w: int|
            first_lowest(scores, w) && worst == #[trigger] scores[w];
        assert(!scores[k].nan() && !scores[w].nan() && !scores[0].nan());
        assert forall|j: int| 0 <= j < scores.len() implies (#[trigger] scores[j]).le_spec(best)
            && worst.le_spec(scores[j]) by {
            assert(!scores[j].nan());
            if j < k {
                assert(numbers_between(scores, j, k));
            }
        }
    }
}

/// A report tells of the population that it is about: its size, its best, mean and worst fitness,
/// how many were retired and spawned, and the number of the generation that has ended.
pub proof fn law_report_tells_of_its_population(
    report: EvolutionGenerationReport,
    pool: TaskSpecialistPool,
    retired: usize,
    spawned: usize,
    elapsed_ms: u64,
) -> (p: Seq<Scalar>)
    requires
        is_report_of(report, pool, retired, spawned, elapsed_ms),
    ensures
        report.task_name == pool.task_name,
        report.generation == pool.generation + 1,
        report.population_size == pool.specialists@.len(),
        report.mutations_spawned == spawned,
        report.retired == retired,
        report.elapsed_ms == elapsed_ms,
        report.merged_to_consensus == 0,
        p.len() == pool.fitness_scores@.len() + 1,
        p[0].bits == 0,
        forall|k: int|
            0 <= k < pool.fitness_scores@.len() ==> #[trigger] p[k + 1] == p[k].plus_spec(
                pool.fitness_scores@[k],
            ),
        pool.fitness_scores@.len() > 0 ==> report.avg_fitness
            == p[pool.fitness_scores@.len() as int].over_spec(
            Scalar::from_count_spec(pool.fitness_scores@.len()),
        ),
        all_numbers(pool.fitness_scores@) ==> forall|j: int|
            0 <= j < pool.fitness_scores@.len() ==> (
            #[trigger] pool.fitness_scores@[j]).le_spec(report.best_fitness)
                && report.worst_fitness.le_spec(pool.fitness_scores@[j]),
        all_numbers(pool.fitness_scores@) && pool.fitness_scores@.len() > 0
            ==> pool.fitness_scores@.contains(report.best_fitness)
            && pool.fitness_scores@.contains(report.worst_fitness),
        pool.fitness_scores@.len() == 0 ==> report.best_fitness.bits == 0
            && report.worst_fitness.bits == 0,
{
    if all_numbers(pool.fitness_scores@) {
        law_best_and_worst(pool.fitness_scores@, report.best_fitness, report.worst_fitness);
    }
    law_mean_takes_in_every_score(pool.fitness_scores@)
}

/// The end of a generation counts it, and changes nothing else of the population.
pub proof fn law_generation_ends_once(before: TaskSpecialistPool, after: TaskSpecialistPool)
    requires
        pool_closed(before, after),
    ensures
        after.generation == before.generation + 1,
        after.specialists == before.specialists,
        after.fitness_scores == before.fitness_scores,
        after.task_name == before.task_name,
        after.total_mutations == before.total_mutations,
{
}

/// The status of a population tells its name, size, generation, and best and mean fitness.
pub proof fn law_status_tells_of_each_population<P>(
    status: DaemonStatus,
    daemon: TciEvolutionDaemon<P>,
    i: int,
) -> (p: Seq<Scalar>)
    requires
        is_daemon_status(status, daemon),
        0 <= i < daemon.pools@.len(),
    ensures
        status.running == daemon.running,
        status.total_generations == daemon.total_generations,
        status.total_tasks == daemon.pools@.len(),
        status.tasks@.len() == daemon.pools@.len(),
        status.tasks@[i].name == daemon.pools@[i].1.task_name,
        status.tasks@[i].population_size == daemon.pools@[i].1.specialists@.len(),
        status.tasks@[i].generation == daemon.pools@[i].1.generation,
        p.len() == daemon.pools@[i].1.fitness_scores@.len() + 1,
        p[0].bits == 0,
        forall|k: int|
            0 <= k < daemon.pools@[i].1.fitness_scores@.len() ==> #[trigger] p[k + 1]
                == p[k].plus_spec(daemon.pools@[i].1.fitness_scores@[k]),
        daemon.pools@[i].1.fitness_scores@.len() > 0 ==> status.tasks@[i].avg_fitness
            == p[daemon.pools@[i].1.fitness_scores@.len() as int].over_spec(
            Scalar::from_count_spec(daemon.pools@[i].1.fitness_scores@.len()),
        ),
        all_numbers(daemon.pools@[i].1.fitness_scores@) ==> forall|j: int|
            0 <= j < daemon.pools@[i].1.fitness_scores@.len() ==> (
            #[trigger] daemon.pools@[i].1.fitness_scores@[j]).le_spec(
                status.tasks@[i].best_fitness,
            ),
        all_numbers(daemon.pools@[i].1.fitness_scores@)
            && daemon.pools@[i].1.fitness_scores@.len() > 0
            ==> daemon.pools@[i].1.fitness_scores@.contains(status.tasks@[i].best_fitness),
{
    let scores = daemon.pools@[i].1.fitness_scores@;
    assert(is_status_of(status.tasks@[i], daemon.pools@[i].1));
    if all_numbers(scores) && scores.len() > 0 {
        let best = status.tasks@[i].best_fitness;
        let k = choose|k: int|
            last_highest(scores, k) && best == #[trigger] scores[k];
        assert(!scores[k].nan());
        assert forall|j: int| 0 <= j < scores.len() implies (#[trigger] scores[j]).le_spec(
            best,
        ) by {
            assert(!scores[j].nan());
            if j < k {
                assert(numbers_between(scores, j, k));
            }
        }
    }
    law_mean_takes_in_every_score(scores)
}

/// Founders are copies of the base: they have its shape and weights, no parent and no mutations,
/// and each has an identifier of its own, which begins with the name of the task.
pub proof fn law_founders_are_copies_with_own_names(
    a: SpecialistBrain,
    b: SpecialistBrain,
    task: Seq<char>,
    i: nat,
    j: nat,
    base: TernaryBrain,
)
    requires
        is_founder(a, task, i, base),
        is_founder(b, task, j, base),
    ensures
        a.brain.weights@ == base.weights@,
        a.brain.image_dim == base.image_dim,
        a.brain.n_classes == base.n_classes,
        a.parent_id is None,
        a.generation_born == 0,
        a.mutations_applied == 0,
        task.is_prefix_of(a.id@),
        a.id@ == b.id@ <==> i == j,
{
    let head = task + "-spec-"@;
    assert(a.id@.take(task.len() as int) =~= task);
    assert(a.id@ == founder_id(task, i));
    assert(b.id@ == founder_id(task, j));
    if a.id@ == b.id@ {
        let (x, y) = (
            crate::text::zero_padded(crate::text::written(i, 16), 6),
            crate::text::zero_padded(crate::text::written(j, 16), 6),
        );
        lemma_same_text(head, x, y);
        law_padding_keeps_the_digits(i, 16, 6);
        law_padding_keeps_the_digits(j, 16, 6);
    }
}

/// A child has the weights that it was given, the shape of its parent, one mutation more than it,
/// and is born in the generation after the one that bred it; its identifier begins with the name
/// of the task.
pub proof fn law_child_descends_from_its_parent(
    s: SpecialistBrain,
    task: Seq<char>,
    generation: u32,
    at: nat,
    parent: SpecialistBrain,
    weights: Vec<i8>,
)
    requires
        is_child(s, task, generation, at, parent, weights),
    ensures
        s.brain.weights == weights,
        s.brain.image_dim == parent.brain.image_dim,
        s.brain.n_classes == parent.brain.n_classes,
        s.parent_id == Some(parent.id),
        s.generation_born == generation + 1,
        s.mutations_applied == parent.mutations_applied + 1,
        task.is_prefix_of(s.id@),
{
    assert(s.id@ == child_id(task, generation as nat, at));
    assert(s.id@.take(task.len() as int) =~= task);
}

/// Children of different generations, or of parents at different positions in one generation, have
/// different identifiers.
pub proof fn law_children_of_others_have_other_names(
    task: Seq<char>,
    g: nat,
    h: nat,
    a: nat,
    b: nat,
)
    ensures
        child_id(task, g, a) == child_id(task, g, b) <==> a == b,
        child_id(task, g, a) == child_id(task, h, a) <==> g == h,
{
    let (x, y) = (crate::text::decimal(a), crate::text::decimal(b));
    let head = task + "-gen"@ + crate::text::decimal(g) + "-mut"@;
    law_written_numbers_are_read_back(a, 10);
    law_written_numbers_are_read_back(b, 10);
    law_written_numbers_are_read_back(g, 10);
    law_written_numbers_are_read_back(h, 10);
    if child_id(task, g, a) == child_id(task, g, b) {
        lemma_same_text(head, x, y);
    }
    if child_id(task, g, a) == child_id(task, h, a) {
        let (p, q) = (crate::text::decimal(g), crate::text::decimal(h));
        let (front, tail) = (task + "-gen"@, "-mut"@ + x);
        assert(child_id(task, g, a) =~= front + (p + tail));
        assert(child_id(task, h, a) =~= front + (q + tail));
        lemma_same_text(front, p + tail, q + tail);
        assert((p + tail).len() == (q + tail).len());
        assert(p =~= (p + tail).take(p.len() as int));
        assert(q =~= (q + tail).take(q.len() as int));
    }
}

/// Breeding keeps every survivor with its fitness at its place, and adds a child for each of the
/// given weights behind them, without any fitness yet.
pub proof fn law_breeding_keeps_the_survivors(
    before: TaskSpecialistPool,
    after: TaskSpecialistPool,
    parent: nat,
    children: Seq<Vec<i8>>,
    i: int,
)
    requires
        pool_bred(before, after, parent, children),
    ensures
        after.task_name == before.task_name,
        after.generation == before.generation,
        after.specialists@.len() == before.specialists@.len() + children.len(),
        after.fitness_scores@.len() == after.specialists@.len(),
        0 <= i < before.specialists@.len() ==> after.specialists@[i] == before.specialists@[i]
            && after.fitness_scores@[i] == before.fitness_scores@[i],
        0 <= i < children.len() ==> {
            let child = after.specialists@[before.specialists@.len() + i];
            &&& child.brain.weights == children[i]
            &&& child.parent_id == Some(before.specialists@[parent as int].id)
            &&& child.generation_born == before.generation + 1
            &&& child.mutations_applied == before.specialists@[parent as int].mutations_applied
                + 1
            &&& after.fitness_scores@[before.specialists@.len() + i].bits == 0
        },
{
    if 0 <= i < children.len() {
        assert(is_child(
            after.specialists@[before.specialists@.len() + i],
            before.task_name@,
            before.generation,
            parent,
            before.specialists@[parent as int],
            children[i],
        ));
    }
}

/// The children of a run belong to its population: the run goes on with the population that was
/// bred, for the same samples and rounds.
pub proof fn law_offspring_joins_its_run(
    run: EvolutionRun,
    next: EvolutionRun,
    children: Seq<Vec<i8>>,
)
    requires
        offspring_added(run, next, children),
    ensures
        next.pool.specialists@.len() == run.pool.specialists@.len() + children.len(),
        next.pool.total_mutations == run.pool.total_mutations + children.len(),
        next.pool.generation == run.pool.generation,
        next.pool.task_name == run.pool.task_name,
        next.labels == run.labels,
        next.n_samples == run.n_samples,
        next.rounds_left == run.rounds_left,
        next.retired == run.retired,
{
}

/// A generation that is judged is counted once, the counter starting again after its largest
/// value, and is reported on once, behind the earlier reports.
pub proof fn law_judged_generation_is_counted<P>(
    before: TciEvolutionDaemon<P>,
    after: TciEvolutionDaemon<P>,
    run: EvolutionRun,
    predictions: Seq<Vec<u8>>,
    elapsed_ms: u64,
    step: EvolutionStep,
)
    requires
        generation_advanced(before, after, run, predictions, elapsed_ms, step),
    ensures
        before.total_generations < u32::MAX ==> after.total_generations == before.total_generations
            + 1,
        before.total_generations == u32::MAX ==> after.total_generations == 0,
        after.reports@ == before.reports@.push(after.reports@.last()),
        after.config == before.config,
        after.running == before.running,
{
    assert(after.reports@ =~= after.reports@.drop_last().push(after.reports@.last()));
}

/// The report on a generation that is judged is about its population: its task, its number, its
/// size, and how many were retired and spawned.
pub proof fn law_judged_generation_is_reported_on<P>(
    before: TciEvolutionDaemon<P>,
    after: TciEvolutionDaemon<P>,
    run: EvolutionRun,
    predictions: Seq<Vec<u8>>,
    elapsed_ms: u64,
    step: EvolutionStep,
)
    requires
        generation_advanced(before, after, run, predictions, elapsed_ms, step),
    ensures
        after.reports@.last().task_name == run.pool.task_name,
        after.reports@.last().generation == run.pool.generation + 1,
        after.reports@.last().population_size == run.pool.specialists@.len(),
        after.reports@.last().retired == run.retired,
        after.reports@.last().mutations_spawned == before.config.mutations_per_gen,
        after.reports@.last().elapsed_ms == elapsed_ms,
{
    let report = after.reports@.last();
    let spawned = before.config.mutations_per_gen;
    let pool = choose|pool: TaskSpecialistPool| #[trigger]
        generation_judged(run, pool, report, predictions, spawned, elapsed_ms) && pool_advanced(
            before,
            after,
            pool,
            run,
            step,
        );
    assert(generation_judged(run, pool, report, predictions, spawned, elapsed_ms));
    lemma_report_of_generation(run, pool, report, predictions, spawned, elapsed_ms);
}

/// While rounds are left, a judged generation is followed by the next one, and the memories and
/// stored populations stay as they are; else the run ends.
pub proof fn law_rounds_decide_what_follows<P>(
    before: TciEvolutionDaemon<P>,
    after: TciEvolutionDaemon<P>,
    run: EvolutionRun,
    predictions: Seq<Vec<u8>>,
    elapsed_ms: u64,
    step: EvolutionStep,
)
    requires
        generation_advanced(before, after, run, predictions, elapsed_ms, step),
    ensures
        run.rounds_left > 0 ==> after.engine == before.engine && after.pools == before.pools && step
            is Mutate,
        run.rounds_left == 0 ==> step is Finished,
{
    let report = after.reports@.last();
    let spawned = before.config.mutations_per_gen;
    let pool = choose|pool: TaskSpecialistPool| #[trigger]
        generation_judged(run, pool, report, predictions, spawned, elapsed_ms) && pool_advanced(
            before,
            after,
            pool,
            run,
            step,
        );
    assert(pool_advanced(before, after, pool, run, step));
    lemma_advance(before, after, pool, run, step);
}

proof fn lemma_advance<P>(
    before: TciEvolutionDaemon<P>,
    after: TciEvolutionDaemon<P>,
    pool: TaskSpecialistPool,
    run: EvolutionRun,
    step: EvolutionStep,
)
    requires
        pool_advanced(before, after, pool, run, step),
    ensures
        run.rounds_left > 0 ==> after.engine == before.engine && after.pools == before.pools && step
            is Mutate,
        run.rounds_left == 0 ==> step is Finished,
        run.rounds_left > 0 ==> generation_begun(pool, run, before.config, step),
        run.rounds_left == 0 ==> run_finished(before, after, pool, step),
{
}

proof fn lemma_report_of_generation(
    run: EvolutionRun,
    pool: TaskSpecialistPool,
    report: EvolutionGenerationReport,
    predictions: Seq<Vec<u8>>,
    spawned: usize,
    elapsed_ms: u64,
)
    requires
        generation_judged(run, pool, report, predictions, spawned, elapsed_ms),
    ensures
        report.task_name == run.pool.task_name,
        report.generation == run.pool.generation + 1,
        report.population_size == run.pool.specialists@.len(),
        report.retired == run.retired,
        report.mutations_spawned == spawned,
        report.elapsed_ms == elapsed_ms,
{
}

/// What a generation goes on with is its own population: judged by its own predictions, one
/// generation later.
pub proof fn law_generation_goes_on_with_its_population(
    run: EvolutionRun,
    pool: TaskSpecialistPool,
    report: EvolutionGenerationReport,
    predictions: Seq<Vec<u8>>,
    spawned: usize,
    elapsed_ms: u64,
    i: int,
)
    requires
        generation_judged(run, pool, report, predictions, spawned, elapsed_ms),
        0 <= i < run.pool.specialists@.len(),
    ensures
        pool.specialists == run.pool.specialists,
        pool.task_name == run.pool.task_name,
        pool.total_mutations == run.pool.total_mutations,
        pool.generation == run.pool.generation + 1,
        pool.fitness_scores@.len() == run.pool.specialists@.len(),
        pool.fitness_scores@[i] == Scalar::ratio_spec(
            agreements(predictions[i]@, run.labels@, predictions[i]@.len() as int).len(),
            if run.n_samples < predictions[i]@.len() {
                run.n_samples as nat
            } else {
                predictions[i]@.len()
            },
        ),
{
    let scored = choose|scored: TaskSpecialistPool| #[trigger]
        pool_scored(run.pool, scored, predictions, run.labels@, run.n_samples as nat)
            && pool_closed(scored, pool) && is_report_of(
            report,
            scored,
            run.retired,
            spawned,
            elapsed_ms,
        );
    law_judgement_is_by_own_predictions(
        run.pool,
        scored,
        predictions,
        run.labels@,
        run.n_samples as nat,
        i,
    );
}

/// The judgement of founders counts no generation and makes no report.
pub proof fn law_founders_are_no_generation<P>(
    before: TciEvolutionDaemon<P>,
    after: TciEvolutionDaemon<P>,
    run: EvolutionRun,
    predictions: Seq<Vec<u8>>,
    step: EvolutionStep,
)
    requires
        founders_advanced(before, after, run, predictions, step),
    ensures
        after.total_generations == before.total_generations,
        after.reports == before.reports,
        after.config == before.config,
        after.running == before.running,
        run.rounds_left > 0 ==> after.engine == before.engine && after.pools == before.pools && step
            is Mutate,
        run.rounds_left == 0 ==> step is Finished,
{
}

/// Founders go on by their own predictions: the population that is put in order, or stored where
/// no rounds are left, is theirs, with the share of agreements of each as its fitness.
pub proof fn law_founders_go_on_by_their_predictions<P>(
    before: TciEvolutionDaemon<P>,
    after: TciEvolutionDaemon<P>,
    run: EvolutionRun,
    predictions: Seq<Vec<u8>>,
    step: EvolutionStep,
) -> (pool: TaskSpecialistPool)
    requires
        founders_advanced(before, after, run, predictions, step),
    ensures
        pool.specialists == run.pool.specialists,
        pool.task_name == run.pool.task_name,
        pool.generation == run.pool.generation,
        pool.total_mutations == run.pool.total_mutations,
        pool.fitness_scores@.len() == run.pool.specialists@.len(),
        forall|i: int|
            0 <= i < run.pool.specialists@.len() ==> #[trigger] pool.fitness_scores@[i]
                == Scalar::ratio_spec(
                agreements(predictions[i]@, run.labels@, predictions[i]@.len() as int).len(),
                if run.n_samples < predictions[i]@.len() {
                    run.n_samples as nat
                } else {
                    predictions[i]@.len()
                },
            ),
        run.rounds_left > 0 ==> generation_begun(pool, run, before.config, step),
        run.rounds_left == 0 ==> run_finished(before, after, pool, step),
{
    let pool = choose|pool: TaskSpecialistPool| #[trigger]
        pool_scored(run.pool, pool, predictions, run.labels@, run.n_samples as nat)
            && pool_advanced(before, after, pool, run, step);
    assert(pool_scored(run.pool, pool, predictions, run.labels@, run.n_samples as nat));
    assert(pool_advanced(before, after, pool, run, step));
    lemma_judged_alike(run, pool, predictions);
    lemma_advance(before, after, pool, run, step);
    pool
}

proof fn lemma_judged_alike(
    run: EvolutionRun,
    pool: TaskSpecialistPool,
    predictions: Seq<Vec<u8>>,
)
    requires
        pool_scored(run.pool, pool, predictions, run.labels@, run.n_samples as nat),
    ensures
        forall|i: int|
            0 <= i < run.pool.specialists@.len() ==> #[trigger] pool.fitness_scores@[i]
                == Scalar::ratio_spec(
                agreements(predictions[i]@, run.labels@, predictions[i]@.len() as int).len(),
                if run.n_samples < predictions[i]@.len() {
                    run.n_samples as nat
                } else {
                    predictions[i]@.len()
                },
            ),
{
    assert forall|i: int| 0 <= i < run.pool.specialists@.len() implies #[trigger]
    pool.fitness_scores@[i] == Scalar::ratio_spec(
        agreements(predictions[i]@, run.labels@, predictions[i]@.len() as int).len(),
        if run.n_samples < predictions[i]@.len() {
            run.n_samples as nat
        } else {
            predictions[i]@.len()
        },
    ) by {
        law_judgement_is_by_own_predictions(
            run.pool,
            pool,
            predictions,
            run.labels@,
            run.n_samples as nat,
            i,
        );
    }
}

/// A generation goes on by its own predictions: the population that is put in order, or stored
/// where no rounds are left, is its own, one generation later.
pub proof fn law_generation_goes_on_by_its_predictions<P>(
    before: TciEvolutionDaemon<P>,
    after: TciEvolutionDaemon<P>,
    run: EvolutionRun,
    predictions: Seq<Vec<u8>>,
    elapsed_ms: u64,
    step: EvolutionStep,
) -> (pool: TaskSpecialistPool)
    requires
        generation_advanced(before, after, run, predictions, elapsed_ms, step),
    ensures
        generation_judged(
            run,
            pool,
            after.reports@.last(),
            predictions,
            before.config.mutations_per_gen,
            elapsed_ms,
        ),
        run.rounds_left > 0 ==> generation_begun(pool, run, before.config, step),
        run.rounds_left == 0 ==> run_finished(before, after, pool, step),
{
    let report = after.reports@.last();
    let spawned = before.config.mutations_per_gen;
    let pool = choose|pool: TaskSpecialistPool| #[trigger]
        generation_judged(run, pool, report, predictions, spawned, elapsed_ms) && pool_advanced(
            before,
            after,
            pool,
            run,
            step,
        );
    assert(generation_judged(run, pool, report, predictions, spawned, elapsed_ms));
    assert(pool_advanced(before, after, pool, run, step));
    lemma_advance(before, after, pool, run, step);
    pool
}

/// Learning a task changes neither the configuration nor the populations, reports and counters.
pub proof fn law_learning_leaves_the_populations<P>(
    before: TciEvolutionDaemon<P>,
    after: TciEvolutionDaemon<P>,
)
    requires
        engine_learned(before, after),
    ensures
        after.config == before.config,
        after.pools == before.pools,
        after.reports == before.reports,
        after.running == before.running,
        after.total_generations == before.total_generations,
        after.engine.template == before.engine.template,
{
}

/// When a run ends its population is stored as it is, and its fittest are merged into the memory
/// of its task; without specialists, or where the task is unknown, no memory changes.
pub proof fn law_run_ends_with_its_population<P>(
    before: TciEvolutionDaemon<P>,
    after: TciEvolutionDaemon<P>,
    pool: TaskSpecialistPool,
    step: EvolutionStep,
    t: int,
)
    requires
        run_finished(before, after, pool, step),
    ensures
        step is Finished,
        after.pools@[step->pool_index as int].1 == pool,
        after.pools@[step->pool_index as int].0@ == pool.task_name@,
        forall|i: int|
            0 <= i < before.pools@.len() && i != step->pool_index ==> #[trigger] after.pools@[i]
                == before.pools@[i],
        (forall|u: int|
            0 <= u < before.engine.tasks@.len() ==> (#[trigger] before.engine.tasks@[u]).name@
                != pool.task_name@) ==> after.engine == before.engine,
        pool.specialists@.len() == 0 ==> after.engine == before.engine,
        pool.specialists@.len() > 0 && is_first_named(
            before.engine.tasks@,
            pool.task_name@,
            t,
        ) ==> merged_into(before.engine, after.engine, pool, t, before.config.merge_top_k as nat),
{
}

/// A population is stored in the place of an earlier one under the same key, or else behind all
/// others; no other one is touched.
pub proof fn law_storing_touches_one_place(
    before: Seq<(String, TaskSpecialistPool)>,
    after: Seq<(String, TaskSpecialistPool)>,
    pool: TaskSpecialistPool,
    at: int,
    i: int,
)
    requires
        pool_stored(before, after, pool, at),
    ensures
        0 <= at < after.len(),
        after[at].0@ == pool.task_name@,
        after[at].1 == pool,
        0 <= i < before.len() && i != at ==> after[i] == before[i],
        after.len() == before.len() || after.len() == before.len() + 1,
        after.len() == before.len() ==> before[at].0@ == pool.task_name@,
        after.len() > before.len() ==> (0 <= i < before.len() ==> before[i].0@
            != pool.task_name@),
{
}

/// The next generation can be begun exactly where there is none, or it does not retire more than
/// there are.
pub proof fn law_next_generation_fits(run: EvolutionRun, config: TciEvolutionConfig)
    ensures
        run.can_retire(config) <==> run.rounds_left == 0 || retire_count(
            run.pool.specialists@.len(),
            config.retire_fraction,
        ) <= run.pool.specialists@.len(),
{
}

/// A daemon is in order exactly where its engine is and no two populations have the same key.
pub proof fn law_daemon_in_order<P>(daemon: TciEvolutionDaemon<P>)
    ensures
        daemon.wf() <==> daemon.engine.wf() && forall|i: int, j: int|
            0 <= i < j < daemon.pools@.len() ==> (#[trigger] daemon.pools@[i]).0@ != (
            #[trigger] daemon.pools@[j]).0@,
{
}

/// By default a weight flips at the rate nearest to two hundredths, and the share nearest to three
/// tenths retires.
pub proof fn law_default_rates()
    ensures
        nearest(default_config().mutation_rate.mag(), 2 * one_units(), 100),
        nearest(default_config().retire_fraction.mag(), 3 * one_units(), 10),
        !default_config().mutation_rate.negative(),
        !default_config().retire_fraction.negative(),
{
    vstd::arithmetic::power2::lemma2_to64();
    lemma_nearest_form(0xa3_d70a, 120, 2, 100);
    lemma_nearest_form(0x99_999a, 124, 3, 10);
}

/// The best fitness is that of the last highest score, and the worst that of the first lowest one,
/// whatever the scores are.
pub proof fn law_best_and_worst_of_any(
    scores: Seq<Scalar>,
    best: Scalar,
    worst: Scalar,
    k: int,
    w: int,
)
    requires
        is_best(scores, best),
        is_worst(scores, worst),
        last_highest(scores, k),
        first_lowest(scores, w),
    ensures
        best == scores[k],
        worst == scores[w],
{
    let a = choose|a: int| last_highest(scores, a) && best == #[trigger] scores[a];
    let b = choose|b: int| first_lowest(scores, b) && worst == #[trigger] scores[b];
    crate::ranking::law_last_highest_is_unique(scores, a, k);
    crate::ranking::law_first_lowest_is_unique(scores, b, w);
}

} // verus!
