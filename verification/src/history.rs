//! What holds of a daemon after any number of steps: its order, its status, and its reports.

use crate::daemon::{
    DaemonStatus, EvolutionRun, EvolutionStep, PoolEntry, RunPhase, TaskStatus, TciEvolutionDaemon,
    engine_learned, founders_advanced, generation_advanced, generation_judged, is_daemon_status,
    is_status_of, keys_distinct, keys_name_tasks, law_report_reaches_its_task, offspring_added,
    pool_advanced, pool_scored, reports_on, specialists_in,
};
use crate::evolution::{
    EvolutionGenerationReport, MutationOrder, TaskSpecialistPool, is_best, score_mean,
};
use vstd::prelude::*;

verus! {

/// The daemon has taken a step: it has learned, judged founders, or judged a generation.
pub open spec fn daemon_moved<P>(
    before: TciEvolutionDaemon<P>,
    after: TciEvolutionDaemon<P>,
) -> bool {
    ||| engine_learned(before, after)
    ||| exists|run: EvolutionRun, predictions: Seq<Vec<u8>>, step: EvolutionStep|
        founders_advanced(before, after, run, predictions, step)
    ||| exists|
        run: EvolutionRun,
        predictions: Seq<Vec<u8>>,
        elapsed_ms: u64,
        step: EvolutionStep,
    |
        generation_advanced(before, after, run, predictions, elapsed_ms, step)
}

/// From each daemon to the next is one step.
pub open spec fn is_history<P>(history: Seq<TciEvolutionDaemon<P>>) -> bool {
    &&& history.len() > 0
    &&& forall|i: int| 0 < i < history.len() ==> daemon_moved(history[i - 1], #[trigger] history[i])
}

/// A step keeps the keys of populations different, and keeps each population under the name of its
/// task.
proof fn lemma_step_keeps_keys<P>(before: TciEvolutionDaemon<P>, after: TciEvolutionDaemon<P>)
    requires
        daemon_moved(before, after),
    ensures
        keys_distinct(before.pools@) ==> keys_distinct(after.pools@),
        keys_name_tasks(before.pools@) ==> keys_name_tasks(after.pools@),
{
    if engine_learned(before, after) {
    } else if exists|run: EvolutionRun, predictions: Seq<Vec<u8>>, step: EvolutionStep|
        founders_advanced(before, after, run, predictions, step) {
        let (run, predictions, step) = choose|
            run: EvolutionRun,
            predictions: Seq<Vec<u8>>,
            step: EvolutionStep,
        |
            founders_advanced(before, after, run, predictions, step);
        let pool = choose|pool: TaskSpecialistPool| #[trigger]
            pool_scored(run.pool, pool, predictions, run.labels@, run.n_samples as nat)
                && pool_advanced(before, after, pool, run, step);
        lemma_advance_keeps_names(before, after, pool, run, step);
    } else {
        let (run, predictions, elapsed_ms, step) = choose|
            run: EvolutionRun,
            predictions: Seq<Vec<u8>>,
            elapsed_ms: u64,
            step: EvolutionStep,
        |
            generation_advanced(before, after, run, predictions, elapsed_ms, step);
        let pool = choose|pool: TaskSpecialistPool| #[trigger]
            generation_judged(
                run,
                pool,
                after.reports@.last(),
                predictions,
                before.config.mutations_per_gen,
                elapsed_ms,
            ) && pool_advanced(before, after, pool, run, step);
        lemma_advance_keeps_names(before, after, pool, run, step);
    }
}

/// A run that goes on or ends keeps each population under the name of its task.
proof fn lemma_advance_keeps_names<P>(
    before: TciEvolutionDaemon<P>,
    after: TciEvolutionDaemon<P>,
    pool: TaskSpecialistPool,
    run: EvolutionRun,
    step: EvolutionStep,
)
    requires
        pool_advanced(before, after, pool, run, step),
    ensures
        keys_name_tasks(before.pools@) ==> keys_name_tasks(after.pools@),
{
    if run.rounds_left == 0 && keys_name_tasks(before.pools@) {
        let at = step->pool_index as int;
        assert forall|i: int| 0 <= i < after.pools@.len() implies (
        #[trigger] after.pools@[i]).0@ == after.pools@[i].1.task_name@ by {
            if i != at {
                assert(after.pools@[i] == before.pools@[i]);
            }
        }
    }
}

/// A daemon that starts with one population under each key and does not run has one population
/// under each key and does not run after any number of steps. If it starts in order, it stays in
/// order. If its populations are stored under the names of their tasks, they stay so.
pub proof fn law_daemon_stays_in_order<P>(history: Seq<TciEvolutionDaemon<P>>)
    requires
        is_history(history),
        keys_distinct(history[0].pools@),
        !history[0].running,
    ensures
        keys_distinct(history.last().pools@),
        keys_name_tasks(history[0].pools@) ==> keys_name_tasks(history.last().pools@),
        history[0].wf() ==> history.last().wf(),
        !history.last().running,
        history.last().config == history[0].config,
        history.last().engine.template == history[0].engine.template,
    decreases history.len(),
{
    if history.len() > 1 {
        let rest = history.drop_last();
        assert forall|i: int| 0 < i < rest.len() implies daemon_moved(
            rest[i - 1],
            #[trigger] rest[i],
        ) by {
            assert(daemon_moved(history[i - 1], history[i]));
        }
        law_daemon_stays_in_order(rest);
        let last = history.len() - 1;
        assert(daemon_moved(history[last - 1], history[last]));
        lemma_step_keeps_keys(history[last - 1], history[last]);
    }
}

/// The number of specialists that the statuses of populations add up to.
pub open spec fn population_in(tasks: Seq<TaskStatus>) -> nat
    decreases tasks.len(),
{
    if tasks.len() == 0 {
        0
    } else {
        population_in(tasks.drop_last()) + tasks.last().population_size as nat
    }
}

proof fn lemma_population(tasks: Seq<TaskStatus>, pools: Seq<PoolEntry>)
    requires
        tasks.len() == pools.len(),
        forall|i: int| 0 <= i < tasks.len() ==> is_status_of(#[trigger] tasks[i], pools[i].1),
    ensures
        population_in(tasks) == specialists_in(pools),
    decreases tasks.len(),
{
    if tasks.len() > 0 {
        let (a, b) = (tasks.drop_last(), pools.drop_last());
        assert forall|i: int| 0 <= i < a.len() implies is_status_of(#[trigger] a[i], b[i].1) by {
            assert(is_status_of(tasks[i], pools[i].1));
        }
        lemma_population(a, b);
        assert(is_status_of(tasks[tasks.len() - 1], pools[tasks.len() - 1].1));
    }
}

/// The status of every daemon that can be reached is consistent: it does not run, the populations
/// add up, each population has the best and the mean of its fitness, and each task is listed once
/// where the populations were stored under the names of their tasks to begin with.
pub proof fn law_status_is_consistent<P>(
    history: Seq<TciEvolutionDaemon<P>>,
    status: DaemonStatus,
)
    requires
        is_history(history),
        keys_distinct(history[0].pools@),
        !history[0].running,
        is_daemon_status(status, history.last()),
    ensures
        !status.running,
        status.tasks@.len() == status.total_tasks,
        status.total_specialists == population_in(status.tasks@),
        keys_name_tasks(history[0].pools@) ==> forall|i: int, j: int|
            0 <= i < j < status.tasks@.len() ==> (#[trigger] status.tasks@[i]).name@ != (
            #[trigger] status.tasks@[j]).name@,
        forall|i: int|
            0 <= i < status.tasks@.len() ==> {
                let scores = history.last().pools@[i].1.fitness_scores@;
                is_best(scores, (#[trigger] status.tasks@[i]).best_fitness)
                    && status.tasks@[i].avg_fitness == score_mean(scores)
            },
{
    law_daemon_stays_in_order(history);
    let pools = history.last().pools@;
    lemma_population(status.tasks@, pools);
    if keys_name_tasks(history[0].pools@) {
        assert forall|i: int, j: int| 0 <= i < j < status.tasks@.len() implies (
        #[trigger] status.tasks@[i]).name@ != (#[trigger] status.tasks@[j]).name@ by {
            assert(is_status_of(status.tasks@[i], pools[i].1));
            assert(is_status_of(status.tasks@[j], pools[j].1));
            assert(pools[i].0@ != pools[j].0@);
        }
    }
    assert forall|i: int| 0 <= i < status.tasks@.len() implies ({
        let scores = pools[i].1.fitness_scores@;
        is_best(scores, (#[trigger] status.tasks@[i]).best_fitness)
            && status.tasks@[i].avg_fitness == score_mean(scores)
    }) by {
        assert(is_status_of(status.tasks@[i], pools[i].1));
    }
}

/// The reports on a task are those on its generations from the first to number `m`.
pub open spec fn numbered_to(
    reports: Seq<EvolutionGenerationReport>,
    name: Seq<char>,
    m: int,
) -> bool {
    let found = reports_on(reports, name);
    &&& found.len() == m
    &&& forall|g: int|
        0 <= g < m ==> (#[trigger] found[g]).task_name@ == name && found[g].generation == g + 1
}

/// The daemon has taken a step that judges no generation of the named task.
pub open spec fn moved_elsewhere<P>(
    before: TciEvolutionDaemon<P>,
    after: TciEvolutionDaemon<P>,
    name: Seq<char>,
) -> bool {
    ||| engine_learned(before, after)
    ||| exists|run: EvolutionRun, predictions: Seq<Vec<u8>>, step: EvolutionStep|
        founders_advanced(before, after, run, predictions, step)
    ||| exists|
        run: EvolutionRun,
        predictions: Seq<Vec<u8>>,
        elapsed_ms: u64,
        step: EvolutionStep,
    |
        run.pool.task_name@ != name && #[trigger] generation_advanced(
            before,
            after,
            run,
            predictions,
            elapsed_ms,
            step,
        )
}

/// From each daemon to the next is one step that judges no generation of the named task.
pub open spec fn is_history_elsewhere<P>(
    history: Seq<TciEvolutionDaemon<P>>,
    name: Seq<char>,
) -> bool {
    &&& history.len() > 0
    &&& forall|i: int|
        0 < i < history.len() ==> moved_elsewhere(history[i - 1], #[trigger] history[i], name)
}

/// The judgement of a generation adds one report, which is on that generation of its task.
proof fn lemma_one_report<P>(
    before: TciEvolutionDaemon<P>,
    after: TciEvolutionDaemon<P>,
    run: EvolutionRun,
    predictions: Seq<Vec<u8>>,
    elapsed_ms: u64,
    step: EvolutionStep,
) -> (report: EvolutionGenerationReport)
    requires
        generation_advanced(before, after, run, predictions, elapsed_ms, step),
    ensures
        after.reports@ == before.reports@.push(report),
        report.task_name == run.pool.task_name,
        report.generation == run.pool.generation + 1,
{
    let report = after.reports@.last();
    let pool = choose|pool: TaskSpecialistPool| #[trigger]
        generation_judged(
            run,
            pool,
            report,
            predictions,
            before.config.mutations_per_gen,
            elapsed_ms,
        ) && pool_advanced(before, after, pool, run, step);
    assert(generation_judged(
        run,
        pool,
        report,
        predictions,
        before.config.mutations_per_gen,
        elapsed_ms,
    ));
    assert(after.reports@ =~= after.reports@.drop_last().push(report));
    report
}

/// A report on the next generation continues the numbers; one on another task changes nothing.
proof fn lemma_push_report(
    reports: Seq<EvolutionGenerationReport>,
    report: EvolutionGenerationReport,
    name: Seq<char>,
    m: int,
)
    ensures
        report.task_name@ != name ==> reports_on(reports.push(report), name) == reports_on(
            reports,
            name,
        ),
        report.task_name@ == name && report.generation == m + 1 && numbered_to(reports, name, m)
            ==> numbered_to(reports.push(report), name, m + 1),
{
    law_report_reaches_its_task(reports, report, name);
    let (found, more) = (reports_on(reports, name), reports_on(reports.push(report), name));
    if report.task_name@ == name && report.generation == m + 1 && numbered_to(reports, name, m) {
        assert(more == found.push(report));
        assert forall|g: int| 0 <= g < more.len() implies (#[trigger] more[g]).task_name@ == name
            && more[g].generation == g + 1 by {
            if g < found.len() {
                assert(more[g] == found[g]);
            }
        }
    }
}

proof fn lemma_elsewhere_keeps_reports<P>(
    before: TciEvolutionDaemon<P>,
    after: TciEvolutionDaemon<P>,
    name: Seq<char>,
)
    requires
        moved_elsewhere(before, after, name),
    ensures
        reports_on(after.reports@, name) == reports_on(before.reports@, name),
{
    if !engine_learned(before, after) && !(exists|
        run: EvolutionRun,
        predictions: Seq<Vec<u8>>,
        step: EvolutionStep,
    |
        founders_advanced(before, after, run, predictions, step)) {
        let (run, predictions, elapsed_ms, step) = choose|
            run: EvolutionRun,
            predictions: Seq<Vec<u8>>,
            elapsed_ms: u64,
            step: EvolutionStep,
        |
            run.pool.task_name@ != name && #[trigger] generation_advanced(
                before,
                after,
                run,
                predictions,
                elapsed_ms,
                step,
            );
        let report = lemma_one_report(before, after, run, predictions, elapsed_ms, step);
        lemma_push_report(before.reports@, report, name, 0);
    }
}

/// Steps for other tasks leave the reports on a task as they are.
pub proof fn law_other_tasks_leave_reports<P>(
    history: Seq<TciEvolutionDaemon<P>>,
    name: Seq<char>,
)
    requires
        is_history_elsewhere(history, name),
    ensures
        reports_on(history.last().reports@, name) == reports_on(history[0].reports@, name),
    decreases history.len(),
{
    if history.len() > 1 {
        let rest = history.drop_last();
        assert forall|i: int| 0 < i < rest.len() implies moved_elsewhere(
            rest[i - 1],
            #[trigger] rest[i],
            name,
        ) by {
            assert(moved_elsewhere(history[i - 1], history[i], name));
        }
        law_other_tasks_leave_reports(rest, name);
        let last = history.len() - 1;
        assert(moved_elsewhere(history[last - 1], history[last], name));
        lemma_elsewhere_keeps_reports(history[last - 1], history[last], name);
    }
}

/// A run has gone on by one step and has not ended: its founders or a generation have been judged
/// and the next generation has begun, or its children have been added.
pub open spec fn run_moved<P>(
    before: TciEvolutionDaemon<P>,
    run: EvolutionRun,
    after: TciEvolutionDaemon<P>,
    next: EvolutionRun,
) -> bool {
    ||| run.phase == RunPhase::Founders && exists|
        predictions: Seq<Vec<u8>>,
        order: MutationOrder,
    | #[trigger]
        founders_advanced(
            before,
            after,
            run,
            predictions,
            EvolutionStep::Mutate { run: next, order },
        )
    ||| run.phase == RunPhase::Offspring && after == before && exists|
        children: Seq<Vec<i8>>,
    |
        offspring_added(run, next, children)
    ||| run.phase == RunPhase::Generation && exists|
        predictions: Seq<Vec<u8>>,
        elapsed_ms: u64,
        order: MutationOrder,
    | #[trigger]
        generation_advanced(
            before,
            after,
            run,
            predictions,
            elapsed_ms,
            EvolutionStep::Mutate { run: next, order },
        )
}

/// A run has ended.
pub open spec fn run_ended<P>(
    before: TciEvolutionDaemon<P>,
    run: EvolutionRun,
    after: TciEvolutionDaemon<P>,
) -> bool {
    ||| run.phase == RunPhase::Founders && exists|
        predictions: Seq<Vec<u8>>,
        pool_index: usize,
    | #[trigger]
        founders_advanced(
            before,
            after,
            run,
            predictions,
            EvolutionStep::Finished { pool_index },
        )
    ||| run.phase == RunPhase::Generation && exists|
        predictions: Seq<Vec<u8>>,
        elapsed_ms: u64,
        pool_index: usize,
    | #[trigger]
        generation_advanced(
            before,
            after,
            run,
            predictions,
            elapsed_ms,
            EvolutionStep::Finished { pool_index },
        )
}

/// The run of a task from its beginning: at each moment it goes on by one step, or the daemon
/// takes a step for another task.
pub open spec fn is_run_history<P>(
    history: Seq<TciEvolutionDaemon<P>>,
    runs: Seq<EvolutionRun>,
    name: Seq<char>,
    rounds: int,
) -> bool {
    &&& history.len() == runs.len()
    &&& history.len() > 0
    &&& runs[0].phase == RunPhase::Founders
    &&& runs[0].pool.task_name@ == name
    &&& runs[0].pool.generation == 0
    &&& runs[0].rounds_left == rounds
    &&& forall|i: int|
        0 < i < history.len() ==> run_moved(
            history[i - 1],
            runs[i - 1],
            #[trigger] history[i],
            runs[i],
        ) || (runs[i] == runs[i - 1] && moved_elsewhere(history[i - 1], history[i], name))
}

/// After the judgement of a generation there is one more report on its task.
proof fn lemma_generation_is_reported<P>(
    before: TciEvolutionDaemon<P>,
    after: TciEvolutionDaemon<P>,
    run: EvolutionRun,
    predictions: Seq<Vec<u8>>,
    elapsed_ms: u64,
    step: EvolutionStep,
    name: Seq<char>,
)
    requires
        generation_advanced(before, after, run, predictions, elapsed_ms, step),
        run.pool.task_name@ == name,
        numbered_to(before.reports@, name, run.pool.generation as int),
    ensures
        numbered_to(after.reports@, name, run.pool.generation + 1),
{
    let report = lemma_one_report(before, after, run, predictions, elapsed_ms, step);
    lemma_push_report(before.reports@, report, name, run.pool.generation as int);
}

/// A step of a run keeps what is open and what is reported in balance.
proof fn lemma_run_step<P>(
    before: TciEvolutionDaemon<P>,
    run: EvolutionRun,
    after: TciEvolutionDaemon<P>,
    next: EvolutionRun,
    name: Seq<char>,
)
    requires
        run_moved(before, run, after, next),
        run.pool.task_name@ == name,
        numbered_to(before.reports@, name, run.pool.generation as int),
    ensures
        next.pool.task_name@ == name,
        numbered_to(after.reports@, name, next.pool.generation as int),
        next.pool.generation + next.rounds_open() == run.pool.generation + run.rounds_open(),
{
    if run.phase == RunPhase::Founders {
        let (predictions, order) = choose|
            predictions: Seq<Vec<u8>>,
            order: MutationOrder,
        | #[trigger]
            founders_advanced(
                before,
                after,
                run,
                predictions,
                EvolutionStep::Mutate { run: next, order },
            );
        let step = EvolutionStep::Mutate { run: next, order };
        let pool = choose|pool: TaskSpecialistPool| #[trigger]
            pool_scored(run.pool, pool, predictions, run.labels@, run.n_samples as nat)
                && pool_advanced(before, after, pool, run, step);
        assert(pool_advanced(before, after, pool, run, step));
    } else if run.phase == RunPhase::Generation {
        let (predictions, elapsed_ms, order) = choose|
            predictions: Seq<Vec<u8>>,
            elapsed_ms: u64,
            order: MutationOrder,
        | #[trigger]
            generation_advanced(
                before,
                after,
                run,
                predictions,
                elapsed_ms,
                EvolutionStep::Mutate { run: next, order },
            );
        let step = EvolutionStep::Mutate { run: next, order };
        lemma_generation_is_reported(
            before,
            after,
            run,
            predictions,
            elapsed_ms,
            step,
            name,
        );
        let pool = choose|pool: TaskSpecialistPool| #[trigger]
            generation_judged(
                run,
                pool,
                after.reports@.last(),
                predictions,
                before.config.mutations_per_gen,
                elapsed_ms,
            ) && pool_advanced(before, after, pool, run, step);
        assert(pool_advanced(before, after, pool, run, step));
    }
}

proof fn lemma_run_is_reported<P>(
    history: Seq<TciEvolutionDaemon<P>>,
    runs: Seq<EvolutionRun>,
    name: Seq<char>,
    rounds: int,
)
    requires
        is_run_history(history, runs, name, rounds),
        reports_on(history[0].reports@, name).len() == 0,
    ensures
        runs.last().pool.task_name@ == name,
        numbered_to(history.last().reports@, name, runs.last().pool.generation as int),
        runs.last().pool.generation + runs.last().rounds_open() == rounds,
    decreases history.len(),
{
    if history.len() > 1 {
        let (days, steps) = (history.drop_last(), runs.drop_last());
        assert forall|i: int| 0 < i < days.len() implies run_moved(
            days[i - 1],
            steps[i - 1],
            #[trigger] days[i],
            steps[i],
        ) || (steps[i] == steps[i - 1] && moved_elsewhere(days[i - 1], days[i], name)) by {
            assert(days[i] == history[i] && days[i - 1] == history[i - 1]);
            assert(steps[i] == runs[i] && steps[i - 1] == runs[i - 1]);
        }
        lemma_run_is_reported(days, steps, name, rounds);
        let last = history.len() - 1;
        let (before, after) = (history[last - 1], history[last]);
        if run_moved(before, runs[last - 1], after, runs[last]) {
            lemma_run_step(before, runs[last - 1], after, runs[last], name);
        } else {
            lemma_elsewhere_keeps_reports(before, after, name);
        }
    }
}

/// A run of `m` rounds leaves `m` reports on its task, on generation one to generation `m`, the
/// oldest first; what was learned of other tasks before, meanwhile or afterwards does not matter.
pub proof fn law_rounds_leave_reports<P>(
    earlier: Seq<TciEvolutionDaemon<P>>,
    history: Seq<TciEvolutionDaemon<P>>,
    runs: Seq<EvolutionRun>,
    later: Seq<TciEvolutionDaemon<P>>,
    name: Seq<char>,
    rounds: int,
)
    requires
        is_history_elsewhere(earlier, name),
        earlier[0].reports@.len() == 0,
        earlier.last() == history[0],
        is_run_history(history, runs, name, rounds),
        is_history_elsewhere(later, name),
        run_ended(history.last(), runs.last(), later[0]),
    ensures
        numbered_to(later.last().reports@, name, rounds),
{
    law_other_tasks_leave_reports(earlier, name);
    lemma_no_reports(name);
    assert(earlier[0].reports@ =~= Seq::empty());
    lemma_run_is_reported(history, runs, name, rounds);
    let (before, run, after) = (history.last(), runs.last(), later[0]);
    if run.phase == RunPhase::Founders {
        let (predictions, pool_index) = choose|predictions: Seq<Vec<u8>>, pool_index: usize|
         #[trigger]
            founders_advanced(
                before,
                after,
                run,
                predictions,
                EvolutionStep::Finished { pool_index },
            );
        let step = EvolutionStep::Finished { pool_index };
        let pool = choose|pool: TaskSpecialistPool| #[trigger]
            pool_scored(run.pool, pool, predictions, run.labels@, run.n_samples as nat)
                && pool_advanced(before, after, pool, run, step);
        assert(pool_advanced(before, after, pool, run, step));
    } else {
        let (predictions, elapsed_ms, pool_index) = choose|
            predictions: Seq<Vec<u8>>,
            elapsed_ms: u64,
            pool_index: usize,
        | #[trigger]
            generation_advanced(
                before,
                after,
                run,
                predictions,
                elapsed_ms,
                EvolutionStep::Finished { pool_index },
            );
        let step = EvolutionStep::Finished { pool_index };
        lemma_generation_is_reported(
            before,
            after,
            run,
            predictions,
            elapsed_ms,
            step,
            name,
        );
        let pool = choose|pool: TaskSpecialistPool| #[trigger]
            generation_judged(
                run,
                pool,
                after.reports@.last(),
                predictions,
                before.config.mutations_per_gen,
                elapsed_ms,
            ) && pool_advanced(before, after, pool, run, step);
        assert(pool_advanced(before, after, pool, run, step));
    }
    law_other_tasks_leave_reports(later, name);
}

proof fn lemma_no_reports(name: Seq<char>)
    ensures
        reports_on(Seq::empty(), name).len() == 0,
{
    reveal(Seq::filter);
}

/// There are no reports on a task of which no generation was ever judged.
pub proof fn law_no_rounds_no_reports<P>(
    history: Seq<TciEvolutionDaemon<P>>,
    name: Seq<char>,
)
    requires
        is_history_elsewhere(history, name),
        history[0].reports@.len() == 0,
    ensures
        reports_on(history.last().reports@, name).len() == 0,
{
    law_other_tasks_leave_reports(history, name);
    lemma_no_reports(name);
    assert(history[0].reports@ =~= Seq::empty());
}

} // verus!
