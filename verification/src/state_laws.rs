//! What saving is for: nothing of a snapshot, population or report is lost on the way, and of
//! several entries under a key the last one counts.

use crate::daemon::TciEvolutionDaemon;
use crate::daemon_state::{
    DaemonRecord, EntryView, PoolRecord, daemon_read, daemon_record_view, daemon_view,
    decoded_daemon, entry_view, first_under, gathered, lemma_gathered_is_distinct, placed,
    pool_record_view, pool_view, report_view, specialist_view,
};
use crate::evolution::{EvolutionGenerationReport, SpecialistBrain, TaskSpecialistPool};
use crate::persistence::{EngineRecord, brain_view, engine_record_view, engine_view, task_view};
use crate::tci::{TaskSnapshot, TciEngine, TernaryBrain};
use vstd::prelude::*;

verus! {

/// Brains with the same contents have the same shape and weights.
pub proof fn law_contents_of_a_brain(a: TernaryBrain, b: TernaryBrain)
    requires
        brain_view(a) == brain_view(b),
    ensures
        a.image_dim == b.image_dim,
        a.n_classes == b.n_classes,
        a.weights@ == b.weights@,
{
}

/// Snapshots with the same contents have the same name, weights, signature and accuracy.
pub proof fn law_contents_of_a_snapshot(a: TaskSnapshot<Vec<u8>>, b: TaskSnapshot<Vec<u8>>)
    requires
        task_view(a) == task_view(b),
    ensures
        a.name@ == b.name@,
        a.weights@ == b.weights@,
        a.prototype@ == b.prototype@,
        a.train_accuracy == b.train_accuracy,
{
}

/// Engines with the same contents have the same template, consensus and snapshots, in the same
/// order.
pub proof fn law_contents_of_an_engine(a: TciEngine<Vec<u8>>, b: TciEngine<Vec<u8>>, t: int)
    requires
        engine_view(a) == engine_view(b),
    ensures
        a.template.image_dim == b.template.image_dim,
        a.template.n_classes == b.template.n_classes,
        a.template.weights@ == b.template.weights@,
        a.consensus@ == b.consensus@,
        a.tasks@.len() == b.tasks@.len(),
        0 <= t < a.tasks@.len() ==> {
            &&& a.tasks@[t].name@ == b.tasks@[t].name@
            &&& a.tasks@[t].weights@ == b.tasks@[t].weights@
            &&& a.tasks@[t].prototype@ == b.tasks@[t].prototype@
            &&& a.tasks@[t].train_accuracy == b.tasks@[t].train_accuracy
        },
{
    crate::persistence::lemma_same_contents(a, b);
    if 0 <= t < a.tasks@.len() {
        assert(task_view(b.tasks@[t]) == task_view(a.tasks@[t]));
        law_contents_of_a_snapshot(a.tasks@[t], b.tasks@[t]);
    }
}

/// Specialists with the same contents have the same identifier, brain, age, parent and number of
/// mutations.
pub proof fn law_contents_of_a_specialist(a: SpecialistBrain, b: SpecialistBrain)
    requires
        specialist_view(a) == specialist_view(b),
    ensures
        a.id@ == b.id@,
        a.brain.image_dim == b.brain.image_dim,
        a.brain.n_classes == b.brain.n_classes,
        a.brain.weights@ == b.brain.weights@,
        a.generation_born == b.generation_born,
        a.mutations_applied == b.mutations_applied,
        a.parent_id is Some <==> b.parent_id is Some,
        a.parent_id matches Some(p) ==> (b.parent_id matches Some(q) && p@ == q@),
{
}

/// Populations with the same contents have the same task, specialists and fitness in the same
/// order, and counters.
pub proof fn law_contents_of_a_population(a: TaskSpecialistPool, b: TaskSpecialistPool, i: int)
    requires
        pool_view(a) == pool_view(b),
    ensures
        a.task_name@ == b.task_name@,
        a.generation == b.generation,
        a.total_mutations == b.total_mutations,
        a.specialists@.len() == b.specialists@.len(),
        a.fitness_scores@ == b.fitness_scores@,
        0 <= i < a.specialists@.len() ==> {
            &&& a.specialists@[i].id@ == b.specialists@[i].id@
            &&& a.specialists@[i].brain.weights@ == b.specialists@[i].brain.weights@
            &&& a.specialists@[i].generation_born == b.specialists@[i].generation_born
            &&& a.specialists@[i].mutations_applied == b.specialists@[i].mutations_applied
            &&& a.specialists@[i].parent_id is Some <==> b.specialists@[i].parent_id is Some
        },
{
    let (x, y) = (pool_view(a), pool_view(b));
    assert(x.1.len() == a.specialists@.len() && y.1.len() == b.specialists@.len());
    assert(x.2.len() == a.fitness_scores@.len() && y.2.len() == b.fitness_scores@.len());
    assert forall|k: int| 0 <= k < a.fitness_scores@.len() implies a.fitness_scores@[k]
        == b.fitness_scores@[k] by {
        assert(x.2[k] == y.2[k]);
    }
    assert(a.fitness_scores@ =~= b.fitness_scores@);
    if 0 <= i < a.specialists@.len() {
        assert(x.1[i] == y.1[i]);
        law_contents_of_a_specialist(a.specialists@[i], b.specialists@[i]);
    }
}

/// Entries with the same contents have the same key and population.
pub proof fn law_contents_of_an_entry(
    a: (String, TaskSpecialistPool),
    b: (String, TaskSpecialistPool),
)
    requires
        entry_view(a) == entry_view(b),
    ensures
        a.0@ == b.0@,
        pool_view(a.1) == pool_view(b.1),
{
}

/// Reports with the same contents say the same.
pub proof fn law_contents_of_a_report(
    a: EvolutionGenerationReport,
    b: EvolutionGenerationReport,
)
    requires
        report_view(a) == report_view(b),
    ensures
        a.task_name@ == b.task_name@,
        a.generation == b.generation,
        a.population_size == b.population_size,
        a.best_fitness == b.best_fitness,
        a.avg_fitness == b.avg_fitness,
        a.worst_fitness == b.worst_fitness,
        a.mutations_spawned == b.mutations_spawned,
        a.retired == b.retired,
        a.merged_to_consensus == b.merged_to_consensus,
        a.elapsed_ms == b.elapsed_ms,
{
}

/// Of several entries under a key the last one is read: each entry behind which its key does not
/// come again is there, nothing else is, and no key is there twice.
pub proof fn law_last_entry_is_read(entries: Seq<EntryView>, i: int)
    ensures
        0 <= i < entries.len() && (forall|j: int|
            i < j < entries.len() ==> (#[trigger] entries[j]).0 != entries[i].0)
            ==> gathered(entries).contains(entries[i]),
        forall|e: EntryView| #[trigger]
            gathered(entries).contains(e) ==> entries.contains(e),
        forall|a: int, b: int|
            0 <= a < b < gathered(entries).len() ==> (#[trigger] gathered(entries)[a]).0 != (
            #[trigger] gathered(entries)[b]).0,
    decreases entries.len(),
{
    lemma_gathered_is_distinct(entries);
    if entries.len() > 0 {
        let (rest, last) = (entries.drop_last(), entries.last());
        let (before, after) = (gathered(rest), gathered(entries));
        law_last_entry_is_read(rest, i);
        let known = exists|k: int| first_under(before, last.0, k);
        let at = choose|k: int| first_under(before, last.0, k);
        assert(after == placed(before, last));
        if known {
            assert(first_under(before, last.0, at));
            assert(after[at] == last);
        } else {
            assert(after[before.len() as int] == last);
        }
        assert forall|e: EntryView| #[trigger] after.contains(e) implies entries.contains(e) by {
            let p = choose|p: int| 0 <= p < after.len() && after[p] == e;
            if e != last {
                assert(before[p] == e);
                assert(before.contains(e));
                let q = choose|q: int| 0 <= q < rest.len() && rest[q] == e;
                assert(entries[q] == e);
            } else {
                assert(entries[entries.len() - 1] == e);
            }
        }
        if 0 <= i < entries.len() && (forall|j: int|
            i < j < entries.len() ==> (#[trigger] entries[j]).0 != entries[i].0) {
            if i < rest.len() {
                assert(entries[entries.len() - 1].0 != entries[i].0);
                assert forall|j: int| i < j < rest.len() implies (#[trigger] rest[j]).0
                    != rest[i].0 by {
                    assert(entries[j].0 != entries[i].0);
                }
                assert(before.contains(rest[i]));
                let p = choose|p: int| 0 <= p < before.len() && before[p] == rest[i];
                assert(after[p] == entries[i]);
            }
        }
    }
}

/// A record of an engine stands for what it holds: the shape and weights of the template, every
/// snapshot in its place with its name, weights, signature and accuracy, and the consensus.
pub proof fn law_record_of_an_engine(r: EngineRecord, t: int)
    ensures
        engine_record_view(r).0.0 == r.0.0,
        engine_record_view(r).0.1 == r.0.1,
        engine_record_view(r).0.2 == r.0.2@,
        engine_record_view(r).1.len() == r.1@.len(),
        engine_record_view(r).2 == r.2@,
        0 <= t < r.1@.len() ==> {
            &&& engine_record_view(r).1[t].0 == r.1@[t].0@
            &&& engine_record_view(r).1[t].1 == r.1@[t].1@
            &&& engine_record_view(r).1[t].2 == r.1@[t].2@
            &&& engine_record_view(r).1[t].3 == r.1@[t].3
        },
{
}

/// What is kept of an engine are its own fields, each in its place.
pub proof fn law_kept_fields_of_an_engine(e: TciEngine<Vec<u8>>, t: int)
    ensures
        engine_view(e).0.0 == e.template.image_dim,
        engine_view(e).0.1 == e.template.n_classes,
        engine_view(e).0.2 == e.template.weights@,
        engine_view(e).1.len() == e.tasks@.len(),
        engine_view(e).2 == e.consensus@,
        0 <= t < e.tasks@.len() ==> {
            &&& engine_view(e).1[t].0 == e.tasks@[t].name@
            &&& engine_view(e).1[t].1 == e.tasks@[t].weights@
            &&& engine_view(e).1[t].2 == e.tasks@[t].prototype@
            &&& engine_view(e).1[t].3 == e.tasks@[t].train_accuracy.bits
        },
{
}

/// A record of a population stands for what it holds: its task, its specialists and fitness in
/// their places, and its counters.
pub proof fn law_record_of_a_population(r: PoolRecord, i: int)
    ensures
        pool_record_view(r).0 == r.0@,
        pool_record_view(r).1.len() == r.1@.len(),
        pool_record_view(r).2 == r.2@,
        pool_record_view(r).3 == r.3,
        pool_record_view(r).4 == r.4,
        0 <= i < r.1@.len() ==> {
            &&& pool_record_view(r).1[i].0 == r.1@[i].0@
            &&& pool_record_view(r).1[i].1.0 == r.1@[i].1.0
            &&& pool_record_view(r).1[i].1.1 == r.1@[i].1.1
            &&& pool_record_view(r).1[i].1.2 == r.1@[i].1.2@
            &&& pool_record_view(r).1[i].2 == r.1@[i].2
            &&& pool_record_view(r).1[i].3 is Some <==> r.1@[i].3 is Some
            &&& r.1@[i].3 matches Some(p) ==> pool_record_view(r).1[i].3 == Some(p@)
            &&& pool_record_view(r).1[i].4 == r.1@[i].4
        },
{
}

/// What is kept of a population are its own fields, each in its place.
pub proof fn law_kept_fields_of_a_population(p: TaskSpecialistPool, i: int)
    ensures
        pool_view(p).0 == p.task_name@,
        pool_view(p).1.len() == p.specialists@.len(),
        pool_view(p).2.len() == p.fitness_scores@.len(),
        pool_view(p).3 == p.generation,
        pool_view(p).4 == p.total_mutations,
        0 <= i < p.fitness_scores@.len() ==> pool_view(p).2[i] == p.fitness_scores@[i].bits,
        0 <= i < p.specialists@.len() ==> {
            &&& pool_view(p).1[i].0 == p.specialists@[i].id@
            &&& pool_view(p).1[i].1.0 == p.specialists@[i].brain.image_dim
            &&& pool_view(p).1[i].1.1 == p.specialists@[i].brain.n_classes
            &&& pool_view(p).1[i].1.2 == p.specialists@[i].brain.weights@
            &&& pool_view(p).1[i].2 == p.specialists@[i].generation_born
            &&& p.specialists@[i].parent_id is None ==> pool_view(p).1[i].3 is None
            &&& p.specialists@[i].parent_id matches Some(q) ==> pool_view(p).1[i].3 == Some(q@)
            &&& pool_view(p).1[i].4 == p.specialists@[i].mutations_applied
        },
{
}

/// A record of a daemon stands for what it holds: its configuration, its engine, every population
/// under its key and every report, in their places.
pub proof fn law_record_of_a_daemon(r: DaemonRecord, i: int)
    ensures
        daemon_record_view(r).0 == r.0,
        daemon_record_view(r).1 == engine_record_view(r.1),
        daemon_record_view(r).2.len() == r.2@.len(),
        daemon_record_view(r).3.len() == r.3@.len(),
        0 <= i < r.2@.len() ==> daemon_record_view(r).2[i].0 == r.2@[i].0@ && daemon_record_view(
            r,
        ).2[i].1 == pool_record_view(r.2@[i].1),
        0 <= i < r.3@.len() ==> {
            let (v, x) = (daemon_record_view(r).3[i], r.3@[i]);
            v.0 == x.0@ && v.1 == x.1 && v.2 == x.2 && v.3 == x.3 && v.4 == x.4 && v.5 == x.5
                && v.6 == x.6 && v.7 == x.7 && v.8 == x.8 && v.9 == x.9
        },
{
}

/// What is kept of a daemon are its configuration, its engine, every population under its key and
/// every report, each in its place.
pub proof fn law_kept_fields_of_a_daemon(d: TciEvolutionDaemon<Vec<u8>>, i: int)
    ensures
        daemon_view(d).0.0 == d.config.pool_size_per_task,
        daemon_view(d).0.1 == d.config.mutations_per_gen,
        daemon_view(d).0.2 == d.config.mutation_rate.bits,
        daemon_view(d).0.3 == d.config.retire_fraction.bits,
        daemon_view(d).0.4 == d.config.merge_top_k,
        daemon_view(d).0.5 == d.config.seed,
        daemon_view(d).1 == engine_view(d.engine),
        daemon_view(d).2.len() == d.pools@.len(),
        daemon_view(d).3.len() == d.reports@.len(),
        0 <= i < d.pools@.len() ==> daemon_view(d).2[i].0 == d.pools@[i].0@ && daemon_view(
            d,
        ).2[i].1 == pool_view(d.pools@[i].1),
        0 <= i < d.reports@.len() ==> {
            let (v, x) = (daemon_view(d).3[i], d.reports@[i]);
            v.0 == x.task_name@ && v.1 == x.generation && v.2 == x.population_size && v.3
                == x.best_fitness.bits && v.4 == x.avg_fitness.bits && v.5 == x.worst_fitness.bits
                && v.6 == x.mutations_spawned && v.7 == x.retired && v.8 == x.merged_to_consensus
                && v.9 == x.elapsed_ms
        },
{
}

/// A daemon that was read does not run, has not counted any generation, and holds what the bytes
/// stand for, one population for each key.
pub proof fn law_read_daemon_starts_afresh(bytes: Seq<u8>, d: TciEvolutionDaemon<Vec<u8>>)
    requires
        daemon_read(bytes, d),
    ensures
        !d.running,
        d.total_generations == 0,
        forall|i: int, j: int|
            0 <= i < j < d.pools@.len() ==> (#[trigger] d.pools@[i]).0@ != (
            #[trigger] d.pools@[j]).0@,
        decoded_daemon(bytes) is Some,
        decoded_daemon(bytes) matches Some(v) ==> daemon_view(d).0 == v.0 && daemon_view(d).1
            == v.1 && daemon_view(d).2 == gathered(v.2) && daemon_view(d).3 == v.3,
{
}

} // verus!
