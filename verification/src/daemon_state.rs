//! The state of the daemon as bytes, for another session to go on with.

use crate::daemon::{PoolEntry, TciEvolutionDaemon, keys_distinct, keys_name_tasks};
use crate::evolution::{
    EvolutionGenerationReport, SpecialistBrain, TaskSpecialistPool, TciEvolutionConfig,
};
use crate::persistence::{
    BrainRecord, BrainView, EngineRecord, EngineView, brain_record_view, brain_sizes_fit,
    brain_view, engine_of_record, engine_record_view, engine_view, lemma_same_contents,
    record_brain, record_of_engine, restore_brain, saved,
};
use crate::scalar::Scalar;
use crate::tci::TciEngine;
use vstd::prelude::*;

verus! {

/// The fields of a configuration.
pub type ConfigRecord = (u64, u64, u32, u32, u64, u64);

/// The fields of a specialist.
pub type SpecialistRecord = (String, BrainRecord, u32, Option<String>, u32);

/// The fields of a population.
pub type PoolRecord = (String, Vec<SpecialistRecord>, Vec<u32>, u32, u32);

/// The fields of a report.
pub type ReportRecord = (String, u32, u64, u32, u32, u32, u64, u64, u64, u64);

/// The fields of a daemon that are kept; each population stands under its key.
pub type DaemonRecord = (ConfigRecord, EngineRecord, Vec<(String, PoolRecord)>, Vec<ReportRecord>);

/// The contents of a specialist.
pub type SpecialistView = (Seq<char>, BrainView, u32, Option<Seq<char>>, u32);

/// The contents of a population.
pub type PoolView = (Seq<char>, Seq<SpecialistView>, Seq<u32>, u32, u32);

/// The contents of a report.
pub type ReportView = (Seq<char>, u32, u64, u32, u32, u32, u64, u64, u64, u64);

/// The contents of a population and of its key.
pub type EntryView = (Seq<char>, PoolView);

/// The contents of a daemon that are kept.
pub type DaemonView = (ConfigRecord, EngineView, Seq<EntryView>, Seq<ReportView>);

/// The contents of an optional text.
pub open spec fn text_view(t: Option<String>) -> Option<Seq<char>> {
    match t {
        Some(s) => Some(s@),
        None => None,
    }
}

/// The contents of a record.
pub open spec fn specialist_record_view(r: SpecialistRecord) -> SpecialistView {
    (r.0@, brain_record_view(r.1), r.2, text_view(r.3), r.4)
}

/// The contents of a record.
pub open spec fn pool_record_view(r: PoolRecord) -> PoolView {
    (r.0@, r.1@.map_values(|s: SpecialistRecord| specialist_record_view(s)), r.2@, r.3, r.4)
}

/// The contents of a record.
pub open spec fn report_record_view(r: ReportRecord) -> ReportView {
    (r.0@, r.1, r.2, r.3, r.4, r.5, r.6, r.7, r.8, r.9)
}

/// The contents of a record.
pub open spec fn daemon_record_view(r: DaemonRecord) -> DaemonView {
    (
        r.0,
        engine_record_view(r.1),
        r.2@.map_values(|e: (String, PoolRecord)| (e.0@, pool_record_view(e.1))),
        r.3@.map_values(|x: ReportRecord| report_record_view(x)),
    )
}

/// The contents of a configuration.
pub open spec fn config_view(c: TciEvolutionConfig) -> ConfigRecord {
    (
        c.pool_size_per_task as u64,
        c.mutations_per_gen as u64,
        c.mutation_rate.bits,
        c.retire_fraction.bits,
        c.merge_top_k as u64,
        c.seed,
    )
}

/// The contents of a specialist.
pub open spec fn specialist_view(s: SpecialistBrain) -> SpecialistView {
    (s.id@, brain_view(s.brain), s.generation_born, text_view(s.parent_id), s.mutations_applied)
}

/// The contents of a population.
pub open spec fn pool_view(p: TaskSpecialistPool) -> PoolView {
    (
        p.task_name@,
        p.specialists@.map_values(|s: SpecialistBrain| specialist_view(s)),
        p.fitness_scores@.map_values(|x: Scalar| x.bits),
        p.generation,
        p.total_mutations,
    )
}

/// The contents of a report.
pub open spec fn report_view(r: EvolutionGenerationReport) -> ReportView {
    (
        r.task_name@,
        r.generation,
        r.population_size as u64,
        r.best_fitness.bits,
        r.avg_fitness.bits,
        r.worst_fitness.bits,
        r.mutations_spawned as u64,
        r.retired as u64,
        r.merged_to_consensus as u64,
        r.elapsed_ms,
    )
}

/// The contents of a population and of its key.
pub open spec fn entry_view(e: PoolEntry) -> EntryView {
    (e.0@, pool_view(e.1))
}

/// The contents of populations and of their keys.
pub open spec fn entry_views(pools: Seq<PoolEntry>) -> Seq<EntryView> {
    pools.map_values(|e: PoolEntry| entry_view(e))
}

/// Position `i` holds the first population under a key.
pub open spec fn first_under(entries: Seq<EntryView>, key: Seq<char>, i: int) -> bool {
    &&& 0 <= i < entries.len()
    &&& entries[i].0 == key
    &&& forall|j: int| 0 <= j < i ==> (#[trigger] entries[j]).0 != key
}

/// Entries with one more, which takes the place of an earlier one under the same key.
pub open spec fn placed(entries: Seq<EntryView>, entry: EntryView) -> Seq<EntryView> {
    if exists|i: int| first_under(entries, entry.0, i) {
        entries.update(choose|i: int| first_under(entries, entry.0, i), entry)
    } else {
        entries.push(entry)
    }
}

/// The entries that a map keeps: one for each key, the last one.
pub open spec fn gathered(entries: Seq<EntryView>) -> Seq<EntryView>
    decreases entries.len(),
{
    if entries.len() == 0 {
        Seq::empty()
    } else {
        placed(gathered(entries.drop_last()), entries.last())
    }
}

/// What a daemon holds after it was read: one population for each key.
pub open spec fn gathered_state(v: DaemonView) -> DaemonView {
    (v.0, v.1, gathered(v.2), v.3)
}

/// The contents of a daemon that are kept: its configuration, its engine, its populations and its
/// reports.
pub open spec fn daemon_view(d: TciEvolutionDaemon<Vec<u8>>) -> DaemonView {
    (
        config_view(d.config),
        engine_view(d.engine),
        entry_views(d.pools@),
        d.reports@.map_values(|r: EvolutionGenerationReport| report_view(r)),
    )
}

/// The sizes in the contents of a configuration are sizes on this machine.
pub open spec fn config_sizes_fit(v: ConfigRecord) -> bool {
    v.0 <= usize::MAX && v.1 <= usize::MAX && v.4 <= usize::MAX
}

/// The sizes in the contents of a population are sizes on this machine.
pub open spec fn pool_sizes_fit(v: PoolView) -> bool {
    forall|i: int| 0 <= i < v.1.len() ==> brain_sizes_fit((#[trigger] v.1[i]).1)
}

/// The sizes in the contents of a report are sizes on this machine.
pub open spec fn report_sizes_fit(v: ReportView) -> bool {
    v.2 <= usize::MAX && v.6 <= usize::MAX && v.7 <= usize::MAX && v.8 <= usize::MAX
}

/// The sizes in the contents of a daemon are sizes on this machine.
pub open spec fn daemon_sizes_fit(v: DaemonView) -> bool {
    &&& config_sizes_fit(v.0)
    &&& brain_sizes_fit(v.1.0)
    &&& forall|i: int| 0 <= i < v.2.len() ==> pool_sizes_fit((#[trigger] v.2[i]).1)
    &&& forall|i: int| 0 <= i < v.3.len() ==> report_sizes_fit(#[trigger] v.3[i])
}

fn record_config(c: &TciEvolutionConfig) -> (r: ConfigRecord)
    ensures
        r == config_view(*c),
{
    (
        c.pool_size_per_task as u64,
        c.mutations_per_gen as u64,
        c.mutation_rate.to_bits(),
        c.retire_fraction.to_bits(),
        c.merge_top_k as u64,
        c.seed,
    )
}

fn restore_config(r: &ConfigRecord) -> (c: Option<TciEvolutionConfig>)
    ensures
        c is Some <==> config_sizes_fit(*r),
        c matches Some(c) ==> config_view(c) == *r,
{
    let most: u64 = usize::MAX as u64;
    if r.0 > most || r.1 > most || r.4 > most {
        return None;
    }
    Some(
        TciEvolutionConfig {
            pool_size_per_task: r.0 as usize,
            mutations_per_gen: r.1 as usize,
            mutation_rate: Scalar::from_bits(r.2),
            retire_fraction: Scalar::from_bits(r.3),
            merge_top_k: r.4 as usize,
            seed: r.5,
        },
    )
}

fn copy_text(t: &Option<String>) -> (r: Option<String>)
    ensures
        text_view(r) == text_view(*t),
{
    match t {
        Some(s) => Some(s.clone()),
        None => None,
    }
}

fn record_specialist(s: &SpecialistBrain) -> (r: SpecialistRecord)
    ensures
        specialist_record_view(r) == specialist_view(*s),
{
    (
        s.id.clone(),
        record_brain(&s.brain),
        s.generation_born,
        copy_text(&s.parent_id),
        s.mutations_applied,
    )
}

fn restore_specialist(r: &SpecialistRecord) -> (s: Option<SpecialistBrain>)
    ensures
        s is Some <==> brain_sizes_fit(specialist_record_view(*r).1),
        s matches Some(s) ==> specialist_view(s) == specialist_record_view(*r),
{
    match restore_brain(&r.1) {
        Some(brain) => Some(
            SpecialistBrain {
                id: r.0.clone(),
                brain,
                generation_born: r.2,
                parent_id: copy_text(&r.3),
                mutations_applied: r.4,
            },
        ),
        None => None,
    }
}

fn record_pool(p: &TaskSpecialistPool) -> (r: PoolRecord)
    ensures
        pool_record_view(r) == pool_view(*p),
{
    let mut specialists: Vec<SpecialistRecord> = Vec::new();
    let mut i: usize = 0;
    while i < p.specialists.len()
        invariant
            i <= p.specialists@.len(),
            specialists@.len() == i,
            forall|j: int|
                0 <= j < i ==> specialist_record_view(#[trigger] specialists@[j])
                    == specialist_view(p.specialists@[j]),
        decreases p.specialists.len() - i,
    {
        specialists.push(record_specialist(&p.specialists[i]));
        i = i + 1;
    }
    let mut scores: Vec<u32> = Vec::new();
    let mut i: usize = 0;
    while i < p.fitness_scores.len()
        invariant
            i <= p.fitness_scores@.len(),
            scores@.len() == i,
            forall|j: int| 0 <= j < i ==> #[trigger] scores@[j] == p.fitness_scores@[j].bits,
        decreases p.fitness_scores.len() - i,
    {
        scores.push(p.fitness_scores[i].to_bits());
        i = i + 1;
    }
    let r = (p.task_name.clone(), specialists, scores, p.generation, p.total_mutations);
    proof {
        assert(pool_record_view(r).1 =~= pool_view(*p).1);
        assert(pool_record_view(r).2 =~= pool_view(*p).2);
    }
    r
}

fn restore_pool(r: &PoolRecord) -> (p: Option<TaskSpecialistPool>)
    ensures
        p is Some <==> pool_sizes_fit(pool_record_view(*r)),
        p matches Some(p) ==> pool_view(p) == pool_record_view(*r),
{
    let ghost v = pool_record_view(*r);
    let mut specialists: Vec<SpecialistBrain> = Vec::new();
    let mut i: usize = 0;
    while i < r.1.len()
        invariant
            v == pool_record_view(*r),
            i <= r.1@.len(),
            specialists@.len() == i,
            forall|j: int|
                0 <= j < i ==> specialist_view(#[trigger] specialists@[j])
                    == specialist_record_view(r.1@[j]),
            forall|j: int| 0 <= j < i ==> brain_sizes_fit((#[trigger] v.1[j]).1),
        decreases r.1.len() - i,
    {
        match restore_specialist(&r.1[i]) {
            Some(s) => {
                proof {
                    assert(v.1[i as int] == specialist_record_view(r.1@[i as int]));
                }
                specialists.push(s);
            },
            None => {
                proof {
                    assert(v.1[i as int] == specialist_record_view(r.1@[i as int]));
                    assert(!brain_sizes_fit(v.1[i as int].1));
                }
                return None;
            },
        }
        i = i + 1;
    }
    let mut scores: Vec<Scalar> = Vec::new();
    let mut i: usize = 0;
    while i < r.2.len()
        invariant
            i <= r.2@.len(),
            scores@.len() == i,
            forall|j: int| 0 <= j < i ==> (#[trigger] scores@[j]).bits == r.2@[j],
        decreases r.2.len() - i,
    {
        scores.push(Scalar::from_bits(r.2[i]));
        i = i + 1;
    }
    let p = TaskSpecialistPool {
        task_name: r.0.clone(),
        specialists,
        fitness_scores: scores,
        generation: r.3,
        total_mutations: r.4,
    };
    proof {
        assert(pool_view(p).1 =~= v.1);
        assert(pool_view(p).2 =~= v.2);
    }
    Some(p)
}

fn record_report(r: &EvolutionGenerationReport) -> (x: ReportRecord)
    ensures
        report_record_view(x) == report_view(*r),
{
    (
        r.task_name.clone(),
        r.generation,
        r.population_size as u64,
        r.best_fitness.to_bits(),
        r.avg_fitness.to_bits(),
        r.worst_fitness.to_bits(),
        r.mutations_spawned as u64,
        r.retired as u64,
        r.merged_to_consensus as u64,
        r.elapsed_ms,
    )
}

fn restore_report(x: &ReportRecord) -> (r: Option<EvolutionGenerationReport>)
    ensures
        r is Some <==> report_sizes_fit(report_record_view(*x)),
        r matches Some(r) ==> report_view(r) == report_record_view(*x),
{
    let most: u64 = usize::MAX as u64;
    if x.2 > most || x.6 > most || x.7 > most || x.8 > most {
        return None;
    }
    Some(
        EvolutionGenerationReport {
            task_name: x.0.clone(),
            generation: x.1,
            population_size: x.2 as usize,
            best_fitness: Scalar::from_bits(x.3),
            avg_fitness: Scalar::from_bits(x.4),
            worst_fitness: Scalar::from_bits(x.5),
            mutations_spawned: x.6 as usize,
            retired: x.7 as usize,
            merged_to_consensus: x.8 as usize,
            elapsed_ms: x.9,
        },
    )
}

/// The fields of a daemon that are kept.
pub fn record_of_daemon(d: &TciEvolutionDaemon<Vec<u8>>) -> (r: DaemonRecord)
    ensures
        daemon_record_view(r) == daemon_view(*d),
{
    let mut pools: Vec<(String, PoolRecord)> = Vec::new();
    let mut i: usize = 0;
    while i < d.pools.len()
        invariant
            i <= d.pools@.len(),
            pools@.len() == i,
            forall|j: int|
                0 <= j < i ==> (#[trigger] pools@[j]).0@ == d.pools@[j].0@ && pool_record_view(
                    pools@[j].1,
                ) == pool_view(d.pools@[j].1),
        decreases d.pools.len() - i,
    {
        pools.push((d.pools[i].0.clone(), record_pool(&d.pools[i].1)));
        i = i + 1;
    }
    let mut reports: Vec<ReportRecord> = Vec::new();
    let mut i: usize = 0;
    while i < d.reports.len()
        invariant
            i <= d.reports@.len(),
            reports@.len() == i,
            forall|j: int|
                0 <= j < i ==> report_record_view(#[trigger] reports@[j]) == report_view(
                    d.reports@[j],
                ),
        decreases d.reports.len() - i,
    {
        reports.push(record_report(&d.reports[i]));
        i = i + 1;
    }
    let r = (record_config(&d.config), record_of_engine(&d.engine), pools, reports);
    proof {
        assert(daemon_record_view(r).2 =~= daemon_view(*d).2);
        assert(daemon_record_view(r).3 =~= daemon_view(*d).3);
    }
    r
}

/// Puts a population in the place of an earlier one under the same key, or behind all others.
fn place_pool(pools: &mut Vec<PoolEntry>, entry: PoolEntry)
    ensures
        entry_views(final(pools)@) == placed(entry_views(old(pools)@), entry_view(entry)),
{
    let ghost views = entry_views(pools@);
    let ghost view = entry_view(entry);
    let mut i: usize = 0;
    while i < pools.len()
        invariant
            i <= pools@.len(),
            *pools == *old(pools),
            views == entry_views(pools@),
            view == entry_view(entry),
            forall|j: int| 0 <= j < i ==> (#[trigger] views[j]).0 != view.0,
        decreases pools.len() - i,
    {
        if pools[i].0 == entry.0 {
            proof {
                assert(first_under(views, view.0, i as int));
                let k = choose|k: int| first_under(views, view.0, k);
                assert(first_under(views, view.0, k));
                if k < i {
                    assert(views[k].0 != view.0);
                }
                if i < k {
                    assert(views[i as int].0 != view.0);
                }
                assert(entry_views(pools@.update(i as int, entry)) =~= placed(views, view));
            }
            pools.set(i, entry);
            return;
        }
        i = i + 1;
    }
    proof {
        assert(entry_views(pools@.push(entry)) =~= placed(views, view));
    }
    pools.push(entry);
}

/// The daemon with these fields, if its sizes are sizes on this machine. It does not run, and has
/// not counted any generation yet.
pub fn daemon_of_record(r: &DaemonRecord) -> (d: Option<TciEvolutionDaemon<Vec<u8>>>)
    ensures
        d is Some <==> daemon_sizes_fit(daemon_record_view(*r)),
        d matches Some(d) ==> {
            &&& daemon_view(d) == gathered_state(daemon_record_view(*r))
            &&& keys_distinct(d.pools@)
            &&& !d.running
            &&& d.total_generations == 0
        },
{
    let ghost v = daemon_record_view(*r);
    let config = match restore_config(&r.0) {
        Some(c) => c,
        None => {
            return None;
        },
    };
    let engine: TciEngine<Vec<u8>> = match engine_of_record(&r.1) {
        Some(e) => e,
        None => {
            return None;
        },
    };
    let mut pools: Vec<PoolEntry> = Vec::new();
    let mut i: usize = 0;
    proof {
        assert(entry_views(pools@) =~= gathered(v.2.take(0)));
    }
    while i < r.2.len()
        invariant
            v == daemon_record_view(*r),
            i <= r.2@.len(),
            entry_views(pools@) == gathered(v.2.take(i as int)),
            forall|j: int| 0 <= j < i ==> pool_sizes_fit((#[trigger] v.2[j]).1),
        decreases r.2.len() - i,
    {
        proof {
            assert(v.2[i as int] == (r.2@[i as int].0@, pool_record_view(r.2@[i as int].1)));
            assert(v.2.take(i + 1).drop_last() =~= v.2.take(i as int));
            assert(v.2.take(i + 1).last() == v.2[i as int]);
        }
        match restore_pool(&r.2[i].1) {
            Some(p) => {
                place_pool(&mut pools, (r.2[i].0.clone(), p));
            },
            None => {
                return None;
            },
        }
        i = i + 1;
    }
    proof {
        assert(v.2.take(i as int) =~= v.2);
        lemma_gathered_is_distinct(v.2);
        assert forall|a: int, b: int| 0 <= a < b < pools@.len() implies (
        #[trigger] pools@[a]).0@ != (#[trigger] pools@[b]).0@ by {
            assert(gathered(v.2)[a] == entry_view(pools@[a]));
            assert(gathered(v.2)[b] == entry_view(pools@[b]));
        }
    }
    let mut reports: Vec<EvolutionGenerationReport> = Vec::new();
    let mut i: usize = 0;
    while i < r.3.len()
        invariant
            v == daemon_record_view(*r),
            i <= r.3@.len(),
            reports@.len() == i,
            forall|j: int|
                0 <= j < i ==> report_view(#[trigger] reports@[j]) == report_record_view(r.3@[j]),
            forall|j: int| 0 <= j < i ==> report_sizes_fit(#[trigger] v.3[j]),
        decreases r.3.len() - i,
    {
        proof {
            assert(v.3[i as int] == report_record_view(r.3@[i as int]));
        }
        match restore_report(&r.3[i]) {
            Some(x) => {
                reports.push(x);
            },
            None => {
                return None;
            },
        }
        i = i + 1;
    }
    let d = TciEvolutionDaemon {
        config,
        engine,
        pools,
        reports,
        running: false,
        total_generations: 0,
    };
    proof {
        assert(daemon_view(d).2 == gathered_state(v).2);
        assert(daemon_view(d).3 =~= v.3);
    }
    Some(d)
}

/// The bytes of a daemon.
pub uninterp spec fn encoded_daemon(daemon: DaemonView) -> Seq<u8>;

/// The daemon that bytes stand for, if they do.
pub uninterp spec fn decoded_daemon(bytes: Seq<u8>) -> Option<DaemonView>;

/// The bytes stand for this daemon.
pub open spec fn bytes_hold_daemon(bytes: Seq<u8>, daemon: DaemonView) -> bool {
    decoded_daemon(bytes) == Some(daemon)
}

/// The daemon has been read from the bytes: it holds one population for each key, does not run,
/// and has not counted any generation yet.
pub open spec fn daemon_read(bytes: Seq<u8>, d: TciEvolutionDaemon<Vec<u8>>) -> bool {
    &&& decoded_daemon(bytes) matches Some(v) && daemon_view(d) == gathered_state(v)
    &&& keys_distinct(d.pools@)
    &&& !d.running
    &&& d.total_generations == 0
}

/// What a decoder gives: a daemon, or nothing.
pub open spec fn daemon_result_view(r: Result<DaemonRecord, String>) -> Option<DaemonView> {
    match r {
        Ok(record) => Some(daemon_record_view(record)),
        Err(_) => None,
    }
}

/// `bincode::serialize` of the fields of a daemon: it gives bytes, because no size is limited and
/// every length is known beforehand. They depend on the contents of the fields alone, and stand
/// for those contents. How they are laid out is left unsaid.
#[verifier::external_body]
fn encode_daemon(record: &DaemonRecord) -> (r: Result<Vec<u8>, String>)
    ensures
        r is Ok,
        r matches Ok(bytes) ==> bytes@ == encoded_daemon(daemon_record_view(*record)),
        r matches Ok(bytes) ==> bytes_hold_daemon(bytes@, daemon_record_view(*record)),
{
    bincode::serialize(record).map_err(|e| e.to_string())
}

/// `bincode::deserialize` into the fields of a daemon: whether it gives a daemon, and which,
/// depends on the bytes alone. Which bytes stand for no daemon, and the text of an error, is left
/// unsaid.
#[verifier::external_body]
fn decode_daemon(bytes: &[u8]) -> (r: Result<DaemonRecord, String>)
    ensures
        daemon_result_view(r) == decoded_daemon(bytes@),
{
    bincode::deserialize(bytes).map_err(|e| e.to_string())
}

/// The daemon that a decoder has given, if its sizes are sizes on this machine.
pub fn loaded_daemon(decoded: Result<DaemonRecord, String>) -> (r: Result<
    TciEvolutionDaemon<Vec<u8>>,
    String,
>)
    ensures
        match decoded {
            Ok(record) => if daemon_sizes_fit(daemon_record_view(record)) {
                r matches Ok(d) && daemon_view(d) == gathered_state(daemon_record_view(record))
                    && keys_distinct(d.pools@) && !d.running && d.total_generations == 0
            } else {
                r matches Err(e) && e@
                    == "Deserialization failed: "@ + "a size is too large for this machine"@
            },
            Err(reason) => r matches Err(e) && e@ == "Deserialization failed: "@ + reason@,
        },
{
    let mut out: String = "Deserialization failed: ".to_owned();
    match decoded {
        Ok(record) => match daemon_of_record(&record) {
            Some(d) => Ok(d),
            None => {
                out.append("a size is too large for this machine");
                Err(out)
            },
        },
        Err(reason) => {
            out.append(reason.as_str());
            Err(out)
        },
    }
}

impl TciEvolutionDaemon<Vec<u8>> {
    /// The daemon as bytes: its configuration, its engine, its populations and its reports.
    pub fn to_bytes(&self) -> (r: Result<Vec<u8>, String>)
        ensures
            r matches Ok(bytes) && bytes@ == encoded_daemon(daemon_view(*self))
                && bytes_hold_daemon(bytes@, daemon_view(*self)),
    {
        saved(encode_daemon(&record_of_daemon(self)), "Serialization failed: ")
    }

    /// The daemon that bytes stand for. It does not run, and has not counted any generation yet.
    pub fn from_bytes(bytes: &[u8]) -> (r: Result<TciEvolutionDaemon<Vec<u8>>, String>)
        ensures
            match decoded_daemon(bytes@) {
                Some(v) => if daemon_sizes_fit(v) {
                    r matches Ok(d) && daemon_read(bytes@, d)
                } else {
                    r is Err
                },
                None => r is Err,
            },
            r matches Err(e) ==> "Deserialization failed: "@.is_prefix_of(e@),
    {
        let r = loaded_daemon(decode_daemon(bytes));
        proof {
            assert(r matches Err(e) ==> "Deserialization failed: "@.is_prefix_of(e@));
        }
        r
    }
}

/// The populations that are read stand under different keys.
pub(crate) proof fn lemma_gathered_is_distinct(entries: Seq<EntryView>)
    ensures
        forall|a: int, b: int|
            0 <= a < b < gathered(entries).len() ==> (#[trigger] gathered(entries)[a]).0 != (
            #[trigger] gathered(entries)[b]).0,
    decreases entries.len(),
{
    if entries.len() > 0 {
        lemma_gathered_is_distinct(entries.drop_last());
        let (before, p) = (gathered(entries.drop_last()), entries.last());
        let after = placed(before, p);
        assert forall|a: int, b: int| 0 <= a < b < after.len() implies (#[trigger] after[a]).0 != (
        #[trigger] after[b]).0 by {
            if exists|i: int| first_under(before, p.0, i) {
                let i = choose|i: int| first_under(before, p.0, i);
                assert(after[a].0 == before[a].0);
                assert(after[b].0 == before[b].0);
            } else if b == before.len() && before[a].0 == p.0 {
                lemma_some_first(before, p.0, a);
            }
        }
    }
}

proof fn lemma_some_first(entries: Seq<EntryView>, key: Seq<char>, a: int)
    requires
        0 <= a < entries.len(),
        entries[a].0 == key,
    ensures
        exists|i: int| first_under(entries, key, i),
    decreases a,
{
    if forall|j: int| 0 <= j < a ==> (#[trigger] entries[j]).0 != key {
        assert(first_under(entries, key, a));
    } else {
        let j = choose|j: int| 0 <= j < a && (#[trigger] entries[j]).0 == key;
        lemma_some_first(entries, key, j);
    }
}

/// Populations under different keys are all read.
proof fn lemma_gathered_keeps_distinct(entries: Seq<EntryView>)
    requires
        forall|a: int, b: int|
            0 <= a < b < entries.len() ==> (#[trigger] entries[a]).0 != (#[trigger] entries[b]).0,
    ensures
        gathered(entries) == entries,
    decreases entries.len(),
{
    if entries.len() > 0 {
        let rest = entries.drop_last();
        lemma_gathered_keeps_distinct(rest);
        assert forall|i: int| !first_under(rest, entries.last().0, i) by {
            if first_under(rest, entries.last().0, i) {
                assert(entries[i].0 != entries[entries.len() - 1].0);
            }
        }
    }
    assert(gathered(entries) =~= entries);
}

/// What is read back is what was written: bytes that were made of a daemon can be read, and the
/// daemon that is read from them has the same configuration, engine, populations under the same
/// keys, and reports.
pub proof fn law_daemon_is_read_back(
    written: TciEvolutionDaemon<Vec<u8>>,
    bytes: Seq<u8>,
    read: TciEvolutionDaemon<Vec<u8>>,
)
    requires
        written.wf(),
        bytes_hold_daemon(bytes, daemon_view(written)),
    ensures
        daemon_sizes_fit(daemon_view(written)),
        daemon_read(bytes, read) ==> {
            &&& read.config == written.config
            &&& engine_view(read.engine) == engine_view(written.engine)
            &&& read.pools@.len() == written.pools@.len()
            &&& forall|i: int|
                0 <= i < read.pools@.len() ==> entry_view(#[trigger] read.pools@[i]) == entry_view(
                    written.pools@[i],
                )
            &&& read.reports@.len() == written.reports@.len()
            &&& forall|i: int|
                0 <= i < read.reports@.len() ==> report_view(#[trigger] read.reports@[i])
                    == report_view(written.reports@[i])
            &&& read.wf()
            &&& keys_name_tasks(written.pools@) ==> keys_name_tasks(read.pools@)
        },
{
    let views = entry_views(written.pools@);
    assert forall|a: int, b: int| 0 <= a < b < views.len() implies (#[trigger] views[a]).0 != (
    #[trigger] views[b]).0 by {
        assert(written.pools@[a].0@ != written.pools@[b].0@);
    }
    lemma_gathered_keeps_distinct(views);
    if daemon_read(bytes, read) {
        let (a, b) = (daemon_view(written), daemon_view(read));
        assert(b == gathered_state(a));
        assert(b.2 == views);
        lemma_same_contents(written.engine, read.engine);
        assert(b.2.len() == read.pools@.len());
        assert forall|i: int| 0 <= i < read.pools@.len() implies entry_view(
            #[trigger] read.pools@[i],
        ) == entry_view(written.pools@[i]) by {
            assert(b.2[i] == views[i]);
        }
        assert(a.3.len() == b.3.len());
        assert forall|i: int| 0 <= i < read.reports@.len() implies report_view(
            #[trigger] read.reports@[i],
        ) == report_view(written.reports@[i]) by {
            assert(a.3[i] == b.3[i]);
        }
    }
}

} // verus!
