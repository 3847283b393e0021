//! Counters of the organism: how often each tier has answered, and how long it took.

use vstd::prelude::*;

verus! {

/// Counts by name.
#[derive(Debug, Clone)]
pub struct HitCounts {
    pub entries: Vec<(String, u64)>,
}

/// Position `i` holds the entry of `name`.
pub open spec fn is_entry(entries: Seq<(String, u64)>, name: Seq<char>, i: int) -> bool {
    0 <= i < entries.len() && entries[i].0@ == name
}

/// The sum of all counts.
pub open spec fn sum_of_counts(entries: Seq<(String, u64)>) -> nat
    decreases entries.len(),
{
    if entries.len() == 0 {
        0
    } else {
        sum_of_counts(entries.drop_last()) + entries.last().1 as nat
    }
}

impl View for HitCounts {
    type V = Map<Seq<char>, u64>;

    open spec fn view(&self) -> Map<Seq<char>, u64> {
        Map::new(
            |name: Seq<char>| exists|i: int| is_entry(self.entries@, name, i),
            |name: Seq<char>| self.entries@[choose|i: int| is_entry(self.entries@, name, i)].1,
        )
    }
}

impl HitCounts {
    /// No name has two entries.
    pub open spec fn wf(self) -> bool {
        forall|i: int, j: int|
            0 <= i < j < self.entries@.len() ==> (#[trigger] self.entries@[i]).0@ != (
            #[trigger] self.entries@[j]).0@
    }

    /// The count of a name; zero where it was never counted.
    pub open spec fn count_of(self, name: Seq<char>) -> u64 {
        if self@.dom().contains(name) {
            self@[name]
        } else {
            0
        }
    }

    proof fn lemma_entry(self, name: Seq<char>, i: int)
        requires
            self.wf(),
            is_entry(self.entries@, name, i),
        ensures
            self@.dom().contains(name),
            self@[name] == self.entries@[i].1,
    {
        let c = choose|c: int| is_entry(self.entries@, name, c);
        assert(is_entry(self.entries@, name, c));
        if c < i {
            assert(self.entries@[c].0@ != self.entries@[i].0@);
        }
        if i < c {
            assert(self.entries@[i].0@ != self.entries@[c].0@);
        }
    }

    /// No counts.
    pub fn new() -> (r: HitCounts)
        ensures
            r.wf(),
            r@ == Map::<Seq<char>, u64>::empty(),
            r.entries@.len() == 0,
    {
        let r = HitCounts { entries: Vec::new() };
        proof {
            assert(r@ =~= Map::<Seq<char>, u64>::empty());
        }
        r
    }

    fn find(&self, name: &str) -> (r: Option<usize>)
        ensures
            r matches Some(i) ==> is_entry(self.entries@, name@, i as int),
            r is None ==> forall|i: int| !is_entry(self.entries@, name@, i),
    {
        let wanted: String = name.to_owned();
        let mut i: usize = 0;
        while i < self.entries.len()
            invariant
                i <= self.entries@.len(),
                wanted@ == name@,
                forall|j: int| 0 <= j < i ==> !is_entry(self.entries@, name@, j),
            decreases self.entries.len() - i,
        {
            if self.entries[i].0 == wanted {
                return Some(i);
            }
            i = i + 1;
        }
        None
    }

    /// The count of a name, if it was ever counted.
    pub fn get(&self, name: &str) -> (r: Option<u64>)
        requires
            self.wf(),
        ensures
            self@.dom().contains(name@) ==> r == Some(self@[name@]),
            !self@.dom().contains(name@) ==> r is None,
    {
        match self.find(name) {
            Some(i) => {
                proof {
                    self.lemma_entry(name@, i as int);
                }
                Some(self.entries[i].1)
            },
            None => None,
        }
    }

    /// Counts a name once more.
    pub fn increment(&mut self, name: &str)
        requires
            old(self).wf(),
            old(self).count_of(name@) < u64::MAX,
        ensures
            final(self).wf(),
            final(self)@ == old(self)@.insert(name@, (old(self).count_of(name@) + 1) as u64),
            sum_of_counts(final(self).entries@) == sum_of_counts(old(self).entries@) + 1,
    {
        let ghost before = *self;
        match self.find(name) {
            Some(i) => {
                proof {
                    before.lemma_entry(name@, i as int);
                }
                let n: u64 = self.entries[i].1;
                let key: String = self.entries[i].0.clone();
                self.entries.set(i, (key, n + 1));
                proof {
                    assert forall|j: int, k: int|
                        0 <= j < k < self.entries@.len() implies (#[trigger] self.entries@[j]).0@
                        != (#[trigger] self.entries@[k]).0@ by {
                        assert(self.entries@[j].0@ == before.entries@[j].0@);
                        assert(self.entries@[k].0@ == before.entries@[k].0@);
                    }
                    lemma_sum_update(before.entries@, i as int, self.entries@[i as int]);
                    assert(self.entries@ =~= before.entries@.update(
                        i as int,
                        self.entries@[i as int],
                    ));
                    lemma_counted(before, *self, name@, i as int);
                }
            },
            None => {
                self.entries.push((name.to_owned(), 1));
                proof {
                    assert(self.entries@.drop_last() =~= before.entries@);
                    assert forall|j: int, k: int|
                        0 <= j < k < self.entries@.len() implies (#[trigger] self.entries@[j]).0@
                        != (#[trigger] self.entries@[k]).0@ by {
                        assert(self.entries@[j] == before.entries@[j]);
                        if k == before.entries@.len() {
                            assert(!is_entry(before.entries@, name@, j));
                        } else {
                            assert(self.entries@[k] == before.entries@[k]);
                        }
                    }
                    assert(!before@.dom().contains(name@));
                    lemma_counted(before, *self, name@, before.entries@.len() as int);
                }
            },
        }
    }

    /// Counts equal to these.
    pub fn copy(&self) -> (r: HitCounts)
        ensures
            r.entries@ == self.entries@,
            r@ == self@,
            self.wf() ==> r.wf(),
    {
        let mut entries: Vec<(String, u64)> = Vec::new();
        let mut i: usize = 0;
        while i < self.entries.len()
            invariant
                i <= self.entries@.len(),
                entries@ == self.entries@.take(i as int),
            decreases self.entries.len() - i,
        {
            entries.push((self.entries[i].0.clone(), self.entries[i].1));
            i = i + 1;
            proof {
                assert(entries@ =~= self.entries@.take(i as int));
            }
        }
        proof {
            assert(self.entries@.take(i as int) =~= self.entries@);
        }
        HitCounts { entries }
    }
}

/// Counting a name once more changes its entry only.
proof fn lemma_counted(before: HitCounts, after: HitCounts, name: Seq<char>, k: int)
    requires
        before.wf(),
        after.wf(),
        before.count_of(name) < u64::MAX,
        before.entries@.len() <= after.entries@.len(),
        forall|i: int|
            0 <= i < before.entries@.len() ==> (#[trigger] after.entries@[i]).0@
                == before.entries@[i].0@ && (before.entries@[i].0@ != name ==> after.entries@[i].1
                == before.entries@[i].1),
        forall|i: int|
            before.entries@.len() <= i < after.entries@.len() ==> (
            #[trigger] after.entries@[i]).0@ == name,
        is_entry(after.entries@, name, k),
        after.entries@[k].1 == before.count_of(name) + 1,
    ensures
        after@ == before@.insert(name, (before.count_of(name) + 1) as u64),
{
    after.lemma_entry(name, k);
    let want = before@.insert(name, (before.count_of(name) + 1) as u64);
    assert forall|n: Seq<char>| after@.dom().contains(n) <==> want.dom().contains(n) by {
        if after@.dom().contains(n) && n != name {
            let i = choose|i: int| is_entry(after.entries@, n, i);
            assert(is_entry(before.entries@, n, i));
        }
        if before@.dom().contains(n) {
            let i = choose|i: int| is_entry(before.entries@, n, i);
            assert(after.entries@[i].0@ == n);
            assert(is_entry(after.entries@, n, i));
        }
    }
    assert forall|n: Seq<char>| #[trigger] after@.dom().contains(n) implies after@[n]
        == want[n] by {
        if n != name {
            let i = choose|i: int| is_entry(after.entries@, n, i);
            assert(is_entry(before.entries@, n, i));
            after.lemma_entry(n, i);
            before.lemma_entry(n, i);
        }
    }
    assert(after@ =~= want);
}

proof fn lemma_sum_update(entries: Seq<(String, u64)>, i: int, e: (String, u64))
    requires
        0 <= i < entries.len(),
    ensures
        sum_of_counts(entries.update(i, e)) == sum_of_counts(entries) - entries[i].1 + e.1,
    decreases entries.len(),
{
    if i == entries.len() - 1 {
        assert(entries.update(i, e).drop_last() =~= entries.drop_last());
    } else {
        lemma_sum_update(entries.drop_last(), i, e);
        assert(entries.update(i, e).drop_last() =~= entries.drop_last().update(i, e));
    }
}

/// The counters.
#[derive(Debug)]
pub struct HybridStats {
    pub specialist_hits: u64,
    pub core_hits: u64,
    pub total_specialist_latency_ms: u64,
    pub total_core_latency_ms: u64,
    pub per_specialist_hits: HitCounts,
}

/// The counters at one moment, with mean latencies.
#[derive(Debug, Clone)]
pub struct StatsSnapshot {
    pub specialist_hits: u64,
    pub core_hits: u64,
    pub avg_specialist_latency_ms: u64,
    pub avg_core_latency_ms: u64,
    pub per_specialist: HitCounts,
}

/// The whole part of the mean; zero where nothing was counted.
pub open spec fn mean_of(total: u64, hits: u64) -> u64 {
    if hits == 0 {
        0
    } else {
        total / hits
    }
}

/// The sum of two counters, which start again at zero after their largest value.
pub open spec fn wrapping_sum(a: u64, b: u64) -> int {
    (a + b) % 0x1_0000_0000_0000_0000
}

impl Default for HybridStats {
    fn default() -> (r: HybridStats)
        ensures
            r.specialist_hits == 0,
            r.core_hits == 0,
            r.total_specialist_latency_ms == 0,
            r.total_core_latency_ms == 0,
            r.per_specialist_hits@ == Map::<Seq<char>, u64>::empty(),
            r.per_specialist_hits.wf(),
            r.balanced(),
    {
        HybridStats {
            specialist_hits: 0,
            core_hits: 0,
            total_specialist_latency_ms: 0,
            total_core_latency_ms: 0,
            per_specialist_hits: HitCounts::new(),
        }
    }
}

impl HybridStats {
    /// The answers of the single specialists add up to those of their tier.
    pub open spec fn balanced(self) -> bool {
        self.specialist_hits == sum_of_counts(self.per_specialist_hits.entries@)
    }

    /// Counts an answer of a specialist.
    pub fn record_specialist(&mut self, name: &str, latency_ms: u64)
        requires
            old(self).per_specialist_hits.wf(),
            old(self).per_specialist_hits.count_of(name@) < u64::MAX,
        ensures
            final(self).specialist_hits == wrapping_sum(old(self).specialist_hits, 1),
            final(self).total_specialist_latency_ms == wrapping_sum(
                old(self).total_specialist_latency_ms,
                latency_ms,
            ),
            final(self).core_hits == old(self).core_hits,
            final(self).total_core_latency_ms == old(self).total_core_latency_ms,
            final(self).per_specialist_hits.wf(),
            final(self).per_specialist_hits@ == old(self).per_specialist_hits@.insert(
                name@,
                (old(self).per_specialist_hits.count_of(name@) + 1) as u64,
            ),
            old(self).balanced() && old(self).specialist_hits < u64::MAX ==> final(
                self).balanced(),
    {
        self.specialist_hits = self.specialist_hits.wrapping_add(1);
        self.total_specialist_latency_ms = self.total_specialist_latency_ms.wrapping_add(
            latency_ms,
        );
        self.per_specialist_hits.increment(name);
    }

    /// Counts an answer of the core.
    pub fn record_core(&mut self, latency_ms: u64)
        ensures
            final(self).core_hits == wrapping_sum(old(self).core_hits, 1),
            final(self).total_core_latency_ms == wrapping_sum(
                old(self).total_core_latency_ms,
                latency_ms,
            ),
            final(self).specialist_hits == old(self).specialist_hits,
            final(self).total_specialist_latency_ms == old(self).total_specialist_latency_ms,
            final(self).per_specialist_hits == old(self).per_specialist_hits,
    {
        self.core_hits = self.core_hits.wrapping_add(1);
        self.total_core_latency_ms = self.total_core_latency_ms.wrapping_add(latency_ms);
    }

    /// The counters as they are, with mean latencies.
    pub fn snapshot(&self) -> (r: StatsSnapshot)
        ensures
            r.specialist_hits == self.specialist_hits,
            r.core_hits == self.core_hits,
            r.avg_specialist_latency_ms == mean_of(
                self.total_specialist_latency_ms,
                self.specialist_hits,
            ),
            r.avg_core_latency_ms == mean_of(self.total_core_latency_ms, self.core_hits),
            r.per_specialist@ == self.per_specialist_hits@,
            r.per_specialist.entries@ == self.per_specialist_hits.entries@,
            self.per_specialist_hits.wf() ==> r.per_specialist.wf(),
    {
        let avg_specialist_latency_ms: u64 = if self.specialist_hits > 0 {
            self.total_specialist_latency_ms / self.specialist_hits
        } else {
            0
        };
        let avg_core_latency_ms: u64 = if self.core_hits > 0 {
            self.total_core_latency_ms / self.core_hits
        } else {
            0
        };
        StatsSnapshot {
            specialist_hits: self.specialist_hits,
            core_hits: self.core_hits,
            avg_specialist_latency_ms,
            avg_core_latency_ms,
            per_specialist: self.per_specialist_hits.copy(),
        }
    }
}

} // verus!
