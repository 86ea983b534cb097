//! The resource store: one estimator pair (CPU, memory) per observed process,
//! with lazy creation on first sample, filtering by current decayed estimates,
//! and ranking of the top consumers.

use vstd::prelude::*;
use crate::estimator::{ExponentialWeightedAverage, DECAY_WEIGHT};
use crate::fixed::SCALE;

verus! {

/// Level smoothing factor used for every process estimator: 0.1.
pub const DEFAULT_ALPHA: i64 = 100_000;

/// Trend smoothing factor used for every process estimator: 0.1.
pub const DEFAULT_BETA: i64 = 100_000;

/// CPU estimates are percentages, so one logical core contributes a ceiling
/// of 100% (in fixed-point units).
pub const CPU_CEILING_PER_CORE: i64 = 100_000_000;

/// Upper bound on the logical core count the store accepts; keeps every
/// ceiling comfortably inside the fixed-point range.
pub const MAX_CORES: usize = 10_000;

/// One tracked process: its identifier and its two estimators. The CPU
/// estimator is capped at `cpus * 100%`, the memory estimator at 1.0 (the
/// whole of host memory).
#[derive(Clone, Copy, Debug)]
pub struct Process {
    pid: u64,
    cpu: ExponentialWeightedAverage,
    mem: ExponentialWeightedAverage,
}

impl Process {
    pub closed spec fn spec_pid(self) -> u64 {
        self.pid
    }

    pub closed spec fn spec_cpu(self) -> ExponentialWeightedAverage {
        self.cpu
    }

    pub closed spec fn spec_mem(self) -> ExponentialWeightedAverage {
        self.mem
    }

    pub open spec fn inv(self) -> bool {
        &&& self.spec_cpu().inv()
        &&& self.spec_mem().inv()
    }

    /// The entry value that `new` returns.
    pub closed spec fn spec_fresh(pid: u64, cpus: usize, now: u64) -> Self
        recommends
            cpus <= MAX_CORES,
    {
        Process {
            pid,
            cpu: ExponentialWeightedAverage::spec_fresh(
                DEFAULT_ALPHA,
                DEFAULT_BETA,
                ((cpus as int) * (CPU_CEILING_PER_CORE as int)) as i64,
                now,
            ),
            mem: ExponentialWeightedAverage::spec_fresh(DEFAULT_ALPHA, DEFAULT_BETA, SCALE, now),
        }
    }

    /// The entry value after one sample pair has been folded in.
    pub closed spec fn spec_observed(self, cpu_sample: i64, mem_sample: i64, now: u64) -> Self {
        Process {
            pid: self.pid,
            cpu: self.cpu.spec_updated(cpu_sample, now),
            mem: self.mem.spec_updated(mem_sample, now),
        }
    }

    /// Creates a fresh entry for `pid` with estimators at zero.
    pub fn new(pid: u64, cpus: usize, now: u64) -> (r: Self)
        requires
            cpus <= MAX_CORES,
        ensures
            r == Self::spec_fresh(pid, cpus, now),
            r.inv(),
            r.spec_pid() == pid,
            r.spec_cpu().spec_estimate() == 0,
            r.spec_mem().spec_estimate() == 0,
            r.spec_cpu().spec_trend() == 0,
            r.spec_mem().spec_trend() == 0,
            r.spec_cpu().spec_alpha() == DEFAULT_ALPHA as int,
            r.spec_mem().spec_alpha() == DEFAULT_ALPHA as int,
            r.spec_cpu().spec_beta() == DEFAULT_BETA as int,
            r.spec_mem().spec_beta() == DEFAULT_BETA as int,
            r.spec_cpu().spec_decay_weight() == DECAY_WEIGHT as int,
            r.spec_mem().spec_decay_weight() == DECAY_WEIGHT as int,
            r.spec_cpu().spec_last_seen() == now as int,
            r.spec_mem().spec_last_seen() == now as int,
            r.spec_cpu().spec_maximum() == (cpus as int) * (CPU_CEILING_PER_CORE as int),
            r.spec_mem().spec_maximum() == SCALE as int,
    {
        Process {
            pid,
            cpu: ExponentialWeightedAverage::new(
                DEFAULT_ALPHA,
                DEFAULT_BETA,
                (cpus as i64) * CPU_CEILING_PER_CORE,
                now,
            ),
            mem: ExponentialWeightedAverage::new(DEFAULT_ALPHA, DEFAULT_BETA, SCALE, now),
        }
    }

    /// The process identifier.
    pub fn id(&self) -> (r: u64)
        ensures
            r == self.spec_pid(),
    {
        self.pid
    }

    /// The decayed CPU estimate at time `now`, in fixed-point percent.
    pub fn cpu(&self, now: u64) -> (r: i64)
        requires
            self.inv(),
        ensures
            r as int == self.spec_cpu().spec_get_estimate(now as int),
    {
        self.cpu.get_estimate(now)
    }

    /// The decayed memory estimate at time `now`, as a fixed-point fraction
    /// of total host memory.
    pub fn mem(&self, now: u64) -> (r: i64)
        requires
            self.inv(),
        ensures
            r as int == self.spec_mem().spec_get_estimate(now as int),
    {
        self.mem.get_estimate(now)
    }
}

/// Exposes the components of a fresh entry: it carries the given pid, a CPU
/// estimator ceilinged at 100% per core, and a memory estimator ceilinged at
/// the whole of host memory, both fresh with the default smoothing factors.
pub proof fn lemma_entry_fresh_components(pid: u64, cpus: usize, now: u64)
    requires
        cpus <= MAX_CORES,
    ensures
        ({
            let p = Process::spec_fresh(pid, cpus, now);
            &&& p.spec_pid() == pid
            &&& p.spec_cpu() == ExponentialWeightedAverage::spec_fresh(
                DEFAULT_ALPHA,
                DEFAULT_BETA,
                ((cpus as int) * (CPU_CEILING_PER_CORE as int)) as i64,
                now,
            )
            &&& p.spec_mem() == ExponentialWeightedAverage::spec_fresh(
                DEFAULT_ALPHA,
                DEFAULT_BETA,
                SCALE,
                now,
            )
        }),
{
}

/// Exposes the components of an entry after one sample pair is folded in:
/// the pid is kept, the CPU sample goes to the CPU estimator, and the memory
/// sample to the memory estimator — never the other way round.
pub proof fn lemma_observed_components(p: Process, cpu_sample: i64, mem_sample: i64, now: u64)
    ensures
        p.spec_observed(cpu_sample, mem_sample, now).spec_pid() == p.spec_pid(),
        p.spec_observed(cpu_sample, mem_sample, now).spec_cpu() == p.spec_cpu().spec_updated(
            cpu_sample,
            now,
        ),
        p.spec_observed(cpu_sample, mem_sample, now).spec_mem() == p.spec_mem().spec_updated(
            mem_sample,
            now,
        ),
{
}

/// Whether some entry of `s` carries `pid`.
pub open spec fn spec_has_pid(s: Seq<Process>, pid: u64) -> bool {
    exists|i: int| 0 <= i < s.len() && (#[trigger] s[i]).spec_pid() == pid
}

/// The index of the entry carrying `pid` (unique when pids are distinct).
pub open spec fn spec_index_of_pid(s: Seq<Process>, pid: u64) -> int {
    choose|i: int| 0 <= i < s.len() && (#[trigger] s[i]).spec_pid() == pid
}

/// An entry qualifies for a filter query when both of its current decayed
/// estimates reach the respective lower bounds.
pub open spec fn spec_qualifies(p: Process, min_cpu: i64, min_mem: i64, now: u64) -> bool {
    &&& p.spec_cpu().spec_get_estimate(now as int) >= min_cpu as int
    &&& p.spec_mem().spec_get_estimate(now as int) >= min_mem as int
}

/// The subsequence of entries that qualify, in store order.
pub open spec fn spec_filtered(s: Seq<Process>, min_cpu: i64, min_mem: i64, now: u64) -> Seq<
    Process,
> {
    s.filter(|p: Process| spec_qualifies(p, min_cpu, min_mem, now))
}

/// The store of all tracked processes.
pub struct Datastore {
    cpus: usize,
    processes: Vec<Process>,
}

impl Datastore {
    pub closed spec fn spec_cpus(self) -> usize {
        self.cpus
    }

    pub closed spec fn spec_processes(self) -> Seq<Process> {
        self.processes@
    }

    /// Well-formedness: a sane core count, well-formed entries, at most one
    /// entry per process identifier, and every ceiling set from the core
    /// count (CPU) or the whole of memory (memory fraction).
    pub open spec fn inv(self) -> bool {
        &&& self.spec_cpus() <= MAX_CORES
        &&& forall|i: int|
            0 <= i < self.spec_processes().len() ==> (#[trigger] self.spec_processes()[i]).inv()
        &&& forall|i: int, j: int|
            0 <= i < j < self.spec_processes().len() ==> (#[trigger] self.spec_processes()[i]).spec_pid()
                != (#[trigger] self.spec_processes()[j]).spec_pid()
    }

    /// The store's model of one `observe` call on a sequence of entries.
    pub open spec fn spec_observe(
        s: Seq<Process>,
        cpus: usize,
        pid: u64,
        cpu_sample: i64,
        mem_sample: i64,
        now: u64,
    ) -> Seq<Process> {
        if spec_has_pid(s, pid) {
            let i = spec_index_of_pid(s, pid);
            s.update(i, s[i].spec_observed(cpu_sample, mem_sample, now))
        } else {
            s.push(Process::spec_fresh(pid, cpus, now).spec_observed(cpu_sample, mem_sample, now))
        }
    }

    /// The logical core count the store was created with.
    pub fn cores(&self) -> (r: usize)
        ensures
            r == self.spec_cpus(),
    {
        self.cpus
    }

    /// Creates an empty store for a host with `cpus` logical cores.
    pub fn new(cpus: usize) -> (r: Self)
        requires
            cpus <= MAX_CORES,
        ensures
            r.inv(),
            r.spec_cpus() == cpus,
            r.spec_processes().len() == 0,
    {
        Datastore { cpus, processes: Vec::new() }
    }

    /// Records one sample pair for `pid`, creating the entry on first sight.
    /// Always succeeds; the store grows by one entry exactly when `pid` was
    /// previously unseen.
    pub fn observe(&mut self, pid: u64, cpu_sample: i64, mem_sample: i64, now: u64)
        requires
            old(self).inv(),
        ensures
            final(self).inv(),
            final(self).spec_cpus() == old(self).spec_cpus(),
            final(self).spec_processes() == Self::spec_observe(
                old(self).spec_processes(),
                old(self).spec_cpus(),
                pid,
                cpu_sample,
                mem_sample,
                now,
            ),
            spec_has_pid(final(self).spec_processes(), pid),
            final(self).spec_processes().len() == old(self).spec_processes().len() + (
            if spec_has_pid(old(self).spec_processes(), pid) {
                0int
            } else {
                1int
            }),
    {
        let ghost s = self.spec_processes();
        let n: usize = self.processes.len();
        let mut i: usize = 0;
        let mut found: bool = false;
        while !found && i < n
            invariant
                n == s.len(),
                s == self.spec_processes(),
                self.inv(),
                i <= n,
                found ==> i < n && s[i as int].spec_pid() == pid,
                !found ==> forall|j: int| 0 <= j < i ==> (#[trigger] s[j]).spec_pid() != pid,
            decreases n - i + (if found {
                0int
            } else {
                1int
            }),
        {
            if self.processes[i].id() == pid {
                found = true;
            } else {
                i = i + 1;
            }
        }
        if found {
            proof {
                assert(spec_has_pid(s, pid));
                let k = spec_index_of_pid(s, pid);
                assert(0 <= k < s.len() && s[k].spec_pid() == pid);
                if k != i as int {
                    assert(s[k].spec_pid() != s[i as int].spec_pid());
                }
                assert(k == i as int);
            }
            let mut entry: Process = self.processes[i];
            entry.cpu.update(cpu_sample, now);
            entry.mem.update(mem_sample, now);
            self.processes.set(i, entry);
            proof {
                assert(spec_has_pid(self.spec_processes(), pid)) by {
                    assert(self.spec_processes()[i as int].spec_pid() == pid);
                }
                assert(self.spec_processes() =~= Self::spec_observe(
                    s,
                    self.cpus,
                    pid,
                    cpu_sample,
                    mem_sample,
                    now,
                ));
            }
        } else {
            proof {
                assert(!spec_has_pid(s, pid));
            }
            let mut entry: Process = Process::new(pid, self.cpus, now);
            entry.cpu.update(cpu_sample, now);
            entry.mem.update(mem_sample, now);
            self.processes.push(entry);
            proof {
                assert(self.spec_processes() =~= Self::spec_observe(
                    s,
                    self.cpus,
                    pid,
                    cpu_sample,
                    mem_sample,
                    now,
                ));
                assert(spec_has_pid(self.spec_processes(), pid)) by {
                    let s2 = self.spec_processes();
                    assert(s2[s.len() as int].spec_pid() == pid);
                }
            }
        }
    }

    /// Returns every entry whose decayed CPU estimate is at least `min_cpu`
    /// and whose decayed memory estimate is at least `min_mem`, in store
    /// order.
    pub fn get(&self, min_cpu: i64, min_mem: i64, now: u64) -> (r: Vec<Process>)
        requires
            self.inv(),
        ensures
            r@ == spec_filtered(self.spec_processes(), min_cpu, min_mem, now),
            forall|i: int| 0 <= i < r@.len() ==> (#[trigger] r@[i]).inv(),
    {
        let ghost s = self.spec_processes();
        let n: usize = self.processes.len();
        let mut r: Vec<Process> = Vec::new();
        let mut i: usize = 0;
        proof {
            assert(s.take(0) =~= Seq::<Process>::empty());
            reveal(Seq::filter);
        }
        while i < n
            invariant
                n == s.len(),
                s == self.spec_processes(),
                self.inv(),
                i <= n,
                r@ == spec_filtered(s.take(i as int), min_cpu, min_mem, now),
                forall|k: int| 0 <= k < r@.len() ==> (#[trigger] r@[k]).inv(),
            decreases n - i,
        {
            let p: Process = self.processes[i];
            if p.cpu(now) >= min_cpu && p.mem(now) >= min_mem {
                r.push(p);
            }
            proof {
                reveal(Seq::filter);
                assert(s.take(i as int + 1).drop_last() =~= s.take(i as int));
                assert(s.take(i as int + 1).last() == s[i as int]);
            }
            i = i + 1;
        }
        proof {
            assert(s.take(n as int) =~= s);
        }
        r
    }

    /// Returns every tracked entry, in store order.
    pub fn all(&self) -> (r: Vec<Process>)
        requires
            self.inv(),
        ensures
            r@ == self.spec_processes(),
            forall|i: int| 0 <= i < r@.len() ==> (#[trigger] r@[i]).inv(),
    {
        let ghost s = self.spec_processes();
        let n: usize = self.processes.len();
        let mut r: Vec<Process> = Vec::new();
        let mut i: usize = 0;
        while i < n
            invariant
                n == s.len(),
                s == self.spec_processes(),
                self.inv(),
                i <= n,
                r@ == s.take(i as int),
            decreases n - i,
        {
            r.push(self.processes[i]);
            proof {
                assert(s.take(i as int + 1) =~= s.take(i as int).push(s[i as int]));
            }
            i = i + 1;
        }
        proof {
            assert(s.take(n as int) =~= s);
        }
        r
    }
}

/// The ranking key: the decayed CPU estimate at time `now`.
pub open spec fn spec_cpu_key(p: Process, now: u64) -> int {
    p.spec_cpu().spec_get_estimate(now as int)
}

/// Sorted by decayed CPU estimate, largest first.
pub open spec fn spec_sorted_desc(s: Seq<Process>, now: u64) -> bool {
    forall|i: int, j: int|
        0 <= i < j < s.len() ==> spec_cpu_key(#[trigger] s[i], now) >= spec_cpu_key(
            #[trigger] s[j],
            now,
        )
}

/// Exchanging two elements of a sequence does not change its multiset.
proof fn lemma_swap_preserves_multiset<A>(s: Seq<A>, i: int, j: int)
    requires
        0 <= i < s.len(),
        0 <= j < s.len(),
        i != j,
    ensures
        s.update(i, s[j]).update(j, s[i]).to_multiset() == s.to_multiset(),
{
    broadcast use vstd::seq_lib::to_multiset_update;
    broadcast use vstd::seq_lib::group_to_multiset_ensures;
    broadcast use vstd::multiset::group_multiset_axioms;

    let s1 = s.update(i, s[j]);
    assert(s1[j] == s[j]);
    assert(s.contains(s[i]));
    assert(s.to_multiset().count(s[i]) > 0);
    assert(s1.update(j, s[i]).to_multiset() =~= s.to_multiset());
}

/// Sorts the entries by decayed CPU estimate, largest first, leaving the
/// collection of entries unchanged as a multiset.
pub fn sort_by_cpu_desc(v: &mut Vec<Process>, now: u64)
    requires
        forall|i: int| 0 <= i < old(v)@.len() ==> (#[trigger] old(v)@[i]).inv(),
    ensures
        final(v)@.len() == old(v)@.len(),
        final(v)@.to_multiset() == old(v)@.to_multiset(),
        spec_sorted_desc(final(v)@, now),
        forall|i: int| 0 <= i < final(v)@.len() ==> (#[trigger] final(v)@[i]).inv(),
{
    let n: usize = v.len();
    if n <= 1 {
        return ;
    }
    let mut i: usize = 1;
    while i < n
        invariant
            n == v@.len(),
            1 <= i <= n,
            v@.to_multiset() == old(v)@.to_multiset(),
            forall|k: int| 0 <= k < v@.len() ==> (#[trigger] v@[k]).inv(),
            forall|a: int, b: int|
                0 <= a < b < i ==> spec_cpu_key(#[trigger] v@[a], now) >= spec_cpu_key(
                    #[trigger] v@[b],
                    now,
                ),
        decreases n - i,
    {
        let mut j: usize = i;
        while j > 0 && v[j - 1].cpu(now) < v[j].cpu(now)
            invariant
                n == v@.len(),
                i < n,
                0 <= j <= i,
                v@.to_multiset() == old(v)@.to_multiset(),
                forall|k: int| 0 <= k < v@.len() ==> (#[trigger] v@[k]).inv(),
                forall|a: int, b: int|
                    0 <= a < b <= i && b != j ==> spec_cpu_key(#[trigger] v@[a], now)
                        >= spec_cpu_key(#[trigger] v@[b], now),
                forall|b: int|
                    j < b <= i ==> spec_cpu_key(v@[j as int], now) >= spec_cpu_key(
                        #[trigger] v@[b],
                        now,
                    ),
            decreases j,
        {
            let ghost before = v@;
            let x: Process = v[j - 1];
            let y: Process = v[j];
            v.set(j - 1, y);
            v.set(j, x);
            proof {
                lemma_swap_preserves_multiset(before, j - 1, j as int);
                assert(v@ == before.update(j - 1, before[j as int]).update(
                    j as int,
                    before[j - 1],
                ));
            }
            j = j - 1;
        }
        i = i + 1;
    }
}

impl Datastore {
    /// The entries a report draws from: those passing the filter, or every
    /// entry when none passes.
    pub open spec fn spec_candidates(self, min_cpu: i64, min_mem: i64, now: u64) -> Seq<Process> {
        let f = spec_filtered(self.spec_processes(), min_cpu, min_mem, now);
        if f.len() == 0 {
            self.spec_processes()
        } else {
            f
        }
    }

    /// The top consumers: the filtered entries — or, when the filter comes up
    /// empty, all entries — ordered by decayed CPU estimate, largest first,
    /// truncated to at most `cap`.
    pub fn top_consumers(&self, min_cpu: i64, min_mem: i64, cap: usize, now: u64) -> (r: Vec<
        Process,
    >)
        requires
            self.inv(),
        ensures
            ({
                let cands = self.spec_candidates(min_cpu, min_mem, now);
                &&& r@.len() == if cands.len() <= cap {
                    cands.len() as int
                } else {
                    cap as int
                }
                &&& spec_sorted_desc(r@, now)
                &&& forall|i: int| 0 <= i < r@.len() ==> (#[trigger] r@[i]).inv()
                &&& forall|i: int|
                    0 <= i < r@.len() ==> cands.to_multiset().count(#[trigger] r@[i]) > 0
                &&& exists|s: Seq<Process>|
                    {
                        &&& s.to_multiset() == cands.to_multiset()
                        &&& spec_sorted_desc(s, now)
                        &&& r@ == #[trigger] s.take(r@.len() as int)
                    }
            }),
    {
        let ghost cands = self.spec_candidates(min_cpu, min_mem, now);
        let mut v: Vec<Process> = self.get(min_cpu, min_mem, now);
        if v.len() == 0 {
            v = self.all();
        }
        proof {
            assert(v@ == cands);
        }
        sort_by_cpu_desc(&mut v, now);
        let ghost full = v@;
        if v.len() > cap {
            v.truncate(cap);
        }
        proof {
            broadcast use vstd::seq_lib::group_to_multiset_ensures;

            if full.len() <= cap {
                assert(v@ == full.take(v@.len() as int)) by {
                    assert(full.take(full.len() as int) =~= full);
                }
            } else {
                assert(v@ == full.subrange(0, cap as int));
                assert(v@ == full.take(v@.len() as int));
            }
            assert forall|i: int| 0 <= i < v@.len() implies cands.to_multiset().count(
                #[trigger] v@[i],
            ) > 0 by {
                assert(full.contains(full[i]));
                assert(full.to_multiset().count(full[i]) > 0);
            }
        }
        v
    }
}

} // verus!
