//! The monitor cycle's decisions: which raw samples qualify for recording,
//! when the host-wide alert fires, and what the resulting report holds.
//! Telemetry acquisition and printing live outside the library; each cycle
//! hands in plain values and takes plain values back.

use vstd::prelude::*;
use crate::datastore::{
    Datastore, Process, spec_sorted_desc, MAX_CORES,
};
use crate::fixed::{SCALE, clamp_to_i64};

verus! {

/// Raw-sample recording threshold per logical core: 5% CPU, in fixed point.
pub const RECORD_CPU_PER_CORE: i64 = 5_000_000;

/// Reported entries must hold at least half a core's worth of CPU:
/// 50% per core, in fixed point.
pub const REPORT_MIN_CPU_PER_CORE: i64 = 50_000_000;

/// Reported entries must hold at least 20% of host memory, in fixed point.
pub const REPORT_MIN_MEM: i64 = 200_000;

/// A report lists at most this many processes.
pub const REPORT_CAP: usize = 20;

/// One raw telemetry reading for one process: instantaneous CPU usage in
/// fixed-point percent, and resident memory in absolute bytes.
#[derive(Clone, Copy, Debug)]
pub struct ProcessSample {
    pub pid: u64,
    pub cpu: i64,
    pub mem_bytes: u64,
}

/// The thresholds a monitor run works with, fixed at startup.
#[derive(Clone, Copy, Debug)]
pub struct MonitorConfig {
    /// Raw CPU level above which a sample is recorded, in fixed-point percent.
    pub cpu_recording: i64,
    /// Global CPU level above which the alert fires, in fixed-point percent.
    pub cpu_threshold: i64,
    /// Raw memory level above which a sample is recorded, in bytes.
    pub mem_limit: u64,
}

/// Derives the thresholds from the core count, the configured per-core alert
/// percentage and the total host memory: recording at 5% per core, alerting
/// at `cpu_threshold_pct` per core, memory-qualifying at a tenth of memory.
pub fn monitor_config(cpus: usize, cpu_threshold_pct: u32, total_memory: u64) -> (c: MonitorConfig)
    requires
        cpus <= MAX_CORES,
        cpu_threshold_pct <= 1_000,
    ensures
        c.cpu_recording as int == (cpus as int) * (RECORD_CPU_PER_CORE as int),
        c.cpu_threshold as int == (cpus as int) * (cpu_threshold_pct as int) * (SCALE as int),
        c.mem_limit as int == (total_memory as int) / 10,
{
    proof {
        assert(0 <= (cpus as int) * (cpu_threshold_pct as int) <= 10_000_000) by (nonlinear_arith)
            requires
                0 <= cpus as int <= 10_000,
                0 <= cpu_threshold_pct as int <= 1_000,
        ;
    }
    MonitorConfig {
        cpu_recording: (cpus as i64) * RECORD_CPU_PER_CORE,
        cpu_threshold: (cpus as i64) * (cpu_threshold_pct as i64) * SCALE,
        mem_limit: total_memory / 10,
    }
}

/// Memory expressed as a fixed-point fraction of total host memory,
/// saturating at the representable range.
pub open spec fn spec_mem_fraction(bytes: u64, total: u64) -> int
    recommends
        1 <= total,
{
    clamp_to_i64(((bytes as int) * (SCALE as int)) / (total as int))
}

/// Computes `spec_mem_fraction(bytes, total)`.
pub fn mem_fraction(bytes: u64, total: u64) -> (r: i64)
    requires
        1 <= total,
    ensures
        r as int == spec_mem_fraction(bytes, total),
{
    proof {
        assert((bytes as int) * (SCALE as int) < 0x1_0000_0000_0000_0000_0000_0000)
            by (nonlinear_arith)
            requires
                0 <= (bytes as int) < 0x1_0000_0000_0000_0000,
        ;
    }
    let num: u128 = (bytes as u128) * (SCALE as u128);
    let q: u128 = num / (total as u128);
    if q > i64::MAX as u128 {
        i64::MAX
    } else {
        q as i64
    }
}

/// A raw sample is recorded when its CPU usage exceeds the recording
/// threshold or its memory use exceeds the memory limit.
pub open spec fn spec_should_record(smp: ProcessSample, cpu_recording: i64, mem_limit: u64) -> bool {
    smp.cpu > cpu_recording || smp.mem_bytes > mem_limit
}

/// The store contents after one cycle's qualifying samples have been
/// recorded, in sample order.
pub open spec fn spec_recorded(
    s: Seq<Process>,
    cpus: usize,
    samples: Seq<ProcessSample>,
    total_memory: u64,
    cpu_recording: i64,
    mem_limit: u64,
    now: u64,
) -> Seq<Process>
    decreases samples.len(),
{
    if samples.len() == 0 {
        s
    } else {
        let prev = spec_recorded(
            s,
            cpus,
            samples.drop_last(),
            total_memory,
            cpu_recording,
            mem_limit,
            now,
        );
        let smp = samples.last();
        if spec_should_record(smp, cpu_recording, mem_limit) {
            Datastore::spec_observe(
                prev,
                cpus,
                smp.pid,
                smp.cpu,
                spec_mem_fraction(smp.mem_bytes, total_memory) as i64,
                now,
            )
        } else {
            prev
        }
    }
}

/// Feeds one cycle's raw samples into the store: every sample whose raw CPU
/// usage exceeds the recording threshold or whose raw memory use exceeds the
/// memory limit is recorded, with its memory converted to a fraction of
/// total host memory; the rest leave the store untouched.
pub fn record_samples(
    store: &mut Datastore,
    samples: &Vec<ProcessSample>,
    total_memory: u64,
    cfg: &MonitorConfig,
    now: u64,
)
    requires
        old(store).inv(),
        1 <= total_memory,
    ensures
        final(store).inv(),
        final(store).spec_cpus() == old(store).spec_cpus(),
        final(store).spec_processes() == spec_recorded(
            old(store).spec_processes(),
            old(store).spec_cpus(),
            samples@,
            total_memory,
            cfg.cpu_recording,
            cfg.mem_limit,
            now,
        ),
{
    let n: usize = samples.len();
    let mut i: usize = 0;
    while i < n
        invariant
            n == samples@.len(),
            store.inv(),
            store.spec_cpus() == old(store).spec_cpus(),
            1 <= total_memory,
            i <= n,
            store.spec_processes() == spec_recorded(
                old(store).spec_processes(),
                old(store).spec_cpus(),
                samples@.take(i as int),
                total_memory,
                cfg.cpu_recording,
                cfg.mem_limit,
                now,
            ),
        decreases n - i,
    {
        let smp: ProcessSample = samples[i];
        if smp.cpu > cfg.cpu_recording || smp.mem_bytes > cfg.mem_limit {
            let frac: i64 = mem_fraction(smp.mem_bytes, total_memory);
            store.observe(smp.pid, smp.cpu, frac, now);
        }
        proof {
            assert(samples@.take(i as int + 1).drop_last() =~= samples@.take(i as int));
            assert(samples@.take(i as int + 1).last() == samples@[i as int]);
        }
        i = i + 1;
    }
    proof {
        assert(samples@.take(n as int) =~= samples@);
    }
}

/// What a fired report holds: the filtered entries — or all entries when the
/// filter comes up empty — ordered by decayed CPU estimate, largest first,
/// capped at `REPORT_CAP`.
pub open spec fn spec_is_report(store: Datastore, rep: Seq<Process>, now: u64) -> bool {
    let min_cpu = ((store.spec_cpus() as int) * (REPORT_MIN_CPU_PER_CORE as int)) as i64;
    let cands = store.spec_candidates(min_cpu, REPORT_MIN_MEM, now);
    &&& rep.len() == if cands.len() <= REPORT_CAP {
        cands.len() as int
    } else {
        REPORT_CAP as int
    }
    &&& spec_sorted_desc(rep, now)
    &&& forall|i: int| 0 <= i < rep.len() ==> (#[trigger] rep[i]).inv()
    &&& forall|i: int| 0 <= i < rep.len() ==> cands.to_multiset().count(#[trigger] rep[i]) > 0
    &&& exists|s: Seq<Process>|
        {
            &&& s.to_multiset() == cands.to_multiset()
            &&& spec_sorted_desc(s, now)
            &&& rep == #[trigger] s.take(rep.len() as int)
        }
}

/// Decides the alert: when the global CPU usage exceeds the configured
/// threshold, returns the report of top consumers; otherwise returns nothing.
pub fn build_report(store: &Datastore, global_cpu: i64, cfg: &MonitorConfig, now: u64) -> (r:
    Option<Vec<Process>>)
    requires
        store.inv(),
    ensures
        r is Some <==> global_cpu > cfg.cpu_threshold,
        r matches Some(v) ==> spec_is_report(*store, v@, now),
{
    if global_cpu > cfg.cpu_threshold {
        let min_cpu: i64 = (store.cores() as i64) * REPORT_MIN_CPU_PER_CORE;
        let rep: Vec<Process> = store.top_consumers(min_cpu, REPORT_MIN_MEM, REPORT_CAP, now);
        Some(rep)
    } else {
        None
    }
}

} // verus!
