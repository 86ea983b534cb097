use loadwatch::datastore::Datastore;
use loadwatch::monitor::{
    build_report, mem_fraction, monitor_config, record_samples, ProcessSample, REPORT_CAP,
};

#[test]
fn config_derives_all_thresholds() {
    let cfg = monitor_config(4, 90, 1_000);
    assert_eq!(cfg.cpu_recording, 20_000_000); // 5% per core
    assert_eq!(cfg.cpu_threshold, 360_000_000); // 90% per core
    assert_eq!(cfg.mem_limit, 100); // a tenth of memory
}

#[test]
fn mem_fraction_is_a_scaled_ratio() {
    assert_eq!(mem_fraction(25, 100), 250_000); // a quarter
    assert_eq!(mem_fraction(0, 100), 0);
    assert_eq!(mem_fraction(100, 100), 1_000_000);
    // More bytes than total memory reports: saturates, never wraps.
    assert_eq!(mem_fraction(u64::MAX, 1), i64::MAX);
}

#[test]
fn only_qualifying_samples_are_recorded() {
    let cfg = monitor_config(4, 90, 1_000);
    let mut store = Datastore::new(4);
    let samples = vec![
        // 350% CPU: recorded.
        ProcessSample { pid: 7, cpu: 350_000_000, mem_bytes: 25 },
        // 10% CPU and 50 bytes (under the 100-byte limit): skipped.
        ProcessSample { pid: 8, cpu: 10_000_000, mem_bytes: 50 },
        // low CPU but 200 bytes of memory: recorded.
        ProcessSample { pid: 9, cpu: 1_000_000, mem_bytes: 200 },
    ];
    record_samples(&mut store, &samples, 1_000, &cfg, 100);
    let entries = store.all();
    assert_eq!(entries.len(), 2);
    assert_eq!(entries[0].id(), 7);
    assert_eq!(entries[1].id(), 9);
}

#[test]
fn report_fires_only_above_the_threshold() {
    let cfg = monitor_config(4, 90, 1_000);
    let mut store = Datastore::new(4);
    // 350% CPU and a quarter of host memory.
    let samples = vec![ProcessSample { pid: 7, cpu: 350_000_000, mem_bytes: 250 }];
    record_samples(&mut store, &samples, 1_000, &cfg, 100);

    // Global CPU at 300% of 360% threshold: quiet.
    assert!(build_report(&store, 300_000_000, &cfg, 100).is_none());

    // At 400%: the alert fires; the filter is empty (the decayed estimate sits
    // far below half of all capacity), so the report falls back to every entry.
    let rep = build_report(&store, 400_000_000, &cfg, 100).unwrap();
    assert_eq!(rep.len(), 1);
    assert_eq!(rep[0].id(), 7);
    assert_eq!(rep[0].cpu(100), 25_078_585);
    assert_eq!(rep[0].mem(100), 17_913);
}

#[test]
fn report_never_exceeds_the_cap() {
    let cfg = monitor_config(4, 90, 1_000);
    let mut store = Datastore::new(4);
    let mut samples: Vec<ProcessSample> = Vec::new();
    for pid in 0..50u64 {
        samples.push(ProcessSample {
            pid,
            cpu: 100_000_000 + (pid as i64) * 1_000_000,
            mem_bytes: 0,
        });
    }
    record_samples(&mut store, &samples, 1_000, &cfg, 5);
    assert_eq!(store.all().len(), 50);
    let rep = build_report(&store, 400_000_000, &cfg, 5).unwrap();
    assert_eq!(rep.len(), REPORT_CAP);
    assert_eq!(rep[0].id(), 49);
    for w in rep.windows(2) {
        assert!(w[0].cpu(5) >= w[1].cpu(5));
    }
}

#[test]
fn filtered_report_lists_only_heavy_consumers() {
    // 1 core: the report filter asks for >= 50% CPU and >= 20% memory.
    let cfg = monitor_config(1, 90, 1_000);
    let mut store = Datastore::new(1);
    // Pump one process up with repeated samples so its decayed CPU estimate
    // crosses 50% and its memory estimate crosses 20%.
    let samples = vec![ProcessSample { pid: 1, cpu: 100_000_000, mem_bytes: 900 }];
    for t in 0..80u64 {
        record_samples(&mut store, &samples, 1_000, &cfg, t);
    }
    // A light process beside it.
    let light = vec![ProcessSample { pid: 2, cpu: 30_000_000, mem_bytes: 150 }];
    record_samples(&mut store, &light, 1_000, &cfg, 80);

    let rep = build_report(&store, 100_000_000, &cfg, 80).unwrap();
    assert_eq!(rep.len(), 1);
    assert_eq!(rep[0].id(), 1);
    assert!(rep[0].cpu(80) >= 50_000_000);
    assert!(rep[0].mem(80) >= 200_000);
}
