use loadwatch::datastore::Datastore;
use loadwatch::fixed::SCALE;

#[test]
fn observe_creates_one_entry_per_pid() {
    let mut store = Datastore::new(4);
    assert_eq!(store.all().len(), 0);
    store.observe(7, 100_000_000, 0, 10);
    assert_eq!(store.all().len(), 1);
    // A second sample for the same pid updates in place, no duplicate.
    store.observe(7, 200_000_000, 0, 11);
    assert_eq!(store.all().len(), 1);
    store.observe(8, 100_000_000, 0, 12);
    assert_eq!(store.all().len(), 2);
    store.observe(7, 50_000_000, 0, 13);
    store.observe(8, 50_000_000, 0, 13);
    assert_eq!(store.all().len(), 2);
}

#[test]
fn entry_estimates_follow_the_model() {
    let mut store = Datastore::new(4);
    store.observe(7, 350_000_000, 250_000, 100);
    let entries = store.all();
    assert_eq!(entries.len(), 1);
    let p = &entries[0];
    assert_eq!(p.id(), 7);
    // 0.1 * 350% = 35%, decayed by the minimum one-unit penalty exp(-1/3).
    assert_eq!(p.cpu(100), 25_078_585);
    // 0.1 * 0.25 = 0.025 of memory, same penalty.
    assert_eq!(p.mem(100), 17_913);
}

#[test]
fn filter_selects_exactly_the_qualifying_entries() {
    let now: u64 = 50;
    let mut store = Datastore::new(4);
    store.observe(1, 300_000_000, 0, now); // decayed cpu 21_495_930
    store.observe(2, 100_000_000, 0, now); // decayed cpu 7_165_310
    store.observe(3, 0, 500_000, now); // decayed mem 35_826

    // Both bounds must hold (logical AND).
    let hits = store.get(10_000_000, 0, now);
    assert_eq!(hits.len(), 1);
    assert_eq!(hits[0].id(), 1);

    let hits = store.get(1_000_000, 0, now);
    assert_eq!(hits.len(), 2);
    assert_eq!(hits[0].id(), 1);
    assert_eq!(hits[1].id(), 2);

    let hits = store.get(0, 35_826, now);
    assert_eq!(hits.len(), 1);
    assert_eq!(hits[0].id(), 3);

    let hits = store.get(0, 35_827, now);
    assert_eq!(hits.len(), 0);

    let hits = store.get(10_000_000, 35_826, now);
    assert_eq!(hits.len(), 0);
}

#[test]
fn ranking_sorts_by_decayed_cpu_descending() {
    let now: u64 = 50;
    let mut store = Datastore::new(4);
    // Creation order 10, 30, 20 (percent); report order must be 30, 20, 10.
    store.observe(1, 100_000_000, 0, now);
    store.observe(2, 300_000_000, 0, now);
    store.observe(3, 200_000_000, 0, now);

    let top = store.top_consumers(0, 0, 20, now);
    assert_eq!(top.len(), 3);
    assert_eq!(top[0].id(), 2);
    assert_eq!(top[1].id(), 3);
    assert_eq!(top[2].id(), 1);
    assert_eq!(top[0].cpu(now), 21_495_930);
    assert_eq!(top[1].cpu(now), 14_330_620);
    assert_eq!(top[2].cpu(now), 7_165_310);
}

#[test]
fn ranking_caps_the_report_length() {
    let now: u64 = 5;
    let mut store = Datastore::new(4);
    for pid in 0..100u64 {
        store.observe(pid, (pid as i64 + 1) * 1_000_000, 0, now);
    }
    assert_eq!(store.all().len(), 100);
    let top = store.top_consumers(0, 0, 20, now);
    assert_eq!(top.len(), 20);
    // The largest estimates come first.
    assert_eq!(top[0].id(), 99);
    assert_eq!(top[19].id(), 80);
    for w in top.windows(2) {
        assert!(w[0].cpu(now) >= w[1].cpu(now));
    }
}

#[test]
fn empty_filter_falls_back_to_all_entries() {
    let now: u64 = 9;
    let mut store = Datastore::new(4);
    store.observe(1, 100_000_000, 0, now);
    store.observe(2, 300_000_000, 0, now);
    // Thresholds nothing reaches: the ranking still reports every entry.
    let top = store.top_consumers(399 * SCALE, SCALE, 20, now);
    assert_eq!(top.len(), 2);
    assert_eq!(top[0].id(), 2);
    assert_eq!(top[1].id(), 1);
}

#[test]
fn cpu_ceiling_scales_with_core_count() {
    let now: u64 = 0;
    let mut store = Datastore::new(2);
    // 2 cores: ceiling 200%. A huge sample is clamped there.
    store.observe(1, 100_000_000_000, 0, now);
    let entries = store.all();
    // 200% decayed by the one-unit penalty: 200_000_000 * 716_531 / SCALE.
    assert_eq!(entries[0].cpu(now), 143_306_200);
}
