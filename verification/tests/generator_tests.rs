use protobench::generate::{generate_test_data, generate_test_data_at, mix64};

#[test]
fn generate_is_deterministic() {
    let a = generate_test_data_at(25, 1_700_000_000);
    let b = generate_test_data_at(25, 1_700_000_000);
    assert_eq!(a.len(), 25);
    assert_eq!(b.len(), 25);
    for i in 0..25 {
        assert_eq!(a[i], b[i]);
    }
}

#[test]
fn mix64_is_a_pure_function() {
    assert_eq!(mix64(42), mix64(42));
    assert_ne!(mix64(1), mix64(2));
}

#[test]
fn generated_fields_stay_in_their_ranges() {
    let base = 1_700_000_000i64;
    let data = generate_test_data_at(200, base);
    let hostnames = [
        "web-01",
        "web-02",
        "db-primary",
        "db-replica",
        "cache-01",
        "api-gateway",
        "worker-01",
        "worker-02",
        "monitoring",
        "load-balancer",
    ];
    for (i, m) in data.iter().enumerate() {
        assert!(m.cpu_centi_percent >= 500 && m.cpu_centi_percent < 9500);
        assert!(m.memory_bytes >= 1_000_000_000 && m.memory_bytes < 16_000_000_000);
        assert!(m.disk_io_ops >= 100 && m.disk_io_ops < 10_000);
        assert!(m.timestamp > base - 3600 + i as i64 - 1);
        assert!(m.timestamp <= base + i as i64);
        assert!(hostnames.contains(&m.hostname.as_str()));
        assert_eq!(m.tags.len(), 4);
        assert_eq!(m.tags[0].key, "env");
        assert_eq!(m.tags[1].key, "region");
        assert_eq!(m.tags[2].key, "service");
        assert_eq!(m.tags[3].key, "version");
        let v = &m.tags[3].value;
        assert!(v.starts_with('v'));
    }
}

#[test]
fn generate_with_clock_produces_count_points() {
    let data = generate_test_data(7);
    assert_eq!(data.len(), 7);
}

#[test]
fn generated_timestamps_advance_with_index() {
    let data = generate_test_data_at(50, 1_700_000_000);
    // same offset pattern as a fresh run: check pure index dependence
    let again = generate_test_data_at(50, 1_700_000_000);
    for i in 0..50 {
        assert_eq!(data[i].timestamp, again[i].timestamp);
    }
}
