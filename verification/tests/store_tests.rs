use protobench::model::{MetricPoint, MetricQuery, Tag};
use protobench::store::InMemoryStorage;
use protobench::store::SharedStorage;

fn point(ts: i64, host: &str, cpu_centi: u32, mem: u64, disk: u32) -> MetricPoint {
    MetricPoint {
        timestamp: ts,
        hostname: host.to_string(),
        cpu_centi_percent: cpu_centi,
        memory_bytes: mem,
        disk_io_ops: disk,
        tags: vec![Tag::new("env".to_string(), "prod".to_string())],
    }
}

#[test]
fn store_and_query_returns_matches_in_order() {
    let mut st = InMemoryStorage::new();
    st.store_metric(point(10, "web-01", 100, 1000, 5)).unwrap();
    st.store_metric(point(20, "web-02", 200, 2000, 6)).unwrap();
    st.store_metric(point(30, "web-01", 300, 3000, 7)).unwrap();
    let q = MetricQuery { start_time: 10, end_time: 30, hostname_filter: None };
    let r = st.query_metrics(&q).unwrap();
    assert_eq!(r.len(), 3);
    assert_eq!(r[0].timestamp, 10);
    assert_eq!(r[1].timestamp, 20);
    assert_eq!(r[2].timestamp, 30);
}

#[test]
fn query_respects_inclusive_range() {
    let mut st = InMemoryStorage::new();
    st.store_metric(point(10, "a", 1, 1, 1)).unwrap();
    st.store_metric(point(20, "a", 1, 1, 1)).unwrap();
    st.store_metric(point(30, "a", 1, 1, 1)).unwrap();
    let q = MetricQuery { start_time: 10, end_time: 20, hostname_filter: None };
    let r = st.query_metrics(&q).unwrap();
    assert_eq!(r.len(), 2);
}

#[test]
fn query_hostname_filter_exact_match() {
    let mut st = InMemoryStorage::new();
    st.store_metric(point(1, "web-01", 1, 1, 1)).unwrap();
    st.store_metric(point(2, "db-primary", 1, 1, 1)).unwrap();
    st.store_metric(point(3, "web-01", 1, 1, 1)).unwrap();
    let q = MetricQuery {
        start_time: 0,
        end_time: 100,
        hostname_filter: Some("web-01".to_string()),
    };
    let r = st.query_metrics(&q).unwrap();
    assert_eq!(r.len(), 2);
    assert!(r.iter().all(|m| m.hostname == "web-01"));
}

#[test]
fn inverted_range_matches_nothing() {
    let mut st = InMemoryStorage::new();
    st.store_metric(point(10, "a", 1, 1, 1)).unwrap();
    let q = MetricQuery { start_time: 30, end_time: 10, hostname_filter: None };
    assert_eq!(st.query_metrics(&q).unwrap().len(), 0);
    let stats = st.calculate_statistics(&q).unwrap();
    assert_eq!(stats.count, 0);
    assert_eq!(stats.time_range_seconds, -20);
}

#[test]
fn aggregate_computes_exact_truncating_means() {
    let mut st = InMemoryStorage::new();
    st.store_metric(point(1, "a", 100, 10, 3)).unwrap();
    st.store_metric(point(2, "a", 201, 11, 4)).unwrap();
    let q = MetricQuery { start_time: 0, end_time: 10, hostname_filter: None };
    let stats = st.calculate_statistics(&q).unwrap();
    assert_eq!(stats.count, 2);
    // (100 + 201) / 2, truncating
    assert_eq!(stats.avg_cpu_centi_percent, 150);
    // (10 + 11) / 2, truncating integer division
    assert_eq!(stats.avg_memory_bytes, 10);
    // (3 + 4) * 100 / 2 in hundredths of an operation
    assert_eq!(stats.avg_disk_io_centi_ops, 350);
    assert_eq!(stats.time_range_seconds, 10);
}

#[test]
fn aggregate_over_empty_store_is_zeroed() {
    let st = InMemoryStorage::new();
    let q = MetricQuery { start_time: 0, end_time: 10, hostname_filter: None };
    let stats = st.calculate_statistics(&q).unwrap();
    assert_eq!(stats.count, 0);
    assert_eq!(stats.avg_cpu_centi_percent, 0);
    assert_eq!(stats.avg_memory_bytes, 0);
    assert_eq!(stats.avg_disk_io_centi_ops, 0);
    assert_eq!(stats.time_range_seconds, 10);
}

#[test]
fn shared_storage_roundtrip() {
    let st = SharedStorage::new();
    st.store_metric(point(5, "web-01", 1, 1, 1)).unwrap();
    st.store_metric(point(6, "web-02", 1, 1, 1)).unwrap();
    let q = MetricQuery { start_time: 0, end_time: 10, hostname_filter: None };
    let r = st.query_metrics(&q).unwrap();
    assert_eq!(r.len(), 2);
    let stats = st.calculate_statistics(&q).unwrap();
    assert_eq!(stats.count, 2);
}
