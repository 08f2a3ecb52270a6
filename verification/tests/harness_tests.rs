use protobench::harness::{
    allocation_delta, best_index, cost_score, estimate_cpu_cycles, measure_capnp_metric_size,
    measure_capnp_query_size, measure_grpc_metric_size, measure_grpc_query_size,
    ratio_permille, BenchmarkMetrics, PayloadMeasurement, PayloadSizes,
};
use protobench::json_codec::encode_metric_json;
use protobench::model::{MetricPoint, MetricQuery, MetricStatistics, Tag};

fn sample_metric() -> MetricPoint {
    MetricPoint {
        timestamp: 1,
        hostname: "web-01".to_string(),
        cpu_centi_percent: 4200,
        memory_bytes: 1_000_000_000,
        disk_io_ops: 500,
        tags: vec![
            Tag::new("env".to_string(), "prod".to_string()),
            Tag::new("service".to_string(), "frontend".to_string()),
        ],
    }
}

#[test]
fn payload_sizes_total_is_the_sum() {
    let p = PayloadSizes::new(100, 250);
    assert_eq!(p.request_bytes, 100);
    assert_eq!(p.response_bytes, 250);
    assert_eq!(p.total_bytes, 350);
}

#[test]
fn cycle_estimate_uses_the_nominal_rate() {
    // one second at a nominal 3 GHz
    assert_eq!(estimate_cpu_cycles(1_000_000_000), 3_000_000_000);
    assert_eq!(estimate_cpu_cycles(0), 0);
    assert_eq!(estimate_cpu_cycles(7), 21);
    // saturation instead of overflow
    assert_eq!(estimate_cpu_cycles(u64::MAX), u64::MAX);
}

#[test]
fn allocation_delta_subtracts_counter_readings() {
    assert_eq!(allocation_delta(1000, 1500), 500);
    assert_eq!(allocation_delta(7, 7), 0);
}

#[test]
fn text_payload_measurement_is_the_encoded_length() {
    let m = sample_metric();
    assert_eq!(m.measure_payload_size(), encode_metric_json(&m).len());
    let q = MetricQuery { start_time: 1, end_time: 2, hostname_filter: None };
    // "start_time=1&end_time=2"
    assert_eq!(q.measure_payload_size(), 23);
    let ms = vec![m.clone(), m.clone()];
    assert_eq!(ms.measure_payload_size(), 2 * encode_metric_json(&m).len() + 3);
    let st = MetricStatistics {
        count: 1,
        avg_cpu_centi_percent: 2,
        avg_memory_bytes: 3,
        avg_disk_io_centi_ops: 4,
        time_range_seconds: 5,
    };
    assert!(st.measure_payload_size() > 0);
}

#[test]
fn binary_sizes_are_true_encoded_sizes() {
    let m = sample_metric();
    // field tags (6) + timestamp 8 + lengths and strings + fixed ints
    let expected = protobench::binary_codec::encode_metric_bin(&m).unwrap().len();
    assert_eq!(measure_grpc_metric_size(&m), expected);
    let q = MetricQuery { start_time: 1, end_time: 2, hostname_filter: None };
    // [1] + 8 + [2] + 8 + [3] + flag byte
    assert_eq!(measure_grpc_query_size(&q), 20);
}

#[test]
fn segment_size_estimate_follows_the_documented_formula() {
    let m = sample_metric();
    // 24 + hostname + per tag (key + value + 8) + 32
    let tags: usize = m
        .tags
        .iter()
        .map(|t| t.key.len() + t.value.len() + 8)
        .sum();
    assert_eq!(measure_capnp_metric_size(&m), 24 + m.hostname.len() + tags + 32);
    let q = MetricQuery {
        start_time: 1,
        end_time: 2,
        hostname_filter: Some("web-01".to_string()),
    };
    assert_eq!(measure_capnp_query_size(&q), 16 + 6 + 16);
}

#[test]
fn ratio_and_score_follow_the_fixed_weights() {
    assert_eq!(ratio_permille(150, 100), 1500);
    assert_eq!(ratio_permille(50, 100), 500);
    assert_eq!(ratio_permille(5, 0), 5000);
    let base = BenchmarkMetrics {
        latency_nanos: 100,
        payload_size: PayloadSizes::new(10, 10),
        memory_allocated: 1000,
        cpu_cycles: 300,
    };
    let m = BenchmarkMetrics {
        latency_nanos: 200,
        payload_size: PayloadSizes::new(20, 20),
        memory_allocated: 500,
        cpu_cycles: 300,
    };
    // latency 2000, memory 500, traffic 2000, cycles 1000 permille
    // score = (400*2000 + 200*500 + 200*2000 + 200*1000) / 1000
    assert_eq!(cost_score(&m, &base), (400 * 2000 + 200 * 500 + 200 * 2000 + 200 * 1000) / 1000);
    assert_eq!(cost_score(&base, &base), 1000);
}

#[test]
fn best_index_picks_the_first_lowest_score() {
    let scores = vec![900u64, 400, 400, 1200];
    assert_eq!(best_index(&scores), 1);
    let one = vec![7u64];
    assert_eq!(best_index(&one), 0);
}
