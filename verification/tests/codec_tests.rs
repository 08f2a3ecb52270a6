use protobench::binary_codec::{
    decode_metric_bin, decode_metrics_bin, decode_query_bin, decode_stats_bin,
    encode_metric_bin, encode_metrics_bin, encode_query_bin, encode_stats_bin,
};
use protobench::json_codec::{
    decode_metric_json, decode_metrics_json, decode_query_qs, decode_stats_json,
    encode_metric_json, encode_metrics_json, encode_query_qs, encode_stats_json,
};
use protobench::model::{MetricPoint, MetricQuery, MetricStatistics, Tag};
use protobench::segment_codec::{
    decode_metric_seg, decode_metrics_seg, decode_query_seg, decode_stats_seg,
    encode_metric_seg, encode_metrics_seg, encode_query_seg, encode_stats_seg,
};

fn sample_metric() -> MetricPoint {
    MetricPoint {
        timestamp: -1234567890,
        hostname: "db-primary".to_string(),
        cpu_centi_percent: 4275,
        memory_bytes: 8_589_934_592,
        disk_io_ops: 777,
        tags: vec![
            Tag::new("env".to_string(), "prod".to_string()),
            Tag::new("region".to_string(), "eu-central".to_string()),
        ],
    }
}

fn awkward_metric() -> MetricPoint {
    MetricPoint {
        timestamp: i64::MIN,
        hostname: "we\"ird\\host\n\u{1F600}".to_string(),
        cpu_centi_percent: u32::MAX,
        memory_bytes: u64::MAX,
        disk_io_ops: 0,
        tags: vec![Tag::new("k\"ey".to_string(), "va\\lue\twith\u{0007}ctl".to_string())],
    }
}

fn sample_stats() -> MetricStatistics {
    MetricStatistics {
        count: 20,
        avg_cpu_centi_percent: 4321,
        avg_memory_bytes: 7_000_000_123,
        avg_disk_io_centi_ops: 123456,
        time_range_seconds: -42,
    }
}

#[test]
fn json_metric_round_trip() {
    let m = sample_metric();
    let bytes = encode_metric_json(&m);
    let back = decode_metric_json(&bytes).unwrap();
    assert_eq!(back, m);
}

#[test]
fn json_metric_round_trip_with_escapes_and_extremes() {
    let m = awkward_metric();
    let bytes = encode_metric_json(&m);
    let back = decode_metric_json(&bytes).unwrap();
    assert_eq!(back, m);
}

#[test]
fn json_metric_exact_bytes() {
    let m = MetricPoint {
        timestamp: -5,
        hostname: "a".to_string(),
        cpu_centi_percent: 1,
        memory_bytes: 2,
        disk_io_ops: 3,
        tags: vec![Tag::new("k".to_string(), "v".to_string())],
    };
    let bytes = encode_metric_json(&m);
    let text = String::from_utf8(bytes).unwrap();
    assert_eq!(
        text,
        "{\"timestamp\":-5,\"hostname\":\"a\",\"cpu_centi_percent\":1,\"memory_bytes\":2,\"disk_io_ops\":3,\"tags\":{\"k\":\"v\"}}"
    );
}

#[test]
fn json_array_round_trip_including_empty() {
    let ms = vec![sample_metric(), awkward_metric()];
    let bytes = encode_metrics_json(&ms);
    let back = decode_metrics_json(&bytes).unwrap();
    assert_eq!(back, ms);
    let empty: Vec<MetricPoint> = Vec::new();
    let bytes = encode_metrics_json(&empty);
    assert_eq!(String::from_utf8(bytes.clone()).unwrap(), "[]");
    assert_eq!(decode_metrics_json(&bytes).unwrap().len(), 0);
}

#[test]
fn json_stats_round_trip() {
    let st = sample_stats();
    let bytes = encode_stats_json(&st);
    assert_eq!(decode_stats_json(&bytes).unwrap(), st);
}

#[test]
fn query_string_round_trip() {
    let q = MetricQuery { start_time: -100, end_time: 200, hostname_filter: None };
    let bytes = encode_query_qs(&q);
    assert_eq!(String::from_utf8(bytes.clone()).unwrap(), "start_time=-100&end_time=200");
    let back = decode_query_qs(&bytes).unwrap();
    assert_eq!(back.start_time, -100);
    assert_eq!(back.end_time, 200);
    assert!(back.hostname_filter.is_none());

    let q = MetricQuery {
        start_time: 1,
        end_time: 2,
        hostname_filter: Some("web-01".to_string()),
    };
    let bytes = encode_query_qs(&q);
    assert_eq!(
        String::from_utf8(bytes.clone()).unwrap(),
        "start_time=1&end_time=2&hostname_filter=web-01"
    );
    let back = decode_query_qs(&bytes).unwrap();
    assert_eq!(back.hostname_filter.as_deref(), Some("web-01"));
}

#[test]
fn json_decode_rejects_malformed_input() {
    assert!(decode_metric_json(&b"{}".to_vec()).is_none());
    assert!(decode_metric_json(&Vec::new()).is_none());
    assert!(decode_metric_json(&b"{\"timestamp\":xx".to_vec()).is_none());
    let m = sample_metric();
    let mut bytes = encode_metric_json(&m);
    bytes.push(b' ');
    assert!(decode_metric_json(&bytes).is_none(), "trailing bytes must be rejected");
    assert!(decode_query_qs(&b"start_time=&end_time=2".to_vec()).is_none());
    assert!(decode_stats_json(&b"{\"count\":1}".to_vec()).is_none());
}

#[test]
fn binary_metric_round_trip() {
    let m = sample_metric();
    let bytes = encode_metric_bin(&m).unwrap();
    assert_eq!(decode_metric_bin(&bytes).unwrap(), m);
    let m = awkward_metric();
    let bytes = encode_metric_bin(&m).unwrap();
    assert_eq!(decode_metric_bin(&bytes).unwrap(), m);
}

#[test]
fn binary_stream_round_trip() {
    let ms = vec![sample_metric(), awkward_metric(), sample_metric()];
    let bytes = encode_metrics_bin(&ms).unwrap();
    assert_eq!(decode_metrics_bin(&bytes).unwrap(), ms);
    let empty: Vec<MetricPoint> = Vec::new();
    let bytes = encode_metrics_bin(&empty).unwrap();
    assert!(bytes.is_empty());
    assert_eq!(decode_metrics_bin(&bytes).unwrap().len(), 0);
}

#[test]
fn binary_query_and_stats_round_trip() {
    let q = MetricQuery { start_time: i64::MIN, end_time: i64::MAX, hostname_filter: None };
    let bytes = encode_query_bin(&q).unwrap();
    let back = decode_query_bin(&bytes).unwrap();
    assert_eq!(back.start_time, i64::MIN);
    assert_eq!(back.end_time, i64::MAX);
    assert!(back.hostname_filter.is_none());

    let q = MetricQuery { start_time: 0, end_time: 9, hostname_filter: Some("h".to_string()) };
    let bytes = encode_query_bin(&q).unwrap();
    assert_eq!(decode_query_bin(&bytes).unwrap().hostname_filter.as_deref(), Some("h"));

    let st = sample_stats();
    let bytes = encode_stats_bin(&st);
    assert_eq!(decode_stats_bin(&bytes).unwrap(), st);
}

#[test]
fn binary_decode_rejects_malformed_input() {
    assert!(decode_metric_bin(&Vec::new()).is_none());
    assert!(decode_metric_bin(&b"garbage".to_vec()).is_none());
    let m = sample_metric();
    let mut bytes = encode_metric_bin(&m).unwrap();
    bytes.push(0);
    assert!(decode_metric_bin(&bytes).is_none(), "trailing bytes must be rejected");
    // a non-UTF-8 hostname byte must be refused, not replaced
    let mut bad = encode_metric_bin(&MetricPoint {
        timestamp: 0,
        hostname: "xy".to_string(),
        cpu_centi_percent: 0,
        memory_bytes: 0,
        disk_io_ops: 0,
        tags: Vec::new(),
    })
    .unwrap();
    // hostname bytes start after tag byte 1 + 8, tag byte 2 + 4-byte length
    bad[14] = 0xff;
    assert!(decode_metric_bin(&bad).is_none());
}

#[test]
fn segment_metric_round_trip() {
    let m = sample_metric();
    let bytes = encode_metric_seg(&m).unwrap();
    assert_eq!(decode_metric_seg(&bytes).unwrap(), m);
    let m = awkward_metric();
    let bytes = encode_metric_seg(&m).unwrap();
    assert_eq!(decode_metric_seg(&bytes).unwrap(), m);
}

#[test]
fn segment_message_declares_its_body_size() {
    let m = sample_metric();
    let bytes = encode_metric_seg(&m).unwrap();
    let total = u32::from_le_bytes([bytes[0], bytes[1], bytes[2], bytes[3]]) as usize;
    assert_eq!(total + 4, bytes.len());
    // a wrong declared size must be refused
    let mut bad = bytes.clone();
    bad[0] = bad[0].wrapping_add(1);
    assert!(decode_metric_seg(&bad).is_none());
}

#[test]
fn segment_list_query_stats_round_trip() {
    let ms = vec![sample_metric(), awkward_metric()];
    let bytes = encode_metrics_seg(&ms).unwrap();
    assert_eq!(decode_metrics_seg(&bytes).unwrap(), ms);

    let q = MetricQuery { start_time: -7, end_time: 7, hostname_filter: Some("web-02".to_string()) };
    let bytes = encode_query_seg(&q).unwrap();
    assert_eq!(decode_query_seg(&bytes).unwrap().hostname_filter.as_deref(), Some("web-02"));

    let st = sample_stats();
    let bytes = encode_stats_seg(&st);
    assert_eq!(decode_stats_seg(&bytes).unwrap(), st);
}

#[test]
fn wire_formats_differ_for_the_same_value() {
    let m = sample_metric();
    let j = encode_metric_json(&m);
    let b = encode_metric_bin(&m).unwrap();
    let s = encode_metric_seg(&m).unwrap();
    assert_ne!(j, b);
    assert_ne!(b, s);
    assert_ne!(j, s);
}
