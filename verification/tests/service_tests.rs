use protobench::generate::generate_test_data_at;
use protobench::model::{MetricPoint, MetricQuery, MetricStatistics};
use protobench::service::{
    text_handle_submit, BinaryAdapter, LocalService, MetricsService, SegmentAdapter,
    ServiceError, TextAdapter,
};
use protobench::store::InMemoryStorage;

fn dataset() -> Vec<MetricPoint> {
    generate_test_data_at(20, 1_700_000_000)
}

fn covering_query(data: &[MetricPoint]) -> MetricQuery {
    let first = data.iter().map(|m| m.timestamp).min().unwrap();
    let last = data.iter().map(|m| m.timestamp).max().unwrap();
    MetricQuery {
        start_time: data[0].timestamp.min(first) - 100,
        end_time: data[data.len() - 1].timestamp.max(last) + 100,
        hostname_filter: None,
    }
}

fn manual_stats(data: &[MetricPoint], q: &MetricQuery) -> MetricStatistics {
    let matches: Vec<&MetricPoint> = data
        .iter()
        .filter(|m| q.start_time <= m.timestamp && m.timestamp <= q.end_time)
        .filter(|m| q.hostname_filter.as_ref().map_or(true, |h| &m.hostname == h))
        .collect();
    let n = matches.len() as u64;
    if n == 0 {
        return MetricStatistics {
            count: 0,
            avg_cpu_centi_percent: 0,
            avg_memory_bytes: 0,
            avg_disk_io_centi_ops: 0,
            time_range_seconds: q.end_time - q.start_time,
        };
    }
    let cpu: u128 = matches.iter().map(|m| m.cpu_centi_percent as u128).sum();
    let mem: u128 = matches.iter().map(|m| m.memory_bytes as u128).sum();
    let disk: u128 = matches.iter().map(|m| m.disk_io_ops as u128).sum();
    MetricStatistics {
        count: n,
        avg_cpu_centi_percent: (cpu / n as u128) as u32,
        avg_memory_bytes: (mem / n as u128) as u64,
        avg_disk_io_centi_ops: (disk * 100 / n as u128) as u64,
        time_range_seconds: q.end_time - q.start_time,
    }
}

#[test]
fn all_adapters_return_twenty_generated_metrics() {
    let data = dataset();
    let q = covering_query(&data);

    let mut local = LocalService::new();
    let mut text = TextAdapter::new();
    let mut binary = BinaryAdapter::new();
    let mut segment = SegmentAdapter::new();
    for m in &data {
        local.submit_metric(m.clone()).unwrap();
        text.submit_metric(m.clone()).unwrap();
        binary.submit_metric(m.clone()).unwrap();
        segment.submit_metric(m.clone()).unwrap();
    }
    let rl = local.query_metrics(&q).unwrap();
    let rt = text.query_metrics(&q).unwrap();
    let rb = binary.query_metrics(&q).unwrap();
    let rs = segment.query_metrics(&q).unwrap();
    assert_eq!(rl.len(), 20);
    assert_eq!(rt.len(), 20);
    assert_eq!(rb.len(), 20);
    assert_eq!(rs.len(), 20);
    for i in 0..20 {
        assert_eq!(rl[i], rt[i]);
        assert_eq!(rt[i], rb[i]);
        assert_eq!(rb[i], rs[i]);
        assert_eq!(rl[i], data[i]);
    }
}

#[test]
fn all_adapters_agree_on_aggregates() {
    let data = dataset();
    let q = covering_query(&data);
    let expected = manual_stats(&data, &q);

    let mut text = TextAdapter::new();
    let mut binary = BinaryAdapter::new();
    let mut segment = SegmentAdapter::new();
    for m in &data {
        text.submit_metric(m.clone()).unwrap();
        binary.submit_metric(m.clone()).unwrap();
        segment.submit_metric(m.clone()).unwrap();
    }
    let st = text.get_statistics(&q).unwrap();
    let sb = binary.get_statistics(&q).unwrap();
    let ss = segment.get_statistics(&q).unwrap();
    assert_eq!(st, expected);
    assert_eq!(sb, expected);
    assert_eq!(ss, expected);
    assert_eq!(st.count, 20);
}

#[test]
fn absent_hostname_filter_yields_empty_result_and_zero_count() {
    let data = dataset();
    let q = MetricQuery {
        start_time: i64::MIN + 100,
        end_time: i64::MAX - 100,
        hostname_filter: Some("no-such-host".to_string()),
    };
    let mut text = TextAdapter::new();
    let mut binary = BinaryAdapter::new();
    let mut segment = SegmentAdapter::new();
    for m in &data {
        text.submit_metric(m.clone()).unwrap();
        binary.submit_metric(m.clone()).unwrap();
        segment.submit_metric(m.clone()).unwrap();
    }
    assert!(text.query_metrics(&q).unwrap().is_empty());
    assert!(binary.query_metrics(&q).unwrap().is_empty());
    assert!(segment.query_metrics(&q).unwrap().is_empty());
    // a range whose width does not fit the signed statistics field cannot
    // be aggregated; narrow it for the aggregate check
    let q2 = MetricQuery {
        start_time: 0,
        end_time: i64::MAX - 1,
        hostname_filter: Some("no-such-host".to_string()),
    };
    assert_eq!(text.get_statistics(&q2).unwrap().count, 0);
    assert_eq!(binary.get_statistics(&q2).unwrap().count, 0);
    assert_eq!(segment.get_statistics(&q2).unwrap().count, 0);
}

#[test]
fn malformed_wire_data_is_a_transport_error() {
    let mut storage = InMemoryStorage::new();
    let r = text_handle_submit(&mut storage, &b"not json".to_vec());
    assert_eq!(r, Err(ServiceError::MalformedData));
    let q = MetricQuery { start_time: 0, end_time: 1, hostname_filter: None };
    assert!(storage.query_metrics(&q).unwrap().is_empty());
}
