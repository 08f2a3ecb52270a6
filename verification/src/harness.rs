//! The instrumentation harness's arithmetic: payload sizes per wire
//! format, the nominal-clock cycle estimate, the allocation delta, the
//! weighted composite cost score, and the ranking that picks a winner.
//!
//! Reading clocks and allocator counters is outside the library; what is
//! computed from those readings is stated and proved here.

use vstd::prelude::*;

use crate::binary_codec::{
    bin_metric_encodable, bin_query_encodable, encode_metric_bin, encode_query_bin,
    spec_bin_metric, spec_bin_query, utf8,
};
use crate::json_codec::{
    encode_metric_json, encode_metrics_json, encode_query_qs, encode_stats_json,
    spec_json_array, spec_json_metric, spec_json_stats, spec_query_qs,
};
use crate::model::{metric_views, MetricPoint, MetricPointV, MetricQuery, MetricStatistics};

verus! {

/// Request and response byte counts of one measured call.
#[derive(Clone, Copy, Debug, PartialEq, Eq, Structural)]
pub struct PayloadSizes {
    pub request_bytes: usize,
    pub response_bytes: usize,
    pub total_bytes: usize,
}

impl PayloadSizes {
    /// Combines the two directions; the total is their sum.
    pub fn new(request_bytes: usize, response_bytes: usize) -> (r: PayloadSizes)
        requires
            request_bytes + response_bytes <= usize::MAX,
        ensures
            r.request_bytes == request_bytes,
            r.response_bytes == response_bytes,
            r.total_bytes == request_bytes + response_bytes,
    {
        PayloadSizes { request_bytes, response_bytes, total_bytes: request_bytes + response_bytes }
    }
}

/// One measured call: wall-clock latency, bytes moved, heap bytes
/// allocated, and the estimated cycle count.
#[derive(Clone, Copy, Debug)]
pub struct BenchmarkMetrics {
    /// Wall-clock time of the call, in nanoseconds.
    pub latency_nanos: u64,
    /// Bytes sent and received.
    pub payload_size: PayloadSizes,
    /// Heap bytes allocated during the call, from the allocation counter.
    pub memory_allocated: usize,
    /// Estimated cycles, from `estimate_cpu_cycles`.
    pub cpu_cycles: u64,
}

/// The assumed nominal clock rate for the cycle estimate, in hertz.
pub const APPROXIMATE_CPU_HZ: u64 = 3_000_000_000;

/// The cycle estimate owed for an elapsed time: nanoseconds times the
/// nominal rate over a gigahertz, saturated into 64 bits. An
/// approximation by construction, not a hardware counter read.
pub open spec fn spec_estimated_cycles(nanos: u64) -> int {
    let c = nanos * APPROXIMATE_CPU_HZ / 1_000_000_000;
    if c <= u64::MAX {
        c
    } else {
        u64::MAX as int
    }
}

/// Estimates CPU cycles for an elapsed time under the nominal clock rate.
pub fn estimate_cpu_cycles(latency_nanos: u64) -> (r: u64)
    ensures
        r as int == spec_estimated_cycles(latency_nanos),
{
    let c: u128 = latency_nanos as u128 * APPROXIMATE_CPU_HZ as u128 / 1_000_000_000;
    if c > u64::MAX as u128 {
        u64::MAX
    } else {
        c as u64
    }
}

/// The heap growth between two readings of the monotone allocation
/// counter.
pub fn allocation_delta(before: usize, after: usize) -> (r: usize)
    requires
        before <= after,
    ensures
        r == after - before,
{
    after - before
}

/// The number of bytes a value occupies on the text adapter's wire.
pub trait PayloadMeasurement {
    /// The measured value's wire size.
    spec fn spec_payload_size(&self) -> int;

    /// Measures the wire size by encoding.
    fn measure_payload_size(&self) -> (r: usize)
        ensures
            r == self.spec_payload_size(),
    ;
}

impl PayloadMeasurement for MetricPoint {
    open spec fn spec_payload_size(&self) -> int {
        spec_json_metric(self@).len() as int
    }

    fn measure_payload_size(&self) -> (r: usize) {
        let body = encode_metric_json(self);
        body.len()
    }
}

impl PayloadMeasurement for MetricQuery {
    open spec fn spec_payload_size(&self) -> int {
        spec_query_qs(self@).len() as int
    }

    fn measure_payload_size(&self) -> (r: usize) {
        let body = encode_query_qs(self);
        body.len()
    }
}

impl PayloadMeasurement for Vec<MetricPoint> {
    open spec fn spec_payload_size(&self) -> int {
        spec_json_array(metric_views(self@)).len() as int
    }

    fn measure_payload_size(&self) -> (r: usize) {
        let body = encode_metrics_json(self);
        body.len()
    }
}

impl PayloadMeasurement for MetricStatistics {
    open spec fn spec_payload_size(&self) -> int {
        spec_json_stats(*self).len() as int
    }

    fn measure_payload_size(&self) -> (r: usize) {
        let body = encode_stats_json(self);
        body.len()
    }
}

/// Measures the binary adapter's true encoded size of one metric message.
pub fn measure_grpc_metric_size(metric: &MetricPoint) -> (r: usize)
    requires
        bin_metric_encodable(metric@),
    ensures
        r == spec_bin_metric(metric@).len(),
{
    match encode_metric_bin(metric) {
        Some(body) => body.len(),
        None => {
            proof {
                assert(false);
            }
            0
        },
    }
}

/// Measures the binary adapter's true encoded size of one query message.
pub fn measure_grpc_query_size(query: &MetricQuery) -> (r: usize)
    requires
        bin_query_encodable(query@),
    ensures
        r == spec_bin_query(query@).len(),
{
    match encode_query_bin(query) {
        Some(body) => body.len(),
        None => {
            proof {
                assert(false);
            }
            0
        },
    }
}

/// The per-tag share of the segment-message size estimate: both strings
/// and a fixed eight bytes of bookkeeping each.
pub open spec fn spec_tag_estimate(ts: Seq<(Seq<char>, Seq<char>)>) -> int
    decreases ts.len(),
{
    if ts.len() == 0 {
        0
    } else {
        spec_tag_estimate(ts.drop_last()) + utf8(ts.last().0).len() + utf8(ts.last().1).len() + 8
    }
}

proof fn lemma_tag_estimate_nonneg(ts: Seq<(Seq<char>, Seq<char>)>)
    ensures
        spec_tag_estimate(ts) >= 0,
    decreases ts.len(),
{
    if ts.len() > 0 {
        lemma_tag_estimate_nonneg(ts.drop_last());
    }
}

proof fn lemma_tag_estimate_mono(ts: Seq<(Seq<char>, Seq<char>)>, i: int)
    requires
        0 <= i <= ts.len(),
    ensures
        spec_tag_estimate(ts.take(i)) <= spec_tag_estimate(ts),
    decreases ts.len() - i,
{
    if i < ts.len() {
        assert(ts.take(i + 1).drop_last() =~= ts.take(i));
        assert(ts.take(i + 1).last() == ts[i]);
        lemma_tag_estimate_mono(ts, i + 1);
    } else {
        assert(ts.take(i) =~= ts);
    }
}

/// The documented size estimate for a segment-format metric: fixed
/// per-record overhead plus the variable-length fields. The
/// capability-style message has no single discrete encoded size until it
/// is flushed, so the harness scores it by this estimate.
pub open spec fn spec_capnp_metric_estimate(m: MetricPointV) -> int {
    24 + utf8(m.hostname).len() + spec_tag_estimate(m.tags) + 32
}

/// Computes the segment-format size estimate for one metric.
#[verifier::loop_isolation(false)]
pub fn measure_capnp_metric_size(metric: &MetricPoint) -> (r: usize)
    requires
        spec_capnp_metric_estimate(metric@) <= usize::MAX,
    ensures
        r == spec_capnp_metric_estimate(metric@),
{
    let hostname_len = metric.hostname.as_str().len();
    let mut acc: u128 = hostname_len as u128;
    let n = metric.tags.len();
    let mut i: usize = 0;
    proof {
        assert(metric@.tags.take(0) =~= Seq::<(Seq<char>, Seq<char>)>::empty());
        assert(spec_tag_estimate(Seq::<(Seq<char>, Seq<char>)>::empty()) == 0);
        lemma_tag_estimate_nonneg(metric@.tags);
        assert(utf8(metric@.hostname).len() <= usize::MAX);
    }
    while i < n
        invariant
            n == metric.tags@.len(),
            0 <= i <= n,
            acc == utf8(metric@.hostname).len() + spec_tag_estimate(metric@.tags.take(i as int)),
        decreases n - i,
    {
        proof {
            lemma_tag_estimate_mono(metric@.tags, i + 1);
            lemma_tag_estimate_nonneg(metric@.tags.take(i as int));
            assert(metric@.tags.take(i + 1).drop_last() =~= metric@.tags.take(i as int));
            assert(metric@.tags.take(i + 1).last() == metric@.tags[i as int]);
        }
        let k = metric.tags[i].key.as_str().len();
        let v = metric.tags[i].value.as_str().len();
        acc = acc + k as u128 + v as u128 + 8;
        i += 1;
    }
    proof {
        assert(metric@.tags.take(n as int) =~= metric@.tags);
    }
    (56 + acc as usize)
}

/// The documented size estimate for a segment-format query: the two
/// timestamps, the optional hostname, and fixed overhead.
pub open spec fn spec_capnp_query_estimate(q: crate::model::MetricQueryV) -> int {
    16 + (match q.hostname_filter {
        Some(h) => utf8(h).len() as int,
        None => 0,
    }) + 16
}

/// Computes the segment-format size estimate for one query.
pub fn measure_capnp_query_size(query: &MetricQuery) -> (r: usize)
    requires
        spec_capnp_query_estimate(query@) <= usize::MAX,
    ensures
        r == spec_capnp_query_estimate(query@),
{
    let hostname_len: usize = match &query.hostname_filter {
        Some(h) => h.as_str().len(),
        None => 0,
    };
    32 + hostname_len
}

/// A cost in thousandths of the baseline: value times a thousand over the
/// baseline (a zero baseline counts as one), saturated into 64 bits.
pub open spec fn spec_ratio_permille(value: u64, baseline: u64) -> int {
    let b: int = if baseline == 0 {
        1
    } else {
        baseline as int
    };
    let c = value * 1000 / b;
    if c <= u64::MAX {
        c
    } else {
        u64::MAX as int
    }
}

/// Computes a permille ratio against a baseline.
pub fn ratio_permille(value: u64, baseline: u64) -> (r: u64)
    ensures
        r as int == spec_ratio_permille(value, baseline),
{
    let b: u128 = if baseline == 0 {
        1
    } else {
        baseline as u128
    };
    let c: u128 = value as u128 * 1000 / b;
    if c > u64::MAX as u128 {
        u64::MAX
    } else {
        c as u64
    }
}

/// The composite cost of one measured call against a baseline: normalized
/// latency, memory, traffic and cycle estimate under the fixed weights
/// 0.4, 0.2, 0.2 and 0.2 (in permille). Lower is better; the score exists
/// purely for ranking.
pub open spec fn spec_cost_score(m: BenchmarkMetrics, baseline: BenchmarkMetrics) -> int {
    let rl = spec_ratio_permille(m.latency_nanos, baseline.latency_nanos);
    let rm = spec_ratio_permille(m.memory_allocated as u64, baseline.memory_allocated as u64);
    let rt = spec_ratio_permille(
        m.payload_size.total_bytes as u64,
        baseline.payload_size.total_bytes as u64,
    );
    let rc = spec_ratio_permille(m.cpu_cycles, baseline.cpu_cycles);
    (400 * rl + 200 * rm + 200 * rt + 200 * rc) / 1000
}

/// Computes the composite cost score of one measured call.
pub fn cost_score(m: &BenchmarkMetrics, baseline: &BenchmarkMetrics) -> (r: u64)
    ensures
        r as int == spec_cost_score(*m, *baseline),
{
    let rl = ratio_permille(m.latency_nanos, baseline.latency_nanos) as u128;
    let rm = ratio_permille(m.memory_allocated as u64, baseline.memory_allocated as u64) as u128;
    let rt = ratio_permille(
        m.payload_size.total_bytes as u64,
        baseline.payload_size.total_bytes as u64,
    ) as u128;
    let rc = ratio_permille(m.cpu_cycles, baseline.cpu_cycles) as u128;
    let total: u128 = 400 * rl + 200 * rm + 200 * rt + 200 * rc;
    let score: u128 = total / 1000;
    proof {
        let mx = u64::MAX as int;
        vstd::arithmetic::div_mod::lemma_div_is_ordered(total as int, 1000 * mx, 1000);
        vstd::arithmetic::div_mod::lemma_div_by_multiple(mx, 1000);
        assert(1000 * mx == mx * 1000);
    }
    score as u64
}

/// The first index with the lowest score: the comparative winner.
pub fn best_index(scores: &Vec<u64>) -> (r: usize)
    requires
        scores@.len() > 0,
    ensures
        r < scores@.len(),
        forall|k: int| 0 <= k < scores@.len() ==> scores@[r as int] <= scores@[k],
        forall|k: int| 0 <= k < r ==> scores@[k] > scores@[r as int],
{
    let mut best: usize = 0;
    let mut i: usize = 1;
    while i < scores.len()
        invariant
            scores@.len() > 0,
            best < i <= scores@.len(),
            forall|k: int| 0 <= k < i ==> scores@[best as int] <= scores@[k],
            forall|k: int| 0 <= k < best ==> scores@[k] > scores@[best as int],
        decreases scores@.len() - i,
    {
        if scores[i] < scores[best] {
            best = i;
        }
        i += 1;
    }
    best
}

} // verus!
