//! The service contract: submit, query and aggregate, with identical
//! semantics regardless of transport; the three adapters' server halves;
//! and one in-process loopback implementation per wire format.
//!
//! A server half decodes a wire request, delegates to the shared store and
//! encodes the reply. A loopback adapter runs a whole exchange through its
//! codec: client-encode, server-decode, store, server-encode,
//! client-decode. The contract pins every implementation to the same
//! mathematical answer (`spec_query` and `spec_statistics` over the
//! adapter's log), which is what makes cross-protocol comparison
//! meaningful.

use vstd::prelude::*;

use crate::binary_codec::{
    bin_metric_encodable, bin_query_encodable, bin_stream_encodable, decode_metric_bin,
    decode_metrics_bin, decode_query_bin, decode_stats_bin, encode_metric_bin,
    encode_metrics_bin, encode_query_bin, encode_stats_bin, lemma_bin_metric_round_trip,
    lemma_bin_query_round_trip, lemma_bin_stats_round_trip, lemma_bin_stream_round_trip,
    sp_decode_bin_metric, sp_decode_bin_query, spec_bin_metric, spec_bin_stats, spec_bin_stream,
};
use crate::json_codec::{
    decode_metric_json, decode_metrics_json, decode_query_qs, decode_stats_json,
    encode_metric_json, encode_metrics_json, encode_query_qs, encode_stats_json,
    lemma_json_array_round_trip, lemma_json_metric_round_trip, lemma_json_stats_round_trip,
    lemma_query_round_trip, sp_decode_metric, sp_decode_query, spec_json_array,
    spec_json_metric, spec_json_stats,
};
use crate::model::{
    metric_views, MetricPoint, MetricPointV, MetricQuery, MetricQueryV, MetricStatistics,
};
use crate::segment_codec::{
    decode_metric_seg, decode_metrics_seg, decode_query_seg, decode_stats_seg,
    encode_metric_seg, encode_metrics_seg, encode_query_seg, encode_stats_seg,
    lemma_seg_list_round_trip, lemma_seg_metric_round_trip, lemma_seg_query_round_trip,
    lemma_seg_stats_round_trip, seg_list_encodable, seg_metric_encodable, seg_query_encodable,
    sp_decode_seg_metric, sp_decode_seg_query, spec_seg_list, spec_seg_metric, spec_seg_stats,
};
use crate::store::{spec_query, spec_statistics, InMemoryStorage};

verus! {

/// A service operation's failure: transport errors are distinct from
/// store-layer errors and are never retried internally.
#[derive(Clone, Copy, Debug, PartialEq, Eq, Structural)]
pub enum ServiceError {
    /// A wire size field would overflow: the message cannot be built.
    MessageTooLarge,
    /// The peer's bytes did not decode as the expected message.
    MalformedData,
    /// The connection failed before an answer arrived.
    ConnectionFailed,
    /// The store behind the server reported a failure.
    StoreFailed,
}

/// Whether a query's range width fits the signed 64-bit statistics field.
pub open spec fn range_fits(q: MetricQueryV) -> bool {
    i64::MIN <= q.end_time - q.start_time <= i64::MAX
}

/// Checks `range_fits` on a concrete query.
pub fn check_range_fits(q: &MetricQuery) -> (r: bool)
    ensures
        r == range_fits(q@),
{
    let d: i128 = q.end_time as i128 - q.start_time as i128;
    i64::MIN as i128 <= d && d <= i64::MAX as i128
}

// ------------------------------------------------------------ server halves
/// The text server half of submit: decodes a JSON metric body and appends
/// it; any failure to decode is malformed data and leaves the store
/// unchanged.
pub fn text_handle_submit(storage: &mut InMemoryStorage, request: &Vec<u8>) -> (r: Result<
    (),
    ServiceError,
>)
    ensures
        match sp_decode_metric(request@) {
            Some(m) => r is Ok && final(storage)@ == old(storage)@.push(m),
            None => r == Err::<(), ServiceError>(ServiceError::MalformedData) && final(storage)@
                == old(storage)@,
        },
{
    let metric = match decode_metric_json(request) {
        Some(m) => m,
        None => {
            return Err(ServiceError::MalformedData);
        },
    };
    match storage.store_metric(metric) {
        Ok(()) => Ok(()),
        Err(_) => {
            proof {
                assert(false);
            }
            Err(ServiceError::StoreFailed)
        },
    }
}

/// The text server half of query: decodes a query string and answers with
/// a JSON array of the matches.
pub fn text_handle_query(storage: &InMemoryStorage, request: &Vec<u8>) -> (r: Result<
    Vec<u8>,
    ServiceError,
>)
    ensures
        match sp_decode_query(request@) {
            Some(q) => r matches Ok(resp) && resp@ == spec_json_array(
                spec_query(storage@, q),
            ),
            None => r == Err::<Vec<u8>, ServiceError>(ServiceError::MalformedData),
        },
{
    let query = match decode_query_qs(request) {
        Some(q) => q,
        None => {
            return Err(ServiceError::MalformedData);
        },
    };
    let found = match storage.query_metrics(&query) {
        Ok(v) => v,
        Err(_) => {
            proof {
                assert(false);
            }
            return Err(ServiceError::StoreFailed);
        },
    };
    Ok(encode_metrics_json(&found))
}

/// The text server half of aggregate: decodes a query string and answers
/// with a JSON statistics body; a range too wide for the statistics field
/// is malformed.
pub fn text_handle_statistics(storage: &InMemoryStorage, request: &Vec<u8>) -> (r: Result<
    Vec<u8>,
    ServiceError,
>)
    ensures
        match sp_decode_query(request@) {
            Some(q) => if range_fits(q) {
                r matches Ok(resp) && resp@ == spec_json_stats(spec_statistics(storage@, q))
            } else {
                r == Err::<Vec<u8>, ServiceError>(ServiceError::MalformedData)
            },
            None => r == Err::<Vec<u8>, ServiceError>(ServiceError::MalformedData),
        },
{
    let query = match decode_query_qs(request) {
        Some(q) => q,
        None => {
            return Err(ServiceError::MalformedData);
        },
    };
    if !check_range_fits(&query) {
        return Err(ServiceError::MalformedData);
    }
    let stats = match storage.calculate_statistics(&query) {
        Ok(st) => st,
        Err(_) => {
            proof {
                assert(false);
            }
            return Err(ServiceError::StoreFailed);
        },
    };
    Ok(encode_stats_json(&stats))
}

/// The binary server half of submit.
pub fn binary_handle_submit(storage: &mut InMemoryStorage, request: &Vec<u8>) -> (r: Result<
    (),
    ServiceError,
>)
    ensures
        match sp_decode_bin_metric(request@) {
            Some(m) => r is Ok && final(storage)@ == old(storage)@.push(m),
            None => r == Err::<(), ServiceError>(ServiceError::MalformedData) && final(storage)@
                == old(storage)@,
        },
{
    let metric = match decode_metric_bin(request) {
        Some(m) => m,
        None => {
            return Err(ServiceError::MalformedData);
        },
    };
    match storage.store_metric(metric) {
        Ok(()) => Ok(()),
        Err(_) => {
            proof {
                assert(false);
            }
            Err(ServiceError::StoreFailed)
        },
    }
}

/// The binary server half of query: the answer streams as metric messages
/// back to back; a result too large for the stream's size fields is
/// reported, not truncated.
pub fn binary_handle_query(storage: &InMemoryStorage, request: &Vec<u8>) -> (r: Result<
    Vec<u8>,
    ServiceError,
>)
    ensures
        match sp_decode_bin_query(request@) {
            Some(q) => if bin_stream_encodable(spec_query(storage@, q)) {
                r matches Ok(resp) && resp@ == spec_bin_stream(spec_query(storage@, q))
            } else {
                r == Err::<Vec<u8>, ServiceError>(ServiceError::MessageTooLarge)
            },
            None => r == Err::<Vec<u8>, ServiceError>(ServiceError::MalformedData),
        },
{
    let query = match decode_query_bin(request) {
        Some(q) => q,
        None => {
            return Err(ServiceError::MalformedData);
        },
    };
    let found = match storage.query_metrics(&query) {
        Ok(v) => v,
        Err(_) => {
            proof {
                assert(false);
            }
            return Err(ServiceError::StoreFailed);
        },
    };
    match encode_metrics_bin(&found) {
        Some(resp) => Ok(resp),
        None => Err(ServiceError::MessageTooLarge),
    }
}

/// The binary server half of aggregate.
pub fn binary_handle_statistics(storage: &InMemoryStorage, request: &Vec<u8>) -> (r: Result<
    Vec<u8>,
    ServiceError,
>)
    ensures
        match sp_decode_bin_query(request@) {
            Some(q) => if range_fits(q) {
                r matches Ok(resp) && resp@ == spec_bin_stats(spec_statistics(storage@, q))
            } else {
                r == Err::<Vec<u8>, ServiceError>(ServiceError::MalformedData)
            },
            None => r == Err::<Vec<u8>, ServiceError>(ServiceError::MalformedData),
        },
{
    let query = match decode_query_bin(request) {
        Some(q) => q,
        None => {
            return Err(ServiceError::MalformedData);
        },
    };
    if !check_range_fits(&query) {
        return Err(ServiceError::MalformedData);
    }
    let stats = match storage.calculate_statistics(&query) {
        Ok(st) => st,
        Err(_) => {
            proof {
                assert(false);
            }
            return Err(ServiceError::StoreFailed);
        },
    };
    Ok(encode_stats_bin(&stats))
}

/// The segment server half of submit.
pub fn segment_handle_submit(storage: &mut InMemoryStorage, request: &Vec<u8>) -> (r: Result<
    (),
    ServiceError,
>)
    ensures
        match sp_decode_seg_metric(request@) {
            Some(m) => r is Ok && final(storage)@ == old(storage)@.push(m),
            None => r == Err::<(), ServiceError>(ServiceError::MalformedData) && final(storage)@
                == old(storage)@,
        },
{
    let metric = match decode_metric_seg(request) {
        Some(m) => m,
        None => {
            return Err(ServiceError::MalformedData);
        },
    };
    match storage.store_metric(metric) {
        Ok(()) => Ok(()),
        Err(_) => {
            proof {
                assert(false);
            }
            Err(ServiceError::StoreFailed)
        },
    }
}

/// The segment server half of query: the answer is one list message with
/// the result count sized up front.
pub fn segment_handle_query(storage: &InMemoryStorage, request: &Vec<u8>) -> (r: Result<
    Vec<u8>,
    ServiceError,
>)
    ensures
        match sp_decode_seg_query(request@) {
            Some(q) => if seg_list_encodable(spec_query(storage@, q)) {
                r matches Ok(resp) && resp@ == spec_seg_list(spec_query(storage@, q))
            } else {
                r == Err::<Vec<u8>, ServiceError>(ServiceError::MessageTooLarge)
            },
            None => r == Err::<Vec<u8>, ServiceError>(ServiceError::MalformedData),
        },
{
    let query = match decode_query_seg(request) {
        Some(q) => q,
        None => {
            return Err(ServiceError::MalformedData);
        },
    };
    let found = match storage.query_metrics(&query) {
        Ok(v) => v,
        Err(_) => {
            proof {
                assert(false);
            }
            return Err(ServiceError::StoreFailed);
        },
    };
    match encode_metrics_seg(&found) {
        Some(resp) => Ok(resp),
        None => Err(ServiceError::MessageTooLarge),
    }
}

/// The segment server half of aggregate.
pub fn segment_handle_statistics(storage: &InMemoryStorage, request: &Vec<u8>) -> (r: Result<
    Vec<u8>,
    ServiceError,
>)
    ensures
        match sp_decode_seg_query(request@) {
            Some(q) => if range_fits(q) {
                r matches Ok(resp) && resp@ == crate::segment_codec::spec_seg_stats(
                    spec_statistics(storage@, q),
                )
            } else {
                r == Err::<Vec<u8>, ServiceError>(ServiceError::MalformedData)
            },
            None => r == Err::<Vec<u8>, ServiceError>(ServiceError::MalformedData),
        },
{
    let query = match decode_query_seg(request) {
        Some(q) => q,
        None => {
            return Err(ServiceError::MalformedData);
        },
    };
    if !check_range_fits(&query) {
        return Err(ServiceError::MalformedData);
    }
    let stats = match storage.calculate_statistics(&query) {
        Ok(st) => st,
        Err(_) => {
            proof {
                assert(false);
            }
            return Err(ServiceError::StoreFailed);
        },
    };
    Ok(encode_stats_seg(&stats))
}

// ------------------------------------------------------- service contract
/// The three logical operations, independent of encoding. Every
/// implementation meets the same contract: whenever the transport accepts
/// the input and can carry the answer, the submitted metric is appended to
/// the log, the query answer is exactly `spec_query`, and the aggregate is
/// exactly `spec_statistics` — identical inputs give identical logical
/// outputs through every adapter.
pub trait MetricsService: Sized {
    /// The metrics this service holds, in insertion order.
    spec fn log(&self) -> Seq<MetricPointV>;

    /// Whether this transport can carry `m` in a submit request.
    spec fn accepts_metric(&self, m: MetricPointV) -> bool;

    /// Whether this transport can carry `q` in a request.
    spec fn accepts_query(&self, q: MetricQueryV) -> bool;

    /// Whether this transport can carry the answer to `q` over the
    /// current log.
    spec fn can_answer(&self, q: MetricQueryV) -> bool;

    /// Appends `metric` to the log; never rejects a metric the transport
    /// can carry.
    fn submit_metric(&mut self, metric: MetricPoint) -> (r: Result<(), ServiceError>)
        ensures
            r is Ok <==> old(self).accepts_metric(metric@),
            r is Ok ==> final(self).log() == old(self).log().push(metric@),
            r is Err ==> final(self).log() == old(self).log(),
    ;

    /// Returns every stored metric matching `query`, in insertion order.
    fn query_metrics(&self, query: &MetricQuery) -> (r: Result<Vec<MetricPoint>, ServiceError>)
        ensures
            r is Ok <==> self.accepts_query(query@) && self.can_answer(query@),
            r matches Ok(ms) ==> metric_views(ms@) == spec_query(self.log(), query@),
    ;

    /// Returns the aggregate statistics over `query`'s matches.
    fn get_statistics(&self, query: &MetricQuery) -> (r: Result<MetricStatistics, ServiceError>)
        requires
            range_fits(query@),
        ensures
            r is Ok <==> self.accepts_query(query@),
            r matches Ok(st) ==> st == spec_statistics(self.log(), query@),
    ;
}

// ------------------------------------------------------- implementations
/// The store itself as a service: no wire format, nothing to refuse.
pub struct LocalService {
    pub storage: InMemoryStorage,
}

impl LocalService {
    pub fn new() -> (s: LocalService)
        ensures
            s.log() == Seq::<MetricPointV>::empty(),
    {
        LocalService { storage: InMemoryStorage::new() }
    }
}

impl MetricsService for LocalService {
    open spec fn log(&self) -> Seq<MetricPointV> {
        self.storage@
    }

    open spec fn accepts_metric(&self, m: MetricPointV) -> bool {
        true
    }

    open spec fn accepts_query(&self, q: MetricQueryV) -> bool {
        true
    }

    open spec fn can_answer(&self, q: MetricQueryV) -> bool {
        true
    }

    fn submit_metric(&mut self, metric: MetricPoint) -> (r: Result<(), ServiceError>) {
        match self.storage.store_metric(metric) {
            Ok(()) => Ok(()),
            Err(_) => {
                proof {
                    assert(false);
                }
                Err(ServiceError::StoreFailed)
            },
        }
    }

    fn query_metrics(&self, query: &MetricQuery) -> (r: Result<Vec<MetricPoint>, ServiceError>) {
        match self.storage.query_metrics(query) {
            Ok(v) => Ok(v),
            Err(_) => {
                proof {
                    assert(false);
                }
                Err(ServiceError::StoreFailed)
            },
        }
    }

    fn get_statistics(&self, query: &MetricQuery) -> (r: Result<MetricStatistics, ServiceError>) {
        match self.storage.calculate_statistics(query) {
            Ok(st) => Ok(st),
            Err(_) => {
                proof {
                    assert(false);
                }
                Err(ServiceError::StoreFailed)
            },
        }
    }
}

/// The text adapter: JSON bodies over an HTTP-style exchange, run here as
/// a loopback of its client and server halves. The text format has no
/// size fields, so it carries everything.
pub struct TextAdapter {
    pub storage: InMemoryStorage,
}

impl TextAdapter {
    pub fn new() -> (s: TextAdapter)
        ensures
            s.log() == Seq::<MetricPointV>::empty(),
    {
        TextAdapter { storage: InMemoryStorage::new() }
    }
}

impl MetricsService for TextAdapter {
    open spec fn log(&self) -> Seq<MetricPointV> {
        self.storage@
    }

    open spec fn accepts_metric(&self, m: MetricPointV) -> bool {
        true
    }

    open spec fn accepts_query(&self, q: MetricQueryV) -> bool {
        true
    }

    open spec fn can_answer(&self, q: MetricQueryV) -> bool {
        true
    }

    fn submit_metric(&mut self, metric: MetricPoint) -> (r: Result<(), ServiceError>) {
        proof {
            lemma_json_metric_round_trip(metric@);
        }
        let request = encode_metric_json(&metric);
        text_handle_submit(&mut self.storage, &request)
    }

    fn query_metrics(&self, query: &MetricQuery) -> (r: Result<Vec<MetricPoint>, ServiceError>) {
        proof {
            lemma_query_round_trip(query@);
        }
        let request = encode_query_qs(query);
        let response = match text_handle_query(&self.storage, &request) {
            Ok(resp) => resp,
            Err(e) => {
                proof {
                    assert(false);
                }
                return Err(e);
            },
        };
        proof {
            lemma_json_array_round_trip(spec_query(self.storage@, query@));
        }
        match decode_metrics_json(&response) {
            Some(ms) => Ok(ms),
            None => {
                proof {
                    assert(false);
                }
                Err(ServiceError::MalformedData)
            },
        }
    }

    fn get_statistics(&self, query: &MetricQuery) -> (r: Result<MetricStatistics, ServiceError>) {
        proof {
            lemma_query_round_trip(query@);
        }
        let request = encode_query_qs(query);
        let response = match text_handle_statistics(&self.storage, &request) {
            Ok(resp) => resp,
            Err(e) => {
                proof {
                    assert(false);
                }
                return Err(e);
            },
        };
        proof {
            lemma_json_stats_round_trip(spec_statistics(self.storage@, query@));
        }
        match decode_stats_json(&response) {
            Some(st) => Ok(st),
            None => {
                proof {
                    assert(false);
                }
                Err(ServiceError::MalformedData)
            },
        }
    }
}

/// The binary RPC adapter: tagged fixed-width messages over one reusable
/// channel, run here as a loopback. Its 32-bit size fields bound what it
/// carries; query answers stream one message per metric.
pub struct BinaryAdapter {
    pub storage: InMemoryStorage,
}

impl BinaryAdapter {
    pub fn new() -> (s: BinaryAdapter)
        ensures
            s.log() == Seq::<MetricPointV>::empty(),
    {
        BinaryAdapter { storage: InMemoryStorage::new() }
    }
}

impl MetricsService for BinaryAdapter {
    open spec fn log(&self) -> Seq<MetricPointV> {
        self.storage@
    }

    open spec fn accepts_metric(&self, m: MetricPointV) -> bool {
        bin_metric_encodable(m)
    }

    open spec fn accepts_query(&self, q: MetricQueryV) -> bool {
        bin_query_encodable(q)
    }

    open spec fn can_answer(&self, q: MetricQueryV) -> bool {
        bin_stream_encodable(spec_query(self.storage@, q))
    }

    fn submit_metric(&mut self, metric: MetricPoint) -> (r: Result<(), ServiceError>) {
        let request = match encode_metric_bin(&metric) {
            Some(b) => b,
            None => {
                return Err(ServiceError::MessageTooLarge);
            },
        };
        proof {
            lemma_bin_metric_round_trip(metric@);
        }
        binary_handle_submit(&mut self.storage, &request)
    }

    fn query_metrics(&self, query: &MetricQuery) -> (r: Result<Vec<MetricPoint>, ServiceError>) {
        let request = match encode_query_bin(query) {
            Some(b) => b,
            None => {
                return Err(ServiceError::MessageTooLarge);
            },
        };
        proof {
            lemma_bin_query_round_trip(query@);
        }
        let response = match binary_handle_query(&self.storage, &request) {
            Ok(resp) => resp,
            Err(e) => {
                return Err(e);
            },
        };
        proof {
            lemma_bin_stream_round_trip(spec_query(self.storage@, query@));
        }
        match decode_metrics_bin(&response) {
            Some(ms) => Ok(ms),
            None => {
                proof {
                    assert(false);
                }
                Err(ServiceError::MalformedData)
            },
        }
    }

    fn get_statistics(&self, query: &MetricQuery) -> (r: Result<MetricStatistics, ServiceError>) {
        let request = match encode_query_bin(query) {
            Some(b) => b,
            None => {
                return Err(ServiceError::MessageTooLarge);
            },
        };
        proof {
            lemma_bin_query_round_trip(query@);
        }
        let response = match binary_handle_statistics(&self.storage, &request) {
            Ok(resp) => resp,
            Err(e) => {
                proof {
                    assert(false);
                }
                return Err(e);
            },
        };
        proof {
            lemma_bin_stats_round_trip(spec_statistics(self.storage@, query@));
        }
        match decode_stats_bin(&response) {
            Some(st) => Ok(st),
            None => {
                proof {
                    assert(false);
                }
                Err(ServiceError::MalformedData)
            },
        }
    }
}

/// The capability-RPC adapter: segment messages sized up front over a
/// per-call connection, run here as a loopback. Its 32-bit size fields
/// bound what it carries; query answers arrive as one list message.
pub struct SegmentAdapter {
    pub storage: InMemoryStorage,
}

impl SegmentAdapter {
    pub fn new() -> (s: SegmentAdapter)
        ensures
            s.log() == Seq::<MetricPointV>::empty(),
    {
        SegmentAdapter { storage: InMemoryStorage::new() }
    }
}

impl MetricsService for SegmentAdapter {
    open spec fn log(&self) -> Seq<MetricPointV> {
        self.storage@
    }

    open spec fn accepts_metric(&self, m: MetricPointV) -> bool {
        seg_metric_encodable(m)
    }

    open spec fn accepts_query(&self, q: MetricQueryV) -> bool {
        seg_query_encodable(q)
    }

    open spec fn can_answer(&self, q: MetricQueryV) -> bool {
        seg_list_encodable(spec_query(self.storage@, q))
    }

    fn submit_metric(&mut self, metric: MetricPoint) -> (r: Result<(), ServiceError>) {
        let request = match encode_metric_seg(&metric) {
            Some(b) => b,
            None => {
                return Err(ServiceError::MessageTooLarge);
            },
        };
        proof {
            lemma_seg_metric_round_trip(metric@);
        }
        segment_handle_submit(&mut self.storage, &request)
    }

    fn query_metrics(&self, query: &MetricQuery) -> (r: Result<Vec<MetricPoint>, ServiceError>) {
        let request = match encode_query_seg(query) {
            Some(b) => b,
            None => {
                return Err(ServiceError::MessageTooLarge);
            },
        };
        proof {
            lemma_seg_query_round_trip(query@);
        }
        let response = match segment_handle_query(&self.storage, &request) {
            Ok(resp) => resp,
            Err(e) => {
                return Err(e);
            },
        };
        proof {
            lemma_seg_list_round_trip(spec_query(self.storage@, query@));
        }
        match decode_metrics_seg(&response) {
            Some(ms) => Ok(ms),
            None => {
                proof {
                    assert(false);
                }
                Err(ServiceError::MalformedData)
            },
        }
    }

    fn get_statistics(&self, query: &MetricQuery) -> (r: Result<MetricStatistics, ServiceError>) {
        let request = match encode_query_seg(query) {
            Some(b) => b,
            None => {
                return Err(ServiceError::MessageTooLarge);
            },
        };
        proof {
            lemma_seg_query_round_trip(query@);
        }
        let response = match segment_handle_statistics(&self.storage, &request) {
            Ok(resp) => resp,
            Err(e) => {
                proof {
                    assert(false);
                }
                return Err(e);
            },
        };
        proof {
            lemma_seg_stats_round_trip(spec_statistics(self.storage@, query@));
        }
        match decode_stats_seg(&response) {
            Some(st) => Ok(st),
            None => {
                proof {
                    assert(false);
                }
                Err(ServiceError::MalformedData)
            },
        }
    }
}

// ------------------------------------------------- cross-adapter equality
/// What the shared log becomes after one submit exchange through the text
/// wire format, or nothing if the exchange cannot complete.
pub open spec fn text_submit_outcome(log: Seq<MetricPointV>, m: MetricPointV) -> Option<
    Seq<MetricPointV>,
> {
    match sp_decode_metric(spec_json_metric(m)) {
        Some(m2) => Some(log.push(m2)),
        None => None,
    }
}

/// What the shared log becomes after one submit exchange through the
/// binary wire format.
pub open spec fn bin_submit_outcome(log: Seq<MetricPointV>, m: MetricPointV) -> Option<
    Seq<MetricPointV>,
> {
    if bin_metric_encodable(m) {
        match sp_decode_bin_metric(spec_bin_metric(m)) {
            Some(m2) => Some(log.push(m2)),
            None => None,
        }
    } else {
        None
    }
}

/// What the shared log becomes after one submit exchange through the
/// segment wire format.
pub open spec fn seg_submit_outcome(log: Seq<MetricPointV>, m: MetricPointV) -> Option<
    Seq<MetricPointV>,
> {
    if seg_metric_encodable(m) {
        match sp_decode_seg_metric(spec_seg_metric(m)) {
            Some(m2) => Some(log.push(m2)),
            None => None,
        }
    } else {
        None
    }
}

/// Cross-adapter equivalence: for every metric all three transports can
/// carry, one submit exchange takes the shared log to the same value
/// through each wire format — the metric arrives exactly once and
/// unchanged. Later query and aggregate answers then agree through any
/// adapter, since each is pinned to `spec_query` and `spec_statistics`
/// over that same log.
pub proof fn lemma_cross_adapter_equivalence(
    log: Seq<MetricPointV>,
    m: MetricPointV,
)
    requires
        bin_metric_encodable(m),
        seg_metric_encodable(m),
    ensures
        text_submit_outcome(log, m) == Some(log.push(m)),
        bin_submit_outcome(log, m) == Some(log.push(m)),
        seg_submit_outcome(log, m) == Some(log.push(m)),
{
    lemma_json_metric_round_trip(m);
    lemma_bin_metric_round_trip(m);
    lemma_seg_metric_round_trip(m);
}

} // verus!
