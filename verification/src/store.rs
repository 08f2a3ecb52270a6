//! The metric store: an append-and-scan log of every submitted metric, the
//! single source of truth behind all three transport adapters.
//!
//! `query` returns, in insertion order, every stored point whose timestamp
//! lies in the query's inclusive range and whose hostname equals the filter
//! when one is present. `calculate_statistics` reduces the same matches to a
//! count and averages; an empty match set yields a zeroed result, never a
//! division fault.

use vstd::prelude::*;

use crate::model::{metric_views, tag_views, MetricPoint, MetricPointV, MetricQuery, MetricQueryV, MetricStatistics, Tag};

verus! {

/// A store operation's failure. The log itself cannot fail; the only failure
/// the service model admits is a poisoned lock around a shared store, which
/// the locked wrapper reports through this type.
#[derive(Clone, Copy, Debug, PartialEq, Eq, Structural)]
pub enum StoreError {
    LockPoisoned,
}

/// Whether `m` is in `q`'s inclusive time range and passes its hostname
/// filter (no filter means no hostname constraint).
pub open spec fn metric_matches(m: MetricPointV, q: MetricQueryV) -> bool {
    &&& q.start_time <= m.timestamp
    &&& m.timestamp <= q.end_time
    &&& match q.hostname_filter {
        Some(h) => m.hostname == h,
        None => true,
    }
}

/// Every metric of `log` that matches `q`, in original order.
pub open spec fn spec_query(log: Seq<MetricPointV>, q: MetricQueryV) -> Seq<MetricPointV>
    decreases log.len(),
{
    if log.len() == 0 {
        Seq::empty()
    } else if metric_matches(log.last(), q) {
        spec_query(log.drop_last(), q).push(log.last())
    } else {
        spec_query(log.drop_last(), q)
    }
}

pub open spec fn sum_cpu(s: Seq<MetricPointV>) -> int
    decreases s.len(),
{
    if s.len() == 0 {
        0
    } else {
        sum_cpu(s.drop_last()) + s.last().cpu_centi_percent
    }
}

pub open spec fn sum_memory(s: Seq<MetricPointV>) -> int
    decreases s.len(),
{
    if s.len() == 0 {
        0
    } else {
        sum_memory(s.drop_last()) + s.last().memory_bytes
    }
}

pub open spec fn sum_disk(s: Seq<MetricPointV>) -> int
    decreases s.len(),
{
    if s.len() == 0 {
        0
    } else {
        sum_disk(s.drop_last()) + s.last().disk_io_ops
    }
}

/// The statistics owed for `q` over `log`: the match count, the truncating
/// mean of each numeric field (centi-scaled for CPU and disk), and the
/// query's own range width.
pub open spec fn spec_statistics(log: Seq<MetricPointV>, q: MetricQueryV) -> MetricStatistics {
    let fs = spec_query(log, q);
    let n = fs.len() as int;
    MetricStatistics {
        count: n as u64,
        avg_cpu_centi_percent: if n == 0 {
            0u32
        } else {
            (sum_cpu(fs) / n) as u32
        },
        avg_memory_bytes: if n == 0 {
            0u64
        } else {
            (sum_memory(fs) / n) as u64
        },
        avg_disk_io_centi_ops: if n == 0 {
            0u64
        } else {
            (sum_disk(fs) * 100 / n) as u64
        },
        time_range_seconds: (q.end_time - q.start_time) as i64,
    }
}

proof fn lemma_sum_cpu_bound(s: Seq<MetricPointV>)
    ensures
        0 <= sum_cpu(s) <= s.len() * 4294967295,
    decreases s.len(),
{
    if s.len() > 0 {
        lemma_sum_cpu_bound(s.drop_last());
    }
}

proof fn lemma_sum_memory_bound(s: Seq<MetricPointV>)
    ensures
        0 <= sum_memory(s) <= s.len() * 18446744073709551615,
    decreases s.len(),
{
    if s.len() > 0 {
        lemma_sum_memory_bound(s.drop_last());
    }
}

proof fn lemma_sum_disk_bound(s: Seq<MetricPointV>)
    ensures
        0 <= sum_disk(s) <= s.len() * 4294967295,
    decreases s.len(),
{
    if s.len() > 0 {
        lemma_sum_disk_bound(s.drop_last());
    }
}

/// The in-memory metric log. One exclusively-owned ordered append log;
/// sharing it across concurrent tasks is the locked wrapper's affair.
pub struct InMemoryStorage {
    metrics: Vec<MetricPoint>,
}

impl View for InMemoryStorage {
    type V = Seq<MetricPointV>;

    closed spec fn view(&self) -> Seq<MetricPointV> {
        metric_views(self.metrics@)
    }
}

impl InMemoryStorage {
    pub fn new() -> (s: InMemoryStorage)
        ensures
            s@ == Seq::<MetricPointV>::empty(),
    {
        let s = InMemoryStorage { metrics: Vec::new() };
        proof {
            assert(s@ =~= Seq::<MetricPointV>::empty());
        }
        s
    }

    /// Appends `metric` to the end of the log. A structurally valid metric is
    /// never rejected.
    pub fn store_metric(&mut self, metric: MetricPoint) -> (r: Result<(), StoreError>)
        ensures
            r is Ok,
            final(self)@ == old(self)@.push(metric@),
    {
        let ghost prev = self.metrics@;
        let ghost mv = metric@;
        self.metrics.push(metric);
        proof {
            assert(self@ =~= metric_views(prev).push(mv));
        }
        Ok(())
    }

    /// Returns every stored metric matching `query`, in insertion order.
    pub fn query_metrics(&self, query: &MetricQuery) -> (r: Result<
        Vec<MetricPoint>,
        StoreError,
    >)
        ensures
            r is Ok,
            metric_views((r->Ok_0)@) == spec_query(self@, query@),
    {
        let mut out: Vec<MetricPoint> = Vec::new();
        let n = self.metrics.len();
        let mut i: usize = 0;
        while i < n
            invariant
                n == self.metrics.len(),
                0 <= i <= n,
                metric_views(out@) == spec_query(self@.take(i as int), query@),
            decreases n - i,
        {
            let ghost pre = out@;
            let m = &self.metrics[i];
            let in_range = query.start_time <= m.timestamp && m.timestamp <= query.end_time;
            let host_ok = match &query.hostname_filter {
                Some(h) => m.hostname == *h,
                None => true,
            };
            if in_range && host_ok {
                out.push(m.clone());
            }
            proof {
                assert(self@.take(i + 1).drop_last() =~= self@.take(i as int));
                assert(self@.take(i + 1).last() == m@);
                if metric_matches(m@, query@) {
                    assert(metric_views(out@) =~= metric_views(pre).push(m@));
                } else {
                    assert(out@ == pre);
                }
            }
            i += 1;
        }
        proof {
            assert(self@.take(n as int) =~= self@);
        }
        Ok(out)
    }

    /// Reduces `query`'s matches to count and truncating averages, as
    /// `spec_statistics` states. The range difference must fit a signed
    /// 64-bit value.
    pub fn calculate_statistics(&self, query: &MetricQuery) -> (r: Result<
        MetricStatistics,
        StoreError,
    >)
        requires
            i64::MIN <= query@.end_time - query@.start_time <= i64::MAX,
        ensures
            r is Ok,
            r->Ok_0 == spec_statistics(self@, query@),
    {
        let found = match self.query_metrics(query) {
            Ok(v) => v,
            Err(e) => {
                return Err(e);
            },
        };
        let ghost fs = spec_query(self@, query@);
        proof {
            assert(metric_views(found@) == fs);
            lemma_sum_cpu_bound(fs);
            lemma_sum_memory_bound(fs);
            lemma_sum_disk_bound(fs);
        }
        let n = found.len();
        let time_range = query.end_time - query.start_time;
        if n == 0 {
            proof {
                assert(fs.len() == 0);
            }
            return Ok(
                MetricStatistics {
                    count: 0,
                    avg_cpu_centi_percent: 0,
                    avg_memory_bytes: 0,
                    avg_disk_io_centi_ops: 0,
                    time_range_seconds: time_range,
                },
            );
        }
        let mut cpu_acc: u128 = 0;
        let mut mem_acc: u128 = 0;
        let mut disk_acc: u128 = 0;
        let mut i: usize = 0;
        while i < n
            invariant
                n == found.len(),
                0 <= i <= n,
                metric_views(found@) == fs,
                cpu_acc == sum_cpu(fs.take(i as int)),
                mem_acc == sum_memory(fs.take(i as int)),
                disk_acc == sum_disk(fs.take(i as int)),
            decreases n - i,
        {
            proof {
                lemma_sum_cpu_bound(fs.take(i as int));
                lemma_sum_memory_bound(fs.take(i as int));
                lemma_sum_disk_bound(fs.take(i as int));
                assert(fs.take(i + 1).drop_last() =~= fs.take(i as int));
                assert(fs.take(i + 1).last() == found@[i as int]@);
            }
            let m = &found[i];
            cpu_acc = cpu_acc + m.cpu_centi_percent as u128;
            mem_acc = mem_acc + m.memory_bytes as u128;
            disk_acc = disk_acc + m.disk_io_ops as u128;
            i += 1;
        }
        proof {
            assert(fs.take(n as int) =~= fs);
        }
        let count = n as u64;
        let nn = n as u128;
        let avg_cpu = (cpu_acc / nn) as u32;
        let avg_mem = (mem_acc / nn) as u64;
        let avg_disk = ((disk_acc * 100) / nn) as u64;
        proof {
            let ni = n as int;
            vstd::arithmetic::div_mod::lemma_div_is_ordered(
                sum_cpu(fs),
                ni * 4294967295,
                ni,
            );
            vstd::arithmetic::div_mod::lemma_div_by_multiple(4294967295, ni);
            vstd::arithmetic::div_mod::lemma_div_is_ordered(
                sum_memory(fs),
                ni * 18446744073709551615,
                ni,
            );
            vstd::arithmetic::div_mod::lemma_div_by_multiple(18446744073709551615, ni);
            assert(sum_disk(fs) * 100 <= ni * 4294967295 * 100) by {
                vstd::arithmetic::mul::lemma_mul_inequality(
                    sum_disk(fs),
                    ni * 4294967295,
                    100,
                );
            }
            vstd::arithmetic::div_mod::lemma_div_is_ordered(
                sum_disk(fs) * 100,
                ni * 429496729500,
                ni,
            );
            assert(ni * 4294967295 * 100 == ni * 429496729500) by {
                vstd::arithmetic::mul::lemma_mul_is_associative(ni, 4294967295, 100);
            }
            vstd::arithmetic::div_mod::lemma_div_by_multiple(429496729500, ni);
        }
        Ok(
            MetricStatistics {
                count,
                avg_cpu_centi_percent: avg_cpu,
                avg_memory_bytes: avg_mem,
                avg_disk_io_centi_ops: avg_disk,
                time_range_seconds: time_range,
            },
        )
    }
}

impl Clone for Tag {
    fn clone(&self) -> (r: Tag)
        ensures
            r@ == self@,
    {
        Tag { key: self.key.clone(), value: self.value.clone() }
    }
}

impl Clone for MetricPoint {
    fn clone(&self) -> (r: MetricPoint)
        ensures
            r@ == self@,
    {
        let mut tags: Vec<Tag> = Vec::new();
        let n = self.tags.len();
        let mut i: usize = 0;
        while i < n
            invariant
                n == self.tags.len(),
                0 <= i <= n,
                tags@.len() == i,
                forall|k: int| 0 <= k < i ==> tags@[k]@ == self.tags@[k]@,
            decreases n - i,
        {
            tags.push(self.tags[i].clone());
            i += 1;
        }
        proof {
            assert(tag_views(tags@) =~= tag_views(self.tags@));
        }
        let r = MetricPoint {
            timestamp: self.timestamp,
            hostname: self.hostname.clone(),
            cpu_centi_percent: self.cpu_centi_percent,
            memory_bytes: self.memory_bytes,
            disk_io_ops: self.disk_io_ops,
            tags,
        };
        proof {
            assert(r@ =~= self@);
        }
        r
    }
}

impl Clone for MetricQuery {
    fn clone(&self) -> (r: MetricQuery)
        ensures
            r@ == self@,
    {
        MetricQuery {
            start_time: self.start_time,
            end_time: self.end_time,
            hostname_filter: match &self.hostname_filter {
                Some(h) => Some(h.clone()),
                None => None,
            },
        }
    }
}


/// The shared store: one reader/writer lock around the log, taken
/// exclusively by writers and shared by readers. The lock is a verified
/// one and the operations under it are verified not to panic, so the
/// poisoning that the error type allows for cannot in fact arise: every
/// operation reports success.
pub struct SharedStorage {
    lock: vstd::rwlock::RwLock<InMemoryStorage, StorePred>,
}

/// The lock's invariant on the protected store: any log is a valid log.
pub struct StorePred {}

impl vstd::rwlock::RwLockPredicate<InMemoryStorage> for StorePred {
    open spec fn inv(self, v: InMemoryStorage) -> bool {
        true
    }
}

impl SharedStorage {
    pub fn new() -> (s: SharedStorage) {
        let storage = InMemoryStorage::new();
        SharedStorage { lock: vstd::rwlock::RwLock::new(storage, Ghost(StorePred {  })) }
    }

    /// Appends `metric` under exclusive access.
    pub fn store_metric(&self, metric: MetricPoint) -> (r: Result<(), StoreError>)
        ensures
            r is Ok,
    {
        let (mut storage, handle) = self.lock.acquire_write();
        let res = storage.store_metric(metric);
        handle.release_write(storage);
        res
    }

    /// Answers `query` from a consistent snapshot taken under shared
    /// access: the result is exactly the query's answer over some log the
    /// store held during the call.
    pub fn query_metrics(&self, query: &MetricQuery) -> (r: Result<Vec<MetricPoint>, StoreError>)
        ensures
            r is Ok,
            exists|log: Seq<MetricPointV>|
                metric_views((r->Ok_0)@) == spec_query(log, query@),
    {
        let read_handle = self.lock.acquire_read();
        let storage = read_handle.borrow();
        let res = storage.query_metrics(query);
        let ghost snapshot = storage@;
        read_handle.release_read();
        proof {
            if res is Ok {
                assert(metric_views((res->Ok_0)@) == spec_query(snapshot, query@));
            }
        }
        res
    }

    /// Aggregates `query`'s matches over a consistent snapshot taken under
    /// shared access.
    pub fn calculate_statistics(&self, query: &MetricQuery) -> (r: Result<
        MetricStatistics,
        StoreError,
    >)
        requires
            i64::MIN <= query@.end_time - query@.start_time <= i64::MAX,
        ensures
            r is Ok,
            exists|log: Seq<MetricPointV>| r->Ok_0 == spec_statistics(log, query@),
    {
        let read_handle = self.lock.acquire_read();
        let storage = read_handle.borrow();
        let res = storage.calculate_statistics(query);
        let ghost snapshot = storage@;
        read_handle.release_read();
        proof {
            if res is Ok {
                assert(res->Ok_0 == spec_statistics(snapshot, query@));
            }
        }
        res
    }
}

} // verus!
