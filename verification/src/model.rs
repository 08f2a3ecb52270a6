//! The data model: one observed metric point, a range query over stored
//! points, and the aggregate statistics derived from a query's matches.
//!
//! CPU load and the two fractional averages are carried in hundredths
//! (centi-units) so that every field is an integer and every computation on
//! them is exact.

use vstd::prelude::*;

verus! {

/// One `key -> value` label attached to a metric point.
#[derive(Debug)]
pub struct Tag {
    pub key: String,
    pub value: String,
}

impl View for Tag {
    type V = (Seq<char>, Seq<char>);

    open spec fn view(&self) -> (Seq<char>, Seq<char>) {
        (self.key@, self.value@)
    }
}

impl Tag {
    pub fn new(key: String, value: String) -> (t: Tag)
        ensures
            t@ == (key@, value@),
    {
        Tag { key, value }
    }
}

/// The mathematical value of one metric point.
#[verifier::ext_equal]
pub ghost struct MetricPointV {
    pub timestamp: i64,
    pub hostname: Seq<char>,
    pub cpu_centi_percent: u32,
    pub memory_bytes: u64,
    pub disk_io_ops: u32,
    pub tags: Seq<(Seq<char>, Seq<char>)>,
}

/// One timestamped host-resource observation. Immutable once stored;
/// equality is structural.
#[derive(Debug)]
pub struct MetricPoint {
    /// Seconds since the epoch, signed.
    pub timestamp: i64,
    /// Reporting host, an exact-match key for queries.
    pub hostname: String,
    /// CPU load in hundredths of a percent (4200 is 42%).
    pub cpu_centi_percent: u32,
    /// Resident memory in bytes.
    pub memory_bytes: u64,
    /// Disk operations observed in the sampling interval.
    pub disk_io_ops: u32,
    /// Free-form labels; keys are unique within one point.
    pub tags: Vec<Tag>,
}

impl View for MetricPoint {
    type V = MetricPointV;

    open spec fn view(&self) -> MetricPointV {
        MetricPointV {
            timestamp: self.timestamp,
            hostname: self.hostname@,
            cpu_centi_percent: self.cpu_centi_percent,
            memory_bytes: self.memory_bytes,
            disk_io_ops: self.disk_io_ops,
            tags: tag_views(self.tags@),
        }
    }
}

/// The views of a sequence of tags.
pub open spec fn tag_views(s: Seq<Tag>) -> Seq<(Seq<char>, Seq<char>)> {
    s.map_values(|t: Tag| t@)
}

/// The views of a sequence of metric points.
pub open spec fn metric_views(s: Seq<MetricPoint>) -> Seq<MetricPointV> {
    s.map_values(|m: MetricPoint| m@)
}

/// Tag keys are unique within one point.
pub open spec fn wf_metric(m: MetricPointV) -> bool {
    forall|i: int, j: int|
        0 <= i < m.tags.len() && 0 <= j < m.tags.len() && i != j ==> m.tags[i].0 != m.tags[j].0
}

/// The mathematical value of a query.
#[verifier::ext_equal]
pub ghost struct MetricQueryV {
    pub start_time: i64,
    pub end_time: i64,
    pub hostname_filter: Option<Seq<char>>,
}

/// A time range (inclusive on both ends) plus an optional exact hostname
/// match. An inverted range is allowed and simply matches nothing.
#[derive(Debug)]
pub struct MetricQuery {
    pub start_time: i64,
    pub end_time: i64,
    pub hostname_filter: Option<String>,
}

impl View for MetricQuery {
    type V = MetricQueryV;

    open spec fn view(&self) -> MetricQueryV {
        MetricQueryV {
            start_time: self.start_time,
            end_time: self.end_time,
            hostname_filter: match self.hostname_filter {
                Some(ref h) => Some(h@),
                None => None,
            },
        }
    }
}

/// Aggregates over a query's matches. Derived, never stored. The two
/// fractional averages are reported in centi-units; `avg_memory_bytes`
/// truncates (plain integer division).
#[derive(Clone, Copy, Debug, PartialEq, Eq, Structural)]
pub struct MetricStatistics {
    pub count: u64,
    pub avg_cpu_centi_percent: u32,
    pub avg_memory_bytes: u64,
    pub avg_disk_io_centi_ops: u64,
    pub time_range_seconds: i64,
}

impl PartialEq for Tag {
    fn eq(&self, other: &Tag) -> (r: bool) {
        self.key == other.key && self.value == other.value
    }
}

impl vstd::std_specs::cmp::PartialEqSpecImpl for Tag {
    open spec fn obeys_eq_spec() -> bool {
        true
    }

    open spec fn eq_spec(&self, other: &Tag) -> bool {
        self@ == other@
    }
}

impl PartialEq for MetricPoint {
    fn eq(&self, other: &MetricPoint) -> (r: bool) {
        proof {
            assert(self@.tags.len() == self.tags@.len());
            assert(other@.tags.len() == other.tags@.len());
        }
        if !(self.timestamp == other.timestamp && self.hostname == other.hostname
            && self.cpu_centi_percent == other.cpu_centi_percent
            && self.memory_bytes == other.memory_bytes && self.disk_io_ops == other.disk_io_ops
            && self.tags.len() == other.tags.len()) {
            return false;
        }
        let n = self.tags.len();
        let mut i: usize = 0;
        while i < n
            invariant
                n == self.tags.len() == other.tags.len(),
                0 <= i <= n,
                forall|k: int| 0 <= k < i ==> self.tags@[k]@ == other.tags@[k]@,
            decreases n - i,
        {
            if !(self.tags[i] == other.tags[i]) {
                proof {
                    assert(self@.tags[i as int] == self.tags@[i as int]@);
                    assert(other@.tags[i as int] == other.tags@[i as int]@);
                }
                return false;
            }
            i += 1;
        }
        proof {
            assert(self@.tags =~= other@.tags);
        }
        true
    }
}

impl vstd::std_specs::cmp::PartialEqSpecImpl for MetricPoint {
    open spec fn obeys_eq_spec() -> bool {
        true
    }

    open spec fn eq_spec(&self, other: &MetricPoint) -> bool {
        self@ == other@
    }
}

} // verus!
