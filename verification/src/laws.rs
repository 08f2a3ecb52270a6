//! The store's query laws: a matching submitted metric is found exactly
//! once and in submission order, and an empty match set aggregates to
//! zeroes rather than an error.

use vstd::prelude::*;

use crate::model::{MetricPointV, MetricQueryV};
use crate::store::{metric_matches, spec_query, spec_statistics};

verus! {

/// How many times `m` occurs in `s`.
pub open spec fn occurrences(s: Seq<MetricPointV>, m: MetricPointV) -> nat
    decreases s.len(),
{
    if s.len() == 0 {
        0
    } else {
        occurrences(s.drop_last(), m) + if s.last() == m {
            1nat
        } else {
            0nat
        }
    }
}

proof fn lemma_occurrences_push(s: Seq<MetricPointV>, x: MetricPointV, m: MetricPointV)
    ensures
        occurrences(s.push(x), m) == occurrences(s, m) + if x == m {
            1nat
        } else {
            0nat
        },
{
    assert(s.push(x).drop_last() =~= s);
    assert(s.push(x).last() == x);
}

/// A query neither drops nor duplicates a matching metric: `m` occurs in
/// the query's answer exactly as often as in the log, whenever `m` is in
/// the query's range and passes its filter.
pub proof fn lemma_query_preserves_occurrences(
    log: Seq<MetricPointV>,
    q: MetricQueryV,
    m: MetricPointV,
)
    requires
        metric_matches(m, q),
    ensures
        occurrences(spec_query(log, q), m) == occurrences(log, m),
    decreases log.len(),
{
    if log.len() == 0 {
    } else {
        let dl = log.drop_last();
        let x = log.last();
        lemma_query_preserves_occurrences(dl, q, m);
        if metric_matches(x, q) {
            lemma_occurrences_push(spec_query(dl, q), x, m);
        } else {
            assert(x != m);
        }
    }
}

/// A metric submitted exactly once and matching the query appears exactly
/// once in the query's answer.
pub proof fn lemma_submitted_metric_found_once(
    log: Seq<MetricPointV>,
    q: MetricQueryV,
    m: MetricPointV,
)
    requires
        metric_matches(m, q),
        occurrences(log, m) == 1,
    ensures
        occurrences(spec_query(log, q), m) == 1,
{
    lemma_query_preserves_occurrences(log, q, m);
}

/// Submission order is kept: submitting one more metric appends it to the
/// end of every covering query's answer and changes nothing else.
pub proof fn lemma_query_order_on_submit(
    log: Seq<MetricPointV>,
    q: MetricQueryV,
    m: MetricPointV,
)
    ensures
        metric_matches(m, q) ==> spec_query(log.push(m), q) == spec_query(log, q).push(m),
        !metric_matches(m, q) ==> spec_query(log.push(m), q) == spec_query(log, q),
{
    assert(log.push(m).drop_last() =~= log);
    assert(log.push(m).last() == m);
}

proof fn lemma_query_empty(log: Seq<MetricPointV>, q: MetricQueryV)
    requires
        forall|i: int| 0 <= i < log.len() ==> !metric_matches(#[trigger] log[i], q),
    ensures
        spec_query(log, q) == Seq::<MetricPointV>::empty(),
    decreases log.len(),
{
    if log.len() == 0 {
        assert(spec_query(log, q) =~= Seq::<MetricPointV>::empty());
    } else {
        let dl = log.drop_last();
        assert(forall|i: int| 0 <= i < dl.len() ==> !metric_matches(#[trigger] dl[i], q));
        assert(!metric_matches(log.last(), q)) by {
            assert(log.last() == log[log.len() - 1]);
        }
        lemma_query_empty(dl, q);
    }
}

/// A query range with no matching metrics aggregates to a zero count and
/// all-zero averages, never a division fault; the reported range width is
/// still the query's own.
pub proof fn lemma_aggregate_empty(log: Seq<MetricPointV>, q: MetricQueryV)
    requires
        forall|i: int| 0 <= i < log.len() ==> !metric_matches(#[trigger] log[i], q),
    ensures
        spec_statistics(log, q).count == 0,
        spec_statistics(log, q).avg_cpu_centi_percent == 0,
        spec_statistics(log, q).avg_memory_bytes == 0,
        spec_statistics(log, q).avg_disk_io_centi_ops == 0,
        spec_statistics(log, q).time_range_seconds == (q.end_time - q.start_time) as i64,
{
    lemma_query_empty(log, q);
}

} // verus!
