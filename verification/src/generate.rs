//! Deterministic synthetic-metric producer.
//!
//! Every field of every generated point is a pure function of the fixed seed,
//! the point's index and the caller-supplied base timestamp, so repeated runs
//! over the same arguments yield identical sequences — the property that
//! makes cross-protocol comparisons operate on one logical dataset. The
//! mixing function is a 64-bit finalizer (shift-xor and odd-constant
//! multiplies) whose exact value is pinned by `spec_mix64`.

use vstd::prelude::*;

use crate::model::{metric_views, wf_metric, MetricPoint, MetricPointV, Tag};

verus! {

/// The fixed generator seed.
pub const GENERATOR_SEED: u64 = 42;

/// The value of the 64-bit mixing function.
pub open spec fn spec_mix64(x: u64) -> u64 {
    let z0 = vstd::wrapping::u64_specs::wrapping_add(x, 0x9e3779b97f4a7c15);
    let z1 = vstd::wrapping::u64_specs::wrapping_mul(z0 ^ (z0 >> 30), 0xbf58476d1ce4e5b9);
    let z2 = vstd::wrapping::u64_specs::wrapping_mul(z1 ^ (z1 >> 27), 0x94d049bb133111eb);
    z2 ^ (z2 >> 31)
}

/// Mixes `x` to a pseudo-random 64-bit value; a pure function.
pub fn mix64(x: u64) -> (r: u64)
    ensures
        r == spec_mix64(x),
{
    let z0 = x.wrapping_add(0x9e3779b97f4a7c15);
    let z1 = (z0 ^ (z0 >> 30)).wrapping_mul(0xbf58476d1ce4e5b9);
    let z2 = (z1 ^ (z1 >> 27)).wrapping_mul(0x94d049bb133111eb);
    z2 ^ (z2 >> 31)
}

/// The `j`-th draw for the `i`-th generated point.
pub open spec fn spec_draw(i: int, j: int) -> u64 {
    spec_mix64(
        vstd::wrapping::u64_specs::wrapping_add(
            vstd::wrapping::u64_specs::wrapping_mul((i as u64), 16),
            vstd::wrapping::u64_specs::wrapping_add(GENERATOR_SEED, (j as u64)),
        ),
    )
}

fn draw(i: usize, j: u64) -> (r: u64)
    requires
        j < 16,
    ensures
        r == spec_draw(i as int, j as int),
{
    mix64((i as u64).wrapping_mul(16).wrapping_add(GENERATOR_SEED.wrapping_add(j)))
}

pub open spec fn spec_hostname_at(k: int) -> Seq<char> {
    if k == 0 {
        "web-01"@
    } else if k == 1 {
        "web-02"@
    } else if k == 2 {
        "db-primary"@
    } else if k == 3 {
        "db-replica"@
    } else if k == 4 {
        "cache-01"@
    } else if k == 5 {
        "api-gateway"@
    } else if k == 6 {
        "worker-01"@
    } else if k == 7 {
        "worker-02"@
    } else if k == 8 {
        "monitoring"@
    } else {
        "load-balancer"@
    }
}

fn hostname_at(k: u64) -> (r: String)
    ensures
        r@ == spec_hostname_at(k as int),
{
    if k == 0 {
        "web-01".to_owned()
    } else if k == 1 {
        "web-02".to_owned()
    } else if k == 2 {
        "db-primary".to_owned()
    } else if k == 3 {
        "db-replica".to_owned()
    } else if k == 4 {
        "cache-01".to_owned()
    } else if k == 5 {
        "api-gateway".to_owned()
    } else if k == 6 {
        "worker-01".to_owned()
    } else if k == 7 {
        "worker-02".to_owned()
    } else if k == 8 {
        "monitoring".to_owned()
    } else {
        "load-balancer".to_owned()
    }
}

pub open spec fn spec_environment_at(k: int) -> Seq<char> {
    if k == 0 {
        "prod"@
    } else if k == 1 {
        "staging"@
    } else {
        "dev"@
    }
}

fn environment_at(k: u64) -> (r: String)
    ensures
        r@ == spec_environment_at(k as int),
{
    if k == 0 {
        "prod".to_owned()
    } else if k == 1 {
        "staging".to_owned()
    } else {
        "dev".to_owned()
    }
}

pub open spec fn spec_region_at(k: int) -> Seq<char> {
    if k == 0 {
        "us-east"@
    } else if k == 1 {
        "us-west"@
    } else if k == 2 {
        "eu-central"@
    } else {
        "ap-southeast"@
    }
}

fn region_at(k: u64) -> (r: String)
    ensures
        r@ == spec_region_at(k as int),
{
    if k == 0 {
        "us-east".to_owned()
    } else if k == 1 {
        "us-west".to_owned()
    } else if k == 2 {
        "eu-central".to_owned()
    } else {
        "ap-southeast".to_owned()
    }
}

pub open spec fn spec_service_at(k: int) -> Seq<char> {
    if k == 0 {
        "frontend"@
    } else if k == 1 {
        "backend"@
    } else if k == 2 {
        "database"@
    } else if k == 3 {
        "cache"@
    } else {
        "queue"@
    }
}

fn service_at(k: u64) -> (r: String)
    ensures
        r@ == spec_service_at(k as int),
{
    if k == 0 {
        "frontend".to_owned()
    } else if k == 1 {
        "backend".to_owned()
    } else if k == 2 {
        "database".to_owned()
    } else if k == 3 {
        "cache".to_owned()
    } else {
        "queue".to_owned()
    }
}

pub open spec fn spec_digit_str(d: int) -> Seq<char> {
    if d == 0 {
        "0"@
    } else if d == 1 {
        "1"@
    } else if d == 2 {
        "2"@
    } else if d == 3 {
        "3"@
    } else if d == 4 {
        "4"@
    } else if d == 5 {
        "5"@
    } else if d == 6 {
        "6"@
    } else if d == 7 {
        "7"@
    } else if d == 8 {
        "8"@
    } else {
        "9"@
    }
}

fn digit_str(d: u64) -> (r: &'static str)
    ensures
        r@ == spec_digit_str(d as int),
{
    if d == 0 {
        "0"
    } else if d == 1 {
        "1"
    } else if d == 2 {
        "2"
    } else if d == 3 {
        "3"
    } else if d == 4 {
        "4"
    } else if d == 5 {
        "5"
    } else if d == 6 {
        "6"
    } else if d == 7 {
        "7"
    } else if d == 8 {
        "8"
    } else {
        "9"
    }
}

/// The version label `v<a>.<b>.<c>` for single-digit parts.
pub open spec fn spec_version(a: int, b: int, c: int) -> Seq<char> {
    "v"@ + spec_digit_str(a) + "."@ + spec_digit_str(b) + "."@ + spec_digit_str(c)
}

fn version_string(a: u64, b: u64, c: u64) -> (r: String)
    ensures
        r@ == spec_version(a as int, b as int, c as int),
{
    let mut s = "v".to_owned();
    s.append(digit_str(a));
    s.append(".");
    s.append(digit_str(b));
    s.append(".");
    s.append(digit_str(c));
    s
}

/// The `i`-th generated point over base timestamp `base`: hosts, labels and
/// numeric fields drawn from the fixed tables and ranges (CPU in
/// [5%, 95%), memory in [1 GB, 16 GB), disk in [100, 10000) operations),
/// timestamps spread over the hour before `base` and advancing with the
/// index.
pub open spec fn spec_generated_metric(base: i64, i: int) -> MetricPointV {
    MetricPointV {
        timestamp: ((base as int) - (spec_draw(i, 6) % 3600) as int + i) as i64,
        hostname: spec_hostname_at((spec_draw(i, 7) % 10) as int),
        cpu_centi_percent: (500 + spec_draw(i, 8) % 9000) as u32,
        memory_bytes: (1_000_000_000 + spec_draw(i, 9) % 15_000_000_000) as u64,
        disk_io_ops: (100 + spec_draw(i, 10) % 9900) as u32,
        tags: seq![
            ("env"@, spec_environment_at((spec_draw(i, 0) % 3) as int)),
            ("region"@, spec_region_at((spec_draw(i, 1) % 4) as int)),
            ("service"@, spec_service_at((spec_draw(i, 2) % 5) as int)),
            (
                "version"@,
                spec_version(
                    1 + (spec_draw(i, 3) % 2) as int,
                    (spec_draw(i, 4) % 10) as int,
                    (spec_draw(i, 5) % 5) as int,
                ),
            ),
        ],
    }
}

/// The whole generated dataset: `count` points over `base`.
pub open spec fn spec_generate(count: int, base: i64) -> Seq<MetricPointV> {
    Seq::new(count as nat, |i: int| spec_generated_metric(base, i))
}

fn generated_metric(base: i64, i: usize) -> (m: MetricPoint)
    requires
        i64::MIN + 3600 <= base as int,
        base as int + i < i64::MAX,
    ensures
        m@ == spec_generated_metric(base, i as int),
{
    let mut tags: Vec<Tag> = Vec::new();
    tags.push(Tag::new("env".to_owned(), environment_at(draw(i, 0) % 3)));
    tags.push(Tag::new("region".to_owned(), region_at(draw(i, 1) % 4)));
    tags.push(Tag::new("service".to_owned(), service_at(draw(i, 2) % 5)));
    tags.push(
        Tag::new(
            "version".to_owned(),
            version_string(1 + draw(i, 3) % 2, draw(i, 4) % 10, draw(i, 5) % 5),
        ),
    );
    let offset = draw(i, 6) % 3600;
    let ts128: i128 = base as i128 - offset as i128 + i as i128;
    let m = MetricPoint {
        timestamp: ts128 as i64,
        hostname: hostname_at(draw(i, 7) % 10),
        cpu_centi_percent: (500 + draw(i, 8) % 9000) as u32,
        memory_bytes: 1_000_000_000 + draw(i, 9) % 15_000_000_000,
        disk_io_ops: (100 + draw(i, 10) % 9900) as u32,
        tags,
    };
    proof {
        assert(m@.tags =~~= spec_generated_metric(base, i as int).tags);
        assert(m@ =~~= spec_generated_metric(base, i as int));
    }
    m
}

/// Generates `count` metric points over the given base timestamp; the result
/// is a pure function of `count` and `base_timestamp`, so two calls with the
/// same arguments yield identical sequences. The bounds keep every generated
/// timestamp inside the signed 64-bit range.
pub fn generate_test_data_at(count: usize, base_timestamp: i64) -> (r: Vec<MetricPoint>)
    requires
        i64::MIN + 3600 <= base_timestamp as int,
        base_timestamp as int + count <= i64::MAX,
    ensures
        r@.len() == count,
        metric_views(r@) == spec_generate(count as int, base_timestamp),
{
    let mut out: Vec<MetricPoint> = Vec::new();
    let mut i: usize = 0;
    while i < count
        invariant
            i64::MIN + 3600 <= base_timestamp as int,
            base_timestamp as int + count <= i64::MAX,
            0 <= i <= count,
            out@.len() == i,
            forall|k: int|
                0 <= k < i ==> out@[k]@ == spec_generated_metric(base_timestamp, k),
        decreases count - i,
    {
        out.push(generated_metric(base_timestamp, i));
        i += 1;
    }
    proof {
        assert(metric_views(out@) =~= spec_generate(count as int, base_timestamp));
    }
    out
}

/// Relies on std::time::SystemTime::now for the wall clock; seconds since
/// the epoch, saturated into the signed 64-bit range, zero before the epoch.
#[verifier::external_body]
fn now_unix_seconds() -> i64 {
    match std::time::SystemTime::now().duration_since(std::time::UNIX_EPOCH) {
        Ok(d) => i64::try_from(d.as_secs()).unwrap_or(i64::MAX),
        Err(_) => 0,
    }
}

/// Generates `count` points with the wall clock as the base timestamp,
/// clamped so that every generated timestamp is representable. The dataset
/// is `spec_generate` at some valid base; for a reproducible base, call
/// `generate_test_data_at`.
pub fn generate_test_data(count: usize) -> (r: Vec<MetricPoint>)
    requires
        count as int <= i64::MAX - 3600,
    ensures
        r@.len() == count,
        exists|base: i64|
            {
                &&& i64::MIN + 3600 <= base as int
                &&& base as int + count <= i64::MAX
                &&& metric_views(r@) == spec_generate(count as int, base)
            },
{
    let now = now_unix_seconds();
    let lo: i128 = i64::MIN as i128 + 3600;
    let hi: i128 = i64::MAX as i128 - count as i128;
    let now128 = now as i128;
    let base128: i128 = if now128 < lo {
        lo
    } else if now128 > hi {
        hi
    } else {
        now128
    };
    let base = base128 as i64;
    let r = generate_test_data_at(count, base);
    proof {
        assert(i64::MIN + 3600 <= base as int);
        assert(base as int + count <= i64::MAX);
        assert(metric_views(r@) == spec_generate(count as int, base));
    }
    r
}

/// Generated datasets are deterministic: any two runs over the same count
/// and base yield identical sequences, because `generate_test_data_at`
/// pins each run's value to `spec_generate`, a pure function of the two
/// arguments.
pub proof fn lemma_generate_deterministic(
    count: int,
    base: i64,
    first_run: Seq<MetricPointV>,
    second_run: Seq<MetricPointV>,
)
    requires
        first_run == spec_generate(count, base),
        second_run == spec_generate(count, base),
    ensures
        first_run == second_run,
{
}

/// Every generated point is well formed: its four tag keys are distinct.
pub proof fn lemma_generated_metric_wf(base: i64, i: int)
    ensures
        wf_metric(spec_generated_metric(base, i)),
{
    reveal_strlit("env");
    reveal_strlit("region");
    reveal_strlit("service");
    reveal_strlit("version");
    let tags = spec_generated_metric(base, i).tags;
    assert(tags[0].0 == "env"@ && tags[1].0 == "region"@ && tags[2].0 == "service"@ && tags[3].0
        == "version"@);
    assert("env"@.len() == 3 && "region"@.len() == 6 && "service"@.len() == 7 && "version"@.len()
        == 7);
    assert("service"@[0] == 's' && "version"@[0] == 'v');
    assert(forall|a: int, b: int|
        0 <= a < 4 && 0 <= b < 4 && a != b ==> tags[a].0 != tags[b].0);
}

} // verus!
