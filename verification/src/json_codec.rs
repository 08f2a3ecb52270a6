//! The text adapter's wire format: JSON bodies for metric points, metric
//! arrays and statistics, and a query-string form for queries.
//!
//! The encoder writes one canonical shape (fixed key order, no spaces); the
//! decoder is its strict mirror and accepts exactly that shape. The
//! round-trip lemmas state that decoding an encoded value yields the value
//! back, for every value.

use vstd::prelude::*;

use crate::model::{
    metric_views, tag_views, MetricPoint, MetricPointV, MetricQuery, MetricQueryV,
    MetricStatistics, Tag,
};
use crate::wire::{
    esc_bytes, lemma_match_at, lemma_parse_dec_i64, lemma_parse_dec_u64, lemma_prefix_split,
    lemma_scan_esc, parse_i64, parse_u64, push_bytes, push_dec_i64, push_dec_u64,
    push_json_string, scan_string, sp_expect, sp_parse_i64, sp_parse_u64, sp_scan_string,
    spec_dec_i64, spec_dec_u64, spec_json_string, string_from_utf8, expect_bytes,
};

verus! {

// ---------------------------------------------------------------- literals
/// The bytes of `{"timestamp":`.
pub open spec fn lit_obj_timestamp() -> Seq<u8> {
    seq![123u8] + spec_json_string("timestamp"@) + seq![58u8]
}

fn lit_obj_timestamp_vec() -> (r: Vec<u8>)
    ensures
        r@ == lit_obj_timestamp(),
{
    let mut v: Vec<u8> = Vec::new();
    v.push(123);
    push_json_string(&mut v, "timestamp");
    v.push(58);
    proof {
        assert(v@ =~= lit_obj_timestamp());
    }
    v
}

/// The bytes of `,"hostname":`.
pub open spec fn lit_key_hostname() -> Seq<u8> {
    seq![44u8] + spec_json_string("hostname"@) + seq![58u8]
}

fn lit_key_hostname_vec() -> (r: Vec<u8>)
    ensures
        r@ == lit_key_hostname(),
{
    let mut v: Vec<u8> = Vec::new();
    v.push(44);
    push_json_string(&mut v, "hostname");
    v.push(58);
    proof {
        assert(v@ =~= lit_key_hostname());
    }
    v
}

/// The bytes of `,"cpu_centi_percent":`.
pub open spec fn lit_key_cpu() -> Seq<u8> {
    seq![44u8] + spec_json_string("cpu_centi_percent"@) + seq![58u8]
}

fn lit_key_cpu_vec() -> (r: Vec<u8>)
    ensures
        r@ == lit_key_cpu(),
{
    let mut v: Vec<u8> = Vec::new();
    v.push(44);
    push_json_string(&mut v, "cpu_centi_percent");
    v.push(58);
    proof {
        assert(v@ =~= lit_key_cpu());
    }
    v
}

/// The bytes of `,"memory_bytes":`.
pub open spec fn lit_key_memory() -> Seq<u8> {
    seq![44u8] + spec_json_string("memory_bytes"@) + seq![58u8]
}

fn lit_key_memory_vec() -> (r: Vec<u8>)
    ensures
        r@ == lit_key_memory(),
{
    let mut v: Vec<u8> = Vec::new();
    v.push(44);
    push_json_string(&mut v, "memory_bytes");
    v.push(58);
    proof {
        assert(v@ =~= lit_key_memory());
    }
    v
}

/// The bytes of `,"disk_io_ops":`.
pub open spec fn lit_key_disk() -> Seq<u8> {
    seq![44u8] + spec_json_string("disk_io_ops"@) + seq![58u8]
}

fn lit_key_disk_vec() -> (r: Vec<u8>)
    ensures
        r@ == lit_key_disk(),
{
    let mut v: Vec<u8> = Vec::new();
    v.push(44);
    push_json_string(&mut v, "disk_io_ops");
    v.push(58);
    proof {
        assert(v@ =~= lit_key_disk());
    }
    v
}

/// The bytes of `,"tags":{`.
pub open spec fn lit_key_tags() -> Seq<u8> {
    seq![44u8] + spec_json_string("tags"@) + seq![58u8, 123u8]
}

fn lit_key_tags_vec() -> (r: Vec<u8>)
    ensures
        r@ == lit_key_tags(),
{
    let mut v: Vec<u8> = Vec::new();
    v.push(44);
    push_json_string(&mut v, "tags");
    v.push(58);
    v.push(123);
    proof {
        assert(v@ =~= lit_key_tags());
    }
    v
}

// ------------------------------------------------------------ tags object
/// One `"key":"value"` member.
pub open spec fn spec_tag_pair(t: (Seq<char>, Seq<char>)) -> Seq<u8> {
    spec_json_string(t.0) + seq![58u8] + spec_json_string(t.1)
}

/// The members after the first, each preceded by a comma.
pub open spec fn spec_tags_rest(ts: Seq<(Seq<char>, Seq<char>)>) -> Seq<u8>
    decreases ts.len(),
{
    if ts.len() == 0 {
        Seq::empty()
    } else {
        seq![44u8] + spec_tag_pair(ts[0]) + spec_tags_rest(ts.drop_first())
    }
}

/// The members of a tags object and its closing brace (the opening brace
/// belongs to the key literal before it).
pub open spec fn spec_tags_obj(ts: Seq<(Seq<char>, Seq<char>)>) -> Seq<u8> {
    if ts.len() == 0 {
        seq![125u8]
    } else {
        spec_tag_pair(ts[0]) + spec_tags_rest(ts.drop_first()) + seq![125u8]
    }
}

proof fn lemma_tags_rest_push(ts: Seq<(Seq<char>, Seq<char>)>, x: (Seq<char>, Seq<char>))
    ensures
        spec_tags_rest(ts.push(x)) == spec_tags_rest(ts) + seq![44u8] + spec_tag_pair(x),
    decreases ts.len(),
{
    if ts.len() == 0 {
        assert(ts.push(x)[0] == x);
        assert(ts.push(x).drop_first() =~= Seq::<(Seq<char>, Seq<char>)>::empty());
        assert(spec_tags_rest(Seq::<(Seq<char>, Seq<char>)>::empty()) == Seq::<u8>::empty());
        assert(spec_tags_rest(ts.push(x)) =~= spec_tags_rest(ts) + seq![44u8] + spec_tag_pair(x));
    } else {
        assert(ts.push(x).drop_first() =~= ts.drop_first().push(x));
        assert(ts.push(x)[0] == ts[0]);
        lemma_tags_rest_push(ts.drop_first(), x);
        assert(spec_tags_rest(ts.push(x)) =~= spec_tags_rest(ts) + seq![44u8] + spec_tag_pair(x));
    }
}

/// The partially built members list for the first `i` tags, without the
/// closing brace.
pub open spec fn spec_tags_members(ts: Seq<(Seq<char>, Seq<char>)>) -> Seq<u8> {
    if ts.len() == 0 {
        Seq::empty()
    } else {
        spec_tag_pair(ts[0]) + spec_tags_rest(ts.drop_first())
    }
}

proof fn lemma_tags_members_push(ts: Seq<(Seq<char>, Seq<char>)>, x: (Seq<char>, Seq<char>))
    ensures
        ts.len() == 0 ==> spec_tags_members(ts.push(x)) == spec_tag_pair(x),
        ts.len() > 0 ==> spec_tags_members(ts.push(x)) == spec_tags_members(ts) + seq![44u8]
            + spec_tag_pair(x),
{
    if ts.len() == 0 {
        assert(ts.push(x)[0] == x);
        assert(ts.push(x).drop_first() =~= Seq::<(Seq<char>, Seq<char>)>::empty());
        assert(spec_tags_members(ts.push(x)) =~= spec_tag_pair(x));
    } else {
        assert(ts.push(x)[0] == ts[0]);
        assert(ts.push(x).drop_first() =~= ts.drop_first().push(x));
        lemma_tags_rest_push(ts.drop_first(), x);
        assert(spec_tags_members(ts.push(x)) =~= spec_tags_members(ts) + seq![44u8]
            + spec_tag_pair(x));
    }
}

// ------------------------------------------------------------- the metric
/// The canonical JSON body of one metric point.
pub open spec fn spec_json_metric(m: MetricPointV) -> Seq<u8> {
    lit_obj_timestamp() + spec_dec_i64(m.timestamp as int) + lit_key_hostname()
        + spec_json_string(m.hostname) + lit_key_cpu() + spec_dec_u64(m.cpu_centi_percent as int)
        + lit_key_memory() + spec_dec_u64(m.memory_bytes as int) + lit_key_disk() + spec_dec_u64(
        m.disk_io_ops as int,
    ) + lit_key_tags() + spec_tags_obj(m.tags) + seq![125u8]
}

/// Encodes one metric point as its canonical JSON body.
pub fn encode_metric_json(m: &MetricPoint) -> (r: Vec<u8>)
    ensures
        r@ == spec_json_metric(m@),
{
    let mut out: Vec<u8> = Vec::new();
    let lit = lit_obj_timestamp_vec();
    push_bytes(&mut out, &lit);
    push_dec_i64(&mut out, m.timestamp);
    let lit = lit_key_hostname_vec();
    push_bytes(&mut out, &lit);
    push_json_string(&mut out, m.hostname.as_str());
    let lit = lit_key_cpu_vec();
    push_bytes(&mut out, &lit);
    push_dec_u64(&mut out, m.cpu_centi_percent as u64);
    let lit = lit_key_memory_vec();
    push_bytes(&mut out, &lit);
    push_dec_u64(&mut out, m.memory_bytes);
    let lit = lit_key_disk_vec();
    push_bytes(&mut out, &lit);
    push_dec_u64(&mut out, m.disk_io_ops as u64);
    let lit = lit_key_tags_vec();
    push_bytes(&mut out, &lit);
    let ghost head = out@;
    let n = m.tags.len();
    let mut i: usize = 0;
    while i < n
        invariant
            n == m.tags@.len(),
            0 <= i <= n,
            out@ == head + spec_tags_members(tag_views(m.tags@).take(i as int)),
        decreases n - i,
    {
        let ghost before = out@;
        if i > 0 {
            out.push(44);
        }
        push_json_string(&mut out, m.tags[i].key.as_str());
        out.push(58);
        push_json_string(&mut out, m.tags[i].value.as_str());
        proof {
            let tv = tag_views(m.tags@);
            let x = tv[i as int];
            assert(tv.take(i + 1) =~= tv.take(i as int).push(x));
            lemma_tags_members_push(tv.take(i as int), x);
            if i > 0 {
                assert(out@ =~= before + seq![44u8] + spec_tag_pair(x));
                assert(out@ =~= head + spec_tags_members(tv.take(i + 1)));
            } else {
                assert(out@ =~= before + spec_tag_pair(x));
                assert(out@ =~= head + spec_tags_members(tv.take(i + 1)));
            }
        }
        i += 1;
    }
    out.push(125);
    out.push(125);
    proof {
        let tv = tag_views(m.tags@);
        assert(tv.take(n as int) =~= tv);
        assert(spec_tags_obj(tv) =~= spec_tags_members(tv) + seq![125u8]);
        assert(out@ =~= spec_json_metric(m@));
    }
    out
}

// ------------------------------------------------------------ spec parser
/// A quoted JSON string at `pos`: its characters and the position after the
/// closing quote; the content bytes must be valid UTF-8.
pub open spec fn sp_parse_json_str(s: Seq<u8>, pos: int) -> Option<(Seq<char>, int)> {
    if 0 <= pos < s.len() && s[pos] == 34 {
        match sp_scan_string(s, pos + 1, Seq::empty()) {
            Some((bs, p2)) => if vstd::utf8::valid_utf8(bs) {
                Some((vstd::utf8::decode_utf8(bs), p2))
            } else {
                None
            },
            None => None,
        }
    } else {
        None
    }
}

/// Scans `"k":"v"` members separated by commas until the closing brace;
/// `fuel` bounds the member count (any value at least the count scans them
/// all).
pub open spec fn sp_scan_tags(
    s: Seq<u8>,
    pos: int,
    acc: Seq<(Seq<char>, Seq<char>)>,
    fuel: nat,
) -> Option<(Seq<(Seq<char>, Seq<char>)>, int)>
    decreases fuel,
{
    if fuel == 0 {
        None
    } else {
        match sp_parse_json_str(s, pos) {
            Some((k, p1)) => match sp_expect(s, p1, seq![58u8]) {
                Some(p2) => match sp_parse_json_str(s, p2) {
                    Some((v, p3)) => {
                        let acc2 = acc.push((k, v));
                        if p3 < s.len() && s[p3] == 44 {
                            sp_scan_tags(s, p3 + 1, acc2, (fuel - 1) as nat)
                        } else if p3 < s.len() && s[p3] == 125 {
                            Some((acc2, p3 + 1))
                        } else {
                            None
                        }
                    },
                    None => None,
                },
                None => None,
            },
            None => None,
        }
    }
}

/// A tags object body at `pos`: empty, or scanned members.
pub open spec fn sp_parse_tags_obj(s: Seq<u8>, pos: int, fuel: nat) -> Option<
    (Seq<(Seq<char>, Seq<char>)>, int),
> {
    if 0 <= pos < s.len() && s[pos] == 125 {
        Some((Seq::empty(), pos + 1))
    } else {
        sp_scan_tags(s, pos, Seq::empty(), fuel)
    }
}

/// One metric point at `pos` in the canonical shape; the strict mirror of
/// `spec_json_metric`.
pub open spec fn sp_parse_metric(s: Seq<u8>, pos: int) -> Option<(MetricPointV, int)> {
    match sp_expect(s, pos, lit_obj_timestamp()) {
        Some(p1) => match sp_parse_i64(s, p1) {
            Some((ts, p2)) => match sp_expect(s, p2, lit_key_hostname()) {
                Some(p3) => match sp_parse_json_str(s, p3) {
                    Some((host, p4)) => match sp_expect(s, p4, lit_key_cpu()) {
                        Some(p5) => match sp_parse_u64(s, p5) {
                            Some((cpu, p6)) => if cpu <= u32::MAX as u64 {
                                match sp_expect(s, p6, lit_key_memory()) {
                                    Some(p7) => match sp_parse_u64(s, p7) {
                                        Some((mem, p8)) => match sp_expect(s, p8, lit_key_disk()) {
                                            Some(p9) => match sp_parse_u64(s, p9) {
                                                Some((disk, p10)) => if disk <= u32::MAX as u64 {
                                                    match sp_expect(s, p10, lit_key_tags()) {
                                                        Some(p11) => match sp_parse_tags_obj(
                                                            s,
                                                            p11,
                                                            s.len() as nat,
                                                        ) {
                                                            Some((ts2, p12)) => match sp_expect(
                                                                s,
                                                                p12,
                                                                seq![125u8],
                                                            ) {
                                                                Some(p13) => Some(
                                                                    (
                                                                        MetricPointV {
                                                                            timestamp: ts,
                                                                            hostname: host,
                                                                            cpu_centi_percent: cpu
                                                                                as u32,
                                                                            memory_bytes: mem,
                                                                            disk_io_ops: disk
                                                                                as u32,
                                                                            tags: ts2,
                                                                        },
                                                                        p13,
                                                                    ),
                                                                ),
                                                                None => None,
                                                            },
                                                            None => None,
                                                        },
                                                        None => None,
                                                    }
                                                } else {
                                                    None
                                                },
                                                None => None,
                                            },
                                            None => None,
                                        },
                                        None => None,
                                    },
                                    None => None,
                                }
                            } else {
                                None
                            },
                            None => None,
                        },
                        None => None,
                    },
                    None => None,
                },
                None => None,
            },
            None => None,
        },
        None => None,
    }
}

/// The whole-input decode of one metric point: the canonical shape and
/// nothing after it.
pub open spec fn sp_decode_metric(s: Seq<u8>) -> Option<MetricPointV> {
    match sp_parse_metric(s, 0) {
        Some((m, p)) => if p == s.len() {
            Some(m)
        } else {
            None
        },
        None => None,
    }
}


// ------------------------------------------------------- round-trip proof
proof fn lemma_parse_json_str_rt(s: Seq<u8>, pos: int, chars: Seq<char>)
    requires
        0 <= pos,
        pos + spec_json_string(chars).len() <= s.len(),
        s.subrange(pos, pos + spec_json_string(chars).len()) == spec_json_string(chars),
    ensures
        sp_parse_json_str(s, pos) == Some((chars, pos + spec_json_string(chars).len())),
{
    let eb = esc_bytes(vstd::utf8::encode_utf8(chars));
    let js = spec_json_string(chars);
    assert(js =~= seq![34u8] + (eb + seq![34u8]));
    lemma_prefix_split(s, pos, seq![34u8], eb + seq![34u8]);
    lemma_match_at(s, pos, seq![34u8], 0);
    assert(s[pos] == 34);
    lemma_prefix_split(s, pos + 1, eb, seq![34u8]);
    lemma_match_at(s, pos + 1 + eb.len(), seq![34u8], 0);
    assert(s[pos + 1 + eb.len()] == 34);
    lemma_scan_esc(s, pos + 1, Seq::empty(), vstd::utf8::encode_utf8(chars));
    assert(Seq::<u8>::empty() + vstd::utf8::encode_utf8(chars) =~= vstd::utf8::encode_utf8(
        chars,
    ));
    vstd::utf8::encode_utf8_valid_utf8(chars);
    vstd::utf8::encode_utf8_decode_utf8(chars);
}

proof fn lemma_tags_rest_len(ts: Seq<(Seq<char>, Seq<char>)>)
    ensures
        spec_tags_rest(ts).len() >= ts.len(),
    decreases ts.len(),
{
    if ts.len() > 0 {
        lemma_tags_rest_len(ts.drop_first());
    }
}

proof fn lemma_tags_obj_len(ts: Seq<(Seq<char>, Seq<char>)>)
    ensures
        spec_tags_obj(ts).len() >= ts.len(),
{
    if ts.len() > 0 {
        lemma_tags_rest_len(ts.drop_first());
    }
}

proof fn lemma_scan_tags_rt(
    s: Seq<u8>,
    pos: int,
    acc: Seq<(Seq<char>, Seq<char>)>,
    ts: Seq<(Seq<char>, Seq<char>)>,
    fuel: nat,
)
    requires
        0 <= pos,
        ts.len() >= 1,
        fuel >= ts.len(),
        pos + spec_tags_members(ts).len() + 1 <= s.len(),
        s.subrange(pos, pos + spec_tags_members(ts).len() + 1) == spec_tags_members(ts) + seq![
            125u8,
        ],
    ensures
        sp_scan_tags(s, pos, acc, fuel) == Some(
            (acc + ts, pos + spec_tags_members(ts).len() + 1),
        ),
    decreases ts.len(),
{
    let t0 = ts[0];
    let rest = ts.drop_first();
    let jk = spec_json_string(t0.0);
    let jv = spec_json_string(t0.1);
    let members = spec_tags_members(ts);
    assert(members == spec_tag_pair(t0) + spec_tags_rest(rest));
    let tail = spec_tags_rest(rest) + seq![125u8];
    assert(members + seq![125u8] =~= jk + (seq![58u8] + (jv + tail)));
    lemma_prefix_split(s, pos, jk, seq![58u8] + (jv + tail));
    lemma_parse_json_str_rt(s, pos, t0.0);
    let p1 = pos + jk.len();
    lemma_prefix_split(s, p1, seq![58u8], jv + tail);
    assert(s.subrange(p1, p1 + 1) == seq![58u8]);
    let p2 = p1 + 1;
    lemma_prefix_split(s, p2, jv, tail);
    lemma_parse_json_str_rt(s, p2, t0.1);
    let p3 = p2 + jv.len();
    let acc2 = acc.push(t0);
    if rest.len() == 0 {
        assert(spec_tags_rest(rest) =~= Seq::<u8>::empty());
        assert(tail =~= seq![125u8]);
        lemma_match_at(s, p3, seq![125u8], 0);
        assert(s[p3] == 125);
        assert(acc2 =~= acc + ts);
    } else {
        assert(spec_tags_rest(rest) == seq![44u8] + spec_tag_pair(rest[0]) + spec_tags_rest(
            rest.drop_first(),
        ));
        assert(spec_tags_members(rest) == spec_tag_pair(rest[0]) + spec_tags_rest(
            rest.drop_first(),
        ));
        assert(tail =~= seq![44u8] + (spec_tags_members(rest) + seq![125u8]));
        lemma_prefix_split(s, p3, seq![44u8], spec_tags_members(rest) + seq![125u8]);
        lemma_match_at(s, p3, seq![44u8], 0);
        assert(s[p3] == 44);
        lemma_scan_tags_rt(s, p3 + 1, acc2, rest, (fuel - 1) as nat);
        assert(acc2 + rest =~= acc + ts);
    }
}

proof fn lemma_parse_tags_obj_rt(s: Seq<u8>, pos: int, ts: Seq<(Seq<char>, Seq<char>)>, fuel: nat)
    requires
        0 <= pos,
        fuel >= ts.len(),
        pos + spec_tags_obj(ts).len() <= s.len(),
        s.subrange(pos, pos + spec_tags_obj(ts).len()) == spec_tags_obj(ts),
    ensures
        sp_parse_tags_obj(s, pos, fuel) == Some((ts, pos + spec_tags_obj(ts).len())),
{
    if ts.len() == 0 {
        lemma_match_at(s, pos, spec_tags_obj(ts), 0);
        assert(s[pos] == 125);
    } else {
        let members = spec_tags_members(ts);
        assert(spec_tags_obj(ts) =~= members + seq![125u8]);
        lemma_match_at(s, pos, spec_tags_obj(ts), 0);
        assert(spec_tags_obj(ts)[0] == members[0]);
        assert(members[0] == spec_tag_pair(ts[0])[0]);
        assert(spec_tag_pair(ts[0])[0] == spec_json_string(ts[0].0)[0]);
        assert(spec_json_string(ts[0].0)[0] == 34);
        assert(s[pos] == 34);
        lemma_scan_tags_rt(s, pos, Seq::empty(), ts, fuel);
        assert(Seq::<(Seq<char>, Seq<char>)>::empty() + ts =~= ts);
    }
}

/// Where each piece of the canonical JSON body of `m` stands, given the
/// whole body stands at `pos`.
#[verifier::rlimit(100)]
#[verifier::spinoff_prover]
proof fn lemma_metric_layout(s: Seq<u8>, pos: int, m: MetricPointV)
    requires
        0 <= pos,
        pos + spec_json_metric(m).len() <= s.len(),
        s.subrange(pos, pos + spec_json_metric(m).len()) == spec_json_metric(m),
    ensures
        ({
            let pc0 = lit_obj_timestamp();
            let pc1 = spec_dec_i64(m.timestamp as int);
            let pc2 = lit_key_hostname();
            let pc3 = spec_json_string(m.hostname);
            let pc4 = lit_key_cpu();
            let pc5 = spec_dec_u64(m.cpu_centi_percent as int);
            let pc6 = lit_key_memory();
            let pc7 = spec_dec_u64(m.memory_bytes as int);
            let pc8 = lit_key_disk();
            let pc9 = spec_dec_u64(m.disk_io_ops as int);
            let pc10 = lit_key_tags();
            let pc11 = spec_tags_obj(m.tags);
            let p1 = pos + pc0.len();
            let p2 = p1 + pc1.len();
            let p3 = p2 + pc2.len();
            let p4 = p3 + pc3.len();
            let p5 = p4 + pc4.len();
            let p6 = p5 + pc5.len();
            let p7 = p6 + pc6.len();
            let p8 = p7 + pc7.len();
            let p9 = p8 + pc8.len();
            let p10 = p9 + pc9.len();
            let p11 = p10 + pc10.len();
            let p12 = p11 + pc11.len();
            &&& s.subrange(pos, p1) == pc0
            &&& s.subrange(p1, p2) == pc1
            &&& s.subrange(p2, p3) == pc2
            &&& s.subrange(p3, p4) == pc3
            &&& s.subrange(p4, p5) == pc4
            &&& s.subrange(p5, p6) == pc5
            &&& s.subrange(p6, p7) == pc6
            &&& s.subrange(p7, p8) == pc7
            &&& s.subrange(p8, p9) == pc8
            &&& s.subrange(p9, p10) == pc9
            &&& s.subrange(p10, p11) == pc10
            &&& s.subrange(p11, p12) == pc11
            &&& s.subrange(p12, p12 + 1) == seq![125u8]
            &&& p12 + 1 == pos + spec_json_metric(m).len()
        }),
{
    let pc0 = lit_obj_timestamp();
    let pc1 = spec_dec_i64(m.timestamp as int);
    let pc2 = lit_key_hostname();
    let pc3 = spec_json_string(m.hostname);
    let pc4 = lit_key_cpu();
    let pc5 = spec_dec_u64(m.cpu_centi_percent as int);
    let pc6 = lit_key_memory();
    let pc7 = spec_dec_u64(m.memory_bytes as int);
    let pc8 = lit_key_disk();
    let pc9 = spec_dec_u64(m.disk_io_ops as int);
    let pc10 = lit_key_tags();
    let pc11 = spec_tags_obj(m.tags);
    let pc12 = seq![125u8];
    let r12 = pc12;
    let r11 = pc11 + r12;
    let r10 = pc10 + r11;
    let r9 = pc9 + r10;
    let r8 = pc8 + r9;
    let r7 = pc7 + r8;
    let r6 = pc6 + r7;
    let r5 = pc5 + r6;
    let r4 = pc4 + r5;
    let r3 = pc3 + r4;
    let r2 = pc2 + r3;
    let r1 = pc1 + r2;
    let r0 = pc0 + r1;
    assert(spec_json_metric(m) =~= r0);
    lemma_prefix_split(s, pos, pc0, r1);
    let p1 = pos + pc0.len();
    lemma_prefix_split(s, p1, pc1, r2);
    let p2 = p1 + pc1.len();
    lemma_prefix_split(s, p2, pc2, r3);
    let p3 = p2 + pc2.len();
    lemma_prefix_split(s, p3, pc3, r4);
    let p4 = p3 + pc3.len();
    lemma_prefix_split(s, p4, pc4, r5);
    let p5 = p4 + pc4.len();
    lemma_prefix_split(s, p5, pc5, r6);
    let p6 = p5 + pc5.len();
    lemma_prefix_split(s, p6, pc6, r7);
    let p7 = p6 + pc6.len();
    lemma_prefix_split(s, p7, pc7, r8);
    let p8 = p7 + pc7.len();
    lemma_prefix_split(s, p8, pc8, r9);
    let p9 = p8 + pc8.len();
    lemma_prefix_split(s, p9, pc9, r10);
    let p10 = p9 + pc9.len();
    lemma_prefix_split(s, p10, pc10, r11);
    let p11 = p10 + pc10.len();
    lemma_prefix_split(s, p11, pc11, r12);
}

/// Parsing the canonical JSON body of `m`, wherever it stands, yields `m`
/// and the position after it.
#[verifier::rlimit(100)]
#[verifier::spinoff_prover]
proof fn lemma_parse_metric_rt(s: Seq<u8>, pos: int, m: MetricPointV)
    requires
        0 <= pos,
        pos + spec_json_metric(m).len() <= s.len(),
        s.subrange(pos, pos + spec_json_metric(m).len()) == spec_json_metric(m),
    ensures
        sp_parse_metric(s, pos) == Some((m, pos + spec_json_metric(m).len())),
{
    lemma_metric_layout(s, pos, m);
    let pc0 = lit_obj_timestamp();
    let pc1 = spec_dec_i64(m.timestamp as int);
    let pc2 = lit_key_hostname();
    let pc3 = spec_json_string(m.hostname);
    let pc4 = lit_key_cpu();
    let pc5 = spec_dec_u64(m.cpu_centi_percent as int);
    let pc6 = lit_key_memory();
    let pc7 = spec_dec_u64(m.memory_bytes as int);
    let pc8 = lit_key_disk();
    let pc9 = spec_dec_u64(m.disk_io_ops as int);
    let pc10 = lit_key_tags();
    let pc11 = spec_tags_obj(m.tags);
    let p1 = pos + pc0.len();
    let p2 = p1 + pc1.len();
    let p3 = p2 + pc2.len();
    let p4 = p3 + pc3.len();
    let p5 = p4 + pc4.len();
    let p6 = p5 + pc5.len();
    let p7 = p6 + pc6.len();
    let p8 = p7 + pc7.len();
    let p9 = p8 + pc8.len();
    let p10 = p9 + pc9.len();
    let p11 = p10 + pc10.len();
    let p12 = p11 + pc11.len();
    lemma_match_at(s, p2, pc2, 0);
    assert(pc2[0] == 44);
    lemma_parse_dec_i64(s, p1, m.timestamp);
    lemma_match_at(s, p6, pc6, 0);
    assert(pc6[0] == 44);
    lemma_parse_dec_u64(s, p5, m.cpu_centi_percent as u64);
    lemma_match_at(s, p8, pc8, 0);
    assert(pc8[0] == 44);
    lemma_parse_dec_u64(s, p7, m.memory_bytes);
    lemma_match_at(s, p10, pc10, 0);
    assert(pc10[0] == 44);
    lemma_parse_dec_u64(s, p9, m.disk_io_ops as u64);
    lemma_parse_json_str_rt(s, p3, m.hostname);
    lemma_tags_obj_len(m.tags);
    lemma_parse_tags_obj_rt(s, p11, m.tags, s.len() as nat);
    let parsed = MetricPointV {
        timestamp: m.timestamp,
        hostname: m.hostname,
        cpu_centi_percent: ((m.cpu_centi_percent as u64) as u32),
        memory_bytes: m.memory_bytes,
        disk_io_ops: ((m.disk_io_ops as u64) as u32),
        tags: m.tags,
    };
    assert(parsed =~~= m);
    assert(sp_parse_metric(s, pos) == Some((m, p12 + 1)));
}

/// Decoding the canonical JSON body of any metric point yields the point
/// back.
pub proof fn lemma_json_metric_round_trip(m: MetricPointV)
    ensures
        sp_decode_metric(spec_json_metric(m)) == Some(m),
{
    let s = spec_json_metric(m);
    assert(s.subrange(0, s.len() as int) =~= s);
    lemma_parse_metric_rt(s, 0, m);
}

// ------------------------------------------------------------ exec parser
/// Parses a quoted JSON string; the strict mirror of `sp_parse_json_str`.
fn parse_json_str(s: &Vec<u8>, pos: usize) -> (r: Option<(String, usize)>)
    requires
        pos <= s@.len(),
    ensures
        match r {
            Some((st, p2)) => sp_parse_json_str(s@, pos as int) == Some((st@, p2 as int)) && pos
                < p2 <= s@.len(),
            None => sp_parse_json_str(s@, pos as int) is None,
        },
{
    if pos < s.len() && s[pos] == 34 {
        match scan_string(s, pos + 1) {
            Some((bs, p2)) => {
                let ghost bsv = bs@;
                match string_from_utf8(bs) {
                    Some(st) => Some((st, p2)),
                    None => None,
                }
            },
            None => None,
        }
    } else {
        None
    }
}

/// Parses the members of a tags object after its opening brace; the strict
/// mirror of `sp_parse_tags_obj` at fuel `s.len()`.
fn parse_tags_obj(s: &Vec<u8>, pos: usize) -> (r: Option<(Vec<Tag>, usize)>)
    requires
        pos <= s@.len(),
    ensures
        match r {
            Some((tags, p2)) => sp_parse_tags_obj(s@, pos as int, s@.len() as nat) == Some(
                (tag_views(tags@), p2 as int),
            ) && pos < p2 <= s@.len(),
            None => sp_parse_tags_obj(s@, pos as int, s@.len() as nat) is None,
        },
{
    if pos < s.len() && s[pos] == 125 {
        let empty_tags: Vec<Tag> = Vec::new();
        proof {
            assert(tag_views(empty_tags@) =~= Seq::<(Seq<char>, Seq<char>)>::empty());
        }
        return Some((empty_tags, pos + 1));
    }
    let mut acc: Vec<Tag> = Vec::new();
    let mut cur: usize = pos;
    let mut fuel: usize = s.len();
    proof {
        assert(tag_views(acc@) =~= Seq::<(Seq<char>, Seq<char>)>::empty());
    }
    loop
        invariant
            pos <= s@.len(),
            pos <= cur <= s@.len(),
            sp_scan_tags(s@, pos as int, Seq::empty(), s@.len() as nat) == sp_scan_tags(
                s@,
                cur as int,
                tag_views(acc@),
                fuel as nat,
            ),
            !(pos < s@.len() && s@[pos as int] == 125),
        decreases fuel,
    {
        if fuel == 0 {
            return None;
        }
        let (k, p1) = match parse_json_str(s, cur) {
            Some(x) => x,
            None => {
                return None;
            },
        };
        if !(p1 < s.len() && s[p1] == 58) {
            proof {
                assert(sp_expect(s@, p1 as int, seq![58u8]) is None) by {
                    if p1 + 1 <= s@.len() {
                        assert(s@.subrange(p1 as int, p1 + 1) =~= seq![s@[p1 as int]]);
                        assert(seq![s@[p1 as int]][0] == s@[p1 as int]);
                        assert(seq![58u8][0] == 58u8);
                    }
                }
            }
            return None;
        }
        proof {
            assert(s@.subrange(p1 as int, p1 + 1) =~= seq![s@[p1 as int]]);
            assert(sp_expect(s@, p1 as int, seq![58u8]) == Some(p1 + 1 as int));
        }
        let p2 = p1 + 1;
        let (v, p3) = match parse_json_str(s, p2) {
            Some(x) => x,
            None => {
                return None;
            },
        };
        let ghost prev_views = tag_views(acc@);
        acc.push(Tag::new(k, v));
        proof {
            assert(tag_views(acc@) =~= prev_views.push((acc@[acc@.len() - 1].key@, acc@[acc@.len()
                - 1].value@)));
        }
        if p3 < s.len() && s[p3] == 44 {
            cur = p3 + 1;
            fuel = fuel - 1;
        } else if p3 < s.len() && s[p3] == 125 {
            return Some((acc, p3 + 1));
        } else {
            return None;
        }
    }
}

/// Parses one metric point at `pos`; the strict mirror of
/// `sp_parse_metric`.
fn parse_metric(s: &Vec<u8>, pos: usize) -> (r: Option<(MetricPoint, usize)>)
    requires
        pos <= s@.len(),
    ensures
        match r {
            Some((mp, p2)) => sp_parse_metric(s@, pos as int) == Some((mp@, p2 as int)) && pos
                < p2 <= s@.len(),
            None => sp_parse_metric(s@, pos as int) is None,
        },
{
    let lit = lit_obj_timestamp_vec();
    let p1 = match expect_bytes(s, pos, &lit) {
        Some(p) => p,
        None => {
            return None;
        },
    };
    let (ts, p2) = match parse_i64(s, p1) {
        Some(x) => x,
        None => {
            return None;
        },
    };
    let lit = lit_key_hostname_vec();
    let p3 = match expect_bytes(s, p2, &lit) {
        Some(p) => p,
        None => {
            return None;
        },
    };
    let (host, p4) = match parse_json_str(s, p3) {
        Some(x) => x,
        None => {
            return None;
        },
    };
    let lit = lit_key_cpu_vec();
    let p5 = match expect_bytes(s, p4, &lit) {
        Some(p) => p,
        None => {
            return None;
        },
    };
    let (cpu64, p6) = match parse_u64(s, p5) {
        Some(x) => x,
        None => {
            return None;
        },
    };
    if cpu64 > u32::MAX as u64 {
        return None;
    }
    let lit = lit_key_memory_vec();
    let p7 = match expect_bytes(s, p6, &lit) {
        Some(p) => p,
        None => {
            return None;
        },
    };
    let (mem, p8) = match parse_u64(s, p7) {
        Some(x) => x,
        None => {
            return None;
        },
    };
    let lit = lit_key_disk_vec();
    let p9 = match expect_bytes(s, p8, &lit) {
        Some(p) => p,
        None => {
            return None;
        },
    };
    let (disk64, p10) = match parse_u64(s, p9) {
        Some(x) => x,
        None => {
            return None;
        },
    };
    if disk64 > u32::MAX as u64 {
        return None;
    }
    let lit = lit_key_tags_vec();
    let p11 = match expect_bytes(s, p10, &lit) {
        Some(p) => p,
        None => {
            return None;
        },
    };
    let (tags, p12) = match parse_tags_obj(s, p11) {
        Some(x) => x,
        None => {
            return None;
        },
    };
    if !(p12 < s.len() && s[p12] == 125) {
        proof {
            assert(sp_expect(s@, p12 as int, seq![125u8]) is None) by {
                if p12 + 1 <= s@.len() {
                    assert(s@.subrange(p12 as int, p12 + 1) =~= seq![s@[p12 as int]]);
                    assert(seq![s@[p12 as int]][0] == s@[p12 as int]);
                    assert(seq![125u8][0] == 125u8);
                }
            }
        }
        return None;
    }
    proof {
        assert(s@.subrange(p12 as int, p12 + 1) =~= seq![s@[p12 as int]]);
        assert(sp_expect(s@, p12 as int, seq![125u8]) == Some(p12 + 1 as int));
    }
    let p13 = p12 + 1;
    let mp = MetricPoint {
        timestamp: ts,
        hostname: host,
        cpu_centi_percent: cpu64 as u32,
        memory_bytes: mem,
        disk_io_ops: disk64 as u32,
        tags,
    };
    proof {
        assert(mp@ =~~= sp_parse_metric(s@, pos as int)->Some_0.0);
    }
    Some((mp, p13))
}

/// Decodes one metric point from a whole JSON body; the strict mirror of
/// `sp_decode_metric`.
pub fn decode_metric_json(s: &Vec<u8>) -> (r: Option<MetricPoint>)
    ensures
        match r {
            Some(mp) => sp_decode_metric(s@) == Some(mp@),
            None => sp_decode_metric(s@) is None,
        },
{
    match parse_metric(s, 0) {
        Some((mp, p)) => {
            if p == s.len() {
                Some(mp)
            } else {
                None
            }
        },
        None => None,
    }
}


// ------------------------------------------------------------- the array
/// The array members after the first, each preceded by a comma.
pub open spec fn spec_arr_rest(ms: Seq<MetricPointV>) -> Seq<u8>
    decreases ms.len(),
{
    if ms.len() == 0 {
        Seq::empty()
    } else {
        seq![44u8] + spec_json_metric(ms[0]) + spec_arr_rest(ms.drop_first())
    }
}

/// The bodies of all array members, comma separated.
pub open spec fn spec_arr_members(ms: Seq<MetricPointV>) -> Seq<u8> {
    if ms.len() == 0 {
        Seq::empty()
    } else {
        spec_json_metric(ms[0]) + spec_arr_rest(ms.drop_first())
    }
}

/// The canonical JSON array of metric points.
pub open spec fn spec_json_array(ms: Seq<MetricPointV>) -> Seq<u8> {
    seq![91u8] + spec_arr_members(ms) + seq![93u8]
}

#[verifier::rlimit(100)]
#[verifier::spinoff_prover]
proof fn lemma_arr_rest_push(ms: Seq<MetricPointV>, x: MetricPointV)
    ensures
        spec_arr_rest(ms.push(x)) == spec_arr_rest(ms) + seq![44u8] + spec_json_metric(x),
    decreases ms.len(),
{
    if ms.len() == 0 {
        assert(ms.push(x)[0] == x);
        assert(ms.push(x).drop_first() =~= Seq::<MetricPointV>::empty());
        assert(spec_arr_rest(Seq::<MetricPointV>::empty()) == Seq::<u8>::empty());
        assert(spec_arr_rest(ms.push(x)) =~= spec_arr_rest(ms) + seq![44u8] + spec_json_metric(
            x,
        ));
    } else {
        assert(ms.push(x).drop_first() =~= ms.drop_first().push(x));
        assert(ms.push(x)[0] == ms[0]);
        lemma_arr_rest_push(ms.drop_first(), x);
        assert(spec_arr_rest(ms.push(x)) =~= spec_arr_rest(ms) + seq![44u8] + spec_json_metric(
            x,
        ));
    }
}

#[verifier::rlimit(100)]
#[verifier::spinoff_prover]
proof fn lemma_arr_members_push(ms: Seq<MetricPointV>, x: MetricPointV)
    ensures
        ms.len() == 0 ==> spec_arr_members(ms.push(x)) == spec_json_metric(x),
        ms.len() > 0 ==> spec_arr_members(ms.push(x)) == spec_arr_members(ms) + seq![44u8]
            + spec_json_metric(x),
{
    if ms.len() == 0 {
        assert(ms.push(x)[0] == x);
        assert(ms.push(x).drop_first() =~= Seq::<MetricPointV>::empty());
        assert(spec_arr_rest(Seq::<MetricPointV>::empty()) == Seq::<u8>::empty());
        assert(spec_arr_members(ms.push(x)) =~= spec_json_metric(x));
    } else {
        assert(ms.push(x)[0] == ms[0]);
        assert(ms.push(x).drop_first() =~= ms.drop_first().push(x));
        lemma_arr_rest_push(ms.drop_first(), x);
        assert(spec_arr_members(ms.push(x)) =~= spec_arr_members(ms) + seq![44u8]
            + spec_json_metric(x));
    }
}

/// Encodes a sequence of metric points as a canonical JSON array.
pub fn encode_metrics_json(ms: &Vec<MetricPoint>) -> (r: Vec<u8>)
    ensures
        r@ == spec_json_array(metric_views(ms@)),
{
    let mut out: Vec<u8> = Vec::new();
    out.push(91);
    let ghost head = out@;
    let n = ms.len();
    let mut i: usize = 0;
    while i < n
        invariant
            n == ms@.len(),
            0 <= i <= n,
            head == seq![91u8],
            out@ == head + spec_arr_members(metric_views(ms@).take(i as int)),
        decreases n - i,
    {
        let ghost before = out@;
        if i > 0 {
            out.push(44);
        }
        let body = encode_metric_json(&ms[i]);
        push_bytes(&mut out, &body);
        proof {
            let mv = metric_views(ms@);
            let x = mv[i as int];
            assert(mv.take(i + 1) =~= mv.take(i as int).push(x));
            lemma_arr_members_push(mv.take(i as int), x);
            if i > 0 {
                assert(out@ =~= before + seq![44u8] + spec_json_metric(x));
                assert(out@ =~= head + spec_arr_members(mv.take(i + 1)));
            } else {
                assert(out@ =~= before + spec_json_metric(x));
                assert(out@ =~= head + spec_arr_members(mv.take(i + 1)));
            }
        }
        i += 1;
    }
    out.push(93);
    proof {
        let mv = metric_views(ms@);
        assert(mv.take(n as int) =~= mv);
        assert(out@ =~= spec_json_array(mv));
    }
    out
}

/// Scans array members separated by commas until the closing bracket.
pub open spec fn sp_scan_arr(s: Seq<u8>, pos: int, acc: Seq<MetricPointV>, fuel: nat) -> Option<
    (Seq<MetricPointV>, int),
>
    decreases fuel,
{
    if fuel == 0 {
        None
    } else {
        match sp_parse_metric(s, pos) {
            Some((m, p1)) => {
                let acc2 = acc.push(m);
                if p1 < s.len() && s[p1] == 44 {
                    sp_scan_arr(s, p1 + 1, acc2, (fuel - 1) as nat)
                } else if p1 < s.len() && s[p1] == 93 {
                    Some((acc2, p1 + 1))
                } else {
                    None
                }
            },
            None => None,
        }
    }
}

/// A JSON array of metric points at `pos`.
pub open spec fn sp_parse_array(s: Seq<u8>, pos: int, fuel: nat) -> Option<
    (Seq<MetricPointV>, int),
> {
    if 0 <= pos < s.len() && s[pos] == 91 {
        if pos + 1 < s.len() && s[pos + 1] == 93 {
            Some((Seq::empty(), pos + 2))
        } else {
            sp_scan_arr(s, pos + 1, Seq::empty(), fuel)
        }
    } else {
        None
    }
}

/// The whole-input decode of a metric array.
pub open spec fn sp_decode_array(s: Seq<u8>) -> Option<Seq<MetricPointV>> {
    match sp_parse_array(s, 0, s.len() as nat) {
        Some((ms, p)) => if p == s.len() {
            Some(ms)
        } else {
            None
        },
        None => None,
    }
}

proof fn lemma_arr_rest_len(ms: Seq<MetricPointV>)
    ensures
        spec_arr_rest(ms).len() >= ms.len(),
    decreases ms.len(),
{
    if ms.len() > 0 {
        lemma_arr_rest_len(ms.drop_first());
    }
}

#[verifier::rlimit(100)]
#[verifier::spinoff_prover]
proof fn lemma_scan_arr_rt(s: Seq<u8>, pos: int, acc: Seq<MetricPointV>, ms: Seq<MetricPointV>, fuel: nat)
    requires
        0 <= pos,
        ms.len() >= 1,
        fuel >= ms.len(),
        pos + spec_arr_members(ms).len() + 1 <= s.len(),
        s.subrange(pos, pos + spec_arr_members(ms).len() + 1) == spec_arr_members(ms) + seq![
            93u8,
        ],
    ensures
        sp_scan_arr(s, pos, acc, fuel) == Some((acc + ms, pos + spec_arr_members(ms).len() + 1)),
    decreases ms.len(),
{
    let m0 = ms[0];
    let rest = ms.drop_first();
    let body = spec_json_metric(m0);
    let members = spec_arr_members(ms);
    assert(members == body + spec_arr_rest(rest));
    let tail = spec_arr_rest(rest) + seq![93u8];
    assert(members + seq![93u8] =~= body + tail);
    lemma_prefix_split(s, pos, body, tail);
    lemma_parse_metric_rt(s, pos, m0);
    let p1 = pos + body.len();
    let acc2 = acc.push(m0);
    if rest.len() == 0 {
        assert(spec_arr_rest(rest) =~= Seq::<u8>::empty());
        assert(tail =~= seq![93u8]);
        lemma_match_at(s, p1, seq![93u8], 0);
        assert(s[p1] == 93);
        assert(acc2 =~= acc + ms);
    } else {
        assert(spec_arr_rest(rest) == seq![44u8] + spec_json_metric(rest[0]) + spec_arr_rest(
            rest.drop_first(),
        ));
        assert(spec_arr_members(rest) == spec_json_metric(rest[0]) + spec_arr_rest(
            rest.drop_first(),
        ));
        assert(tail =~= seq![44u8] + (spec_arr_members(rest) + seq![93u8]));
        lemma_prefix_split(s, p1, seq![44u8], spec_arr_members(rest) + seq![93u8]);
        lemma_match_at(s, p1, seq![44u8], 0);
        assert(s[p1] == 44);
        lemma_scan_arr_rt(s, p1 + 1, acc2, rest, (fuel - 1) as nat);
        assert(acc2 + rest =~= acc + ms);
    }
}

/// Decoding the canonical JSON array of any metric sequence yields the
/// sequence back.
pub proof fn lemma_json_array_round_trip(ms: Seq<MetricPointV>)
    ensures
        sp_decode_array(spec_json_array(ms)) == Some(ms),
{
    let s = spec_json_array(ms);
    let members = spec_arr_members(ms);
    assert(s.subrange(0, s.len() as int) =~= s);
    assert(s[0] == 91);
    if ms.len() == 0 {
        assert(members =~= Seq::<u8>::empty());
        assert(s[1] == 93);
        assert(s.len() == 2);
    } else {
        assert(s[1] == members[0]);
        assert(members[0] == spec_json_metric(ms[0])[0]);
        assert(spec_json_metric(ms[0])[0] == lit_obj_timestamp()[0]);
        assert(lit_obj_timestamp()[0] == 123);
        assert(s.subrange(1, s.len() as int) =~= members + seq![93u8]);
        lemma_arr_rest_len(ms.drop_first());
        lemma_scan_arr_rt(s, 1, Seq::empty(), ms, s.len() as nat);
        assert(Seq::<MetricPointV>::empty() + ms =~= ms);
    }
}

/// Decodes a whole JSON array of metric points; the strict mirror of
/// `sp_decode_array`.
pub fn decode_metrics_json(s: &Vec<u8>) -> (r: Option<Vec<MetricPoint>>)
    ensures
        match r {
            Some(ms) => sp_decode_array(s@) == Some(metric_views(ms@)),
            None => sp_decode_array(s@) is None,
        },
{
    if !(0 < s.len() && s[0] == 91) {
        return None;
    }
    if 1 < s.len() && s[1] == 93 {
        if s.len() == 2 {
            let empty_ms: Vec<MetricPoint> = Vec::new();
            proof {
                assert(metric_views(empty_ms@) =~= Seq::<MetricPointV>::empty());
            }
            return Some(empty_ms);
        } else {
            return None;
        }
    }
    let mut acc: Vec<MetricPoint> = Vec::new();
    let mut cur: usize = 1;
    let mut fuel: usize = s.len();
    proof {
        assert(metric_views(acc@) =~= Seq::<MetricPointV>::empty());
    }
    loop
        invariant
            cur <= s@.len(),
            sp_parse_array(s@, 0, s@.len() as nat) == sp_scan_arr(
                s@,
                cur as int,
                metric_views(acc@),
                fuel as nat,
            ),
        decreases fuel,
    {
        if fuel == 0 {
            return None;
        }
        let (m, p1) = match parse_metric(s, cur) {
            Some(x) => x,
            None => {
                return None;
            },
        };
        let ghost prev_views = metric_views(acc@);
        acc.push(m);
        proof {
            assert(metric_views(acc@) =~= prev_views.push(acc@[acc@.len() - 1]@));
        }
        if p1 < s.len() && s[p1] == 44 {
            cur = p1 + 1;
            fuel = fuel - 1;
        } else if p1 < s.len() && s[p1] == 93 {
            let p2 = p1 + 1;
            if p2 == s.len() {
                return Some(acc);
            } else {
                return None;
            }
        } else {
            return None;
        }
    }
}

// -------------------------------------------------------------- statistics
/// The bytes of `{"count":`.
pub open spec fn lit_obj_count() -> Seq<u8> {
    seq![123u8] + spec_json_string("count"@) + seq![58u8]
}

fn lit_obj_count_vec() -> (r: Vec<u8>)
    ensures
        r@ == lit_obj_count(),
{
    let mut v: Vec<u8> = Vec::new();
    v.push(123);
    push_json_string(&mut v, "count");
    v.push(58);
    proof {
        assert(v@ =~= lit_obj_count());
    }
    v
}

/// The bytes of `,"avg_cpu_centi_percent":`.
pub open spec fn lit_key_avg_cpu() -> Seq<u8> {
    seq![44u8] + spec_json_string("avg_cpu_centi_percent"@) + seq![58u8]
}

fn lit_key_avg_cpu_vec() -> (r: Vec<u8>)
    ensures
        r@ == lit_key_avg_cpu(),
{
    let mut v: Vec<u8> = Vec::new();
    v.push(44);
    push_json_string(&mut v, "avg_cpu_centi_percent");
    v.push(58);
    proof {
        assert(v@ =~= lit_key_avg_cpu());
    }
    v
}

/// The bytes of `,"avg_memory_bytes":`.
pub open spec fn lit_key_avg_memory() -> Seq<u8> {
    seq![44u8] + spec_json_string("avg_memory_bytes"@) + seq![58u8]
}

fn lit_key_avg_memory_vec() -> (r: Vec<u8>)
    ensures
        r@ == lit_key_avg_memory(),
{
    let mut v: Vec<u8> = Vec::new();
    v.push(44);
    push_json_string(&mut v, "avg_memory_bytes");
    v.push(58);
    proof {
        assert(v@ =~= lit_key_avg_memory());
    }
    v
}

/// The bytes of `,"avg_disk_io_centi_ops":`.
pub open spec fn lit_key_avg_disk() -> Seq<u8> {
    seq![44u8] + spec_json_string("avg_disk_io_centi_ops"@) + seq![58u8]
}

fn lit_key_avg_disk_vec() -> (r: Vec<u8>)
    ensures
        r@ == lit_key_avg_disk(),
{
    let mut v: Vec<u8> = Vec::new();
    v.push(44);
    push_json_string(&mut v, "avg_disk_io_centi_ops");
    v.push(58);
    proof {
        assert(v@ =~= lit_key_avg_disk());
    }
    v
}

/// The bytes of `,"time_range_seconds":`.
pub open spec fn lit_key_range() -> Seq<u8> {
    seq![44u8] + spec_json_string("time_range_seconds"@) + seq![58u8]
}

fn lit_key_range_vec() -> (r: Vec<u8>)
    ensures
        r@ == lit_key_range(),
{
    let mut v: Vec<u8> = Vec::new();
    v.push(44);
    push_json_string(&mut v, "time_range_seconds");
    v.push(58);
    proof {
        assert(v@ =~= lit_key_range());
    }
    v
}

/// The canonical JSON body of a statistics value.
pub open spec fn spec_json_stats(st: MetricStatistics) -> Seq<u8> {
    lit_obj_count() + spec_dec_u64(st.count as int) + lit_key_avg_cpu() + spec_dec_u64(
        st.avg_cpu_centi_percent as int,
    ) + lit_key_avg_memory() + spec_dec_u64(st.avg_memory_bytes as int) + lit_key_avg_disk()
        + spec_dec_u64(st.avg_disk_io_centi_ops as int) + lit_key_range() + spec_dec_i64(
        st.time_range_seconds as int,
    ) + seq![125u8]
}

/// Encodes a statistics value as its canonical JSON body.
pub fn encode_stats_json(st: &MetricStatistics) -> (r: Vec<u8>)
    ensures
        r@ == spec_json_stats(*st),
{
    let mut out: Vec<u8> = Vec::new();
    let lit = lit_obj_count_vec();
    push_bytes(&mut out, &lit);
    push_dec_u64(&mut out, st.count);
    let lit = lit_key_avg_cpu_vec();
    push_bytes(&mut out, &lit);
    push_dec_u64(&mut out, st.avg_cpu_centi_percent as u64);
    let lit = lit_key_avg_memory_vec();
    push_bytes(&mut out, &lit);
    push_dec_u64(&mut out, st.avg_memory_bytes);
    let lit = lit_key_avg_disk_vec();
    push_bytes(&mut out, &lit);
    push_dec_u64(&mut out, st.avg_disk_io_centi_ops);
    let lit = lit_key_range_vec();
    push_bytes(&mut out, &lit);
    push_dec_i64(&mut out, st.time_range_seconds);
    out.push(125);
    proof {
        assert(out@ =~= spec_json_stats(*st));
    }
    out
}

/// A statistics body at `pos`; the strict mirror of `spec_json_stats`.
pub open spec fn sp_parse_stats(s: Seq<u8>, pos: int) -> Option<(MetricStatistics, int)> {
    match sp_expect(s, pos, lit_obj_count()) {
        Some(p1) => match sp_parse_u64(s, p1) {
            Some((count, p2)) => match sp_expect(s, p2, lit_key_avg_cpu()) {
                Some(p3) => match sp_parse_u64(s, p3) {
                    Some((cpu, p4)) => if cpu <= u32::MAX as u64 {
                        match sp_expect(s, p4, lit_key_avg_memory()) {
                            Some(p5) => match sp_parse_u64(s, p5) {
                                Some((mem, p6)) => match sp_expect(s, p6, lit_key_avg_disk()) {
                                    Some(p7) => match sp_parse_u64(s, p7) {
                                        Some((disk, p8)) => match sp_expect(
                                            s,
                                            p8,
                                            lit_key_range(),
                                        ) {
                                            Some(p9) => match sp_parse_i64(s, p9) {
                                                Some((range, p10)) => match sp_expect(
                                                    s,
                                                    p10,
                                                    seq![125u8],
                                                ) {
                                                    Some(p11) => Some(
                                                        (
                                                            MetricStatistics {
                                                                count,
                                                                avg_cpu_centi_percent: cpu as u32,
                                                                avg_memory_bytes: mem,
                                                                avg_disk_io_centi_ops: disk,
                                                                time_range_seconds: range,
                                                            },
                                                            p11,
                                                        ),
                                                    ),
                                                    None => None,
                                                },
                                                None => None,
                                            },
                                            None => None,
                                        },
                                        None => None,
                                    },
                                    None => None,
                                },
                                None => None,
                            },
                            None => None,
                        }
                    } else {
                        None
                    },
                    None => None,
                },
                None => None,
            },
            None => None,
        },
        None => None,
    }
}

/// The whole-input decode of a statistics body.
pub open spec fn sp_decode_stats(s: Seq<u8>) -> Option<MetricStatistics> {
    match sp_parse_stats(s, 0) {
        Some((st, p)) => if p == s.len() {
            Some(st)
        } else {
            None
        },
        None => None,
    }
}

/// Parsing the canonical JSON body of `st`, wherever it stands, yields
/// `st` and the position after it.
#[verifier::rlimit(100)]
#[verifier::spinoff_prover]
proof fn lemma_parse_stats_rt(s: Seq<u8>, pos: int, st: MetricStatistics)
    requires
        0 <= pos,
        pos + spec_json_stats(st).len() <= s.len(),
        s.subrange(pos, pos + spec_json_stats(st).len()) == spec_json_stats(st),
    ensures
        sp_parse_stats(s, pos) == Some((st, pos + spec_json_stats(st).len())),
{
    let pc0 = lit_obj_count();
    let pc1 = spec_dec_u64(st.count as int);
    let pc2 = lit_key_avg_cpu();
    let pc3 = spec_dec_u64(st.avg_cpu_centi_percent as int);
    let pc4 = lit_key_avg_memory();
    let pc5 = spec_dec_u64(st.avg_memory_bytes as int);
    let pc6 = lit_key_avg_disk();
    let pc7 = spec_dec_u64(st.avg_disk_io_centi_ops as int);
    let pc8 = lit_key_range();
    let pc9 = spec_dec_i64(st.time_range_seconds as int);
    let pc10 = seq![125u8];
    let r10 = pc10;
    let r9 = pc9 + r10;
    let r8 = pc8 + r9;
    let r7 = pc7 + r8;
    let r6 = pc6 + r7;
    let r5 = pc5 + r6;
    let r4 = pc4 + r5;
    let r3 = pc3 + r4;
    let r2 = pc2 + r3;
    let r1 = pc1 + r2;
    let r0 = pc0 + r1;
    assert(spec_json_stats(st) =~= r0);
    lemma_prefix_split(s, pos, pc0, r1);
    let p1 = pos + pc0.len();
    lemma_prefix_split(s, p1, pc1, r2);
    let p2 = p1 + pc1.len();
    lemma_prefix_split(s, p2, pc2, r3);
    let p3 = p2 + pc2.len();
    lemma_prefix_split(s, p3, pc3, r4);
    let p4 = p3 + pc3.len();
    lemma_prefix_split(s, p4, pc4, r5);
    let p5 = p4 + pc4.len();
    lemma_prefix_split(s, p5, pc5, r6);
    let p6 = p5 + pc5.len();
    lemma_prefix_split(s, p6, pc6, r7);
    let p7 = p6 + pc6.len();
    lemma_prefix_split(s, p7, pc7, r8);
    let p8 = p7 + pc7.len();
    lemma_prefix_split(s, p8, pc8, r9);
    let p9 = p8 + pc8.len();
    lemma_prefix_split(s, p9, pc9, r10);
    let p10 = p9 + pc9.len();
    lemma_match_at(s, p2, pc2, 0);
    assert(pc2[0] == 44);
    lemma_parse_dec_u64(s, p1, st.count);
    lemma_match_at(s, p4, pc4, 0);
    assert(pc4[0] == 44);
    lemma_parse_dec_u64(s, p3, st.avg_cpu_centi_percent as u64);
    lemma_match_at(s, p6, pc6, 0);
    assert(pc6[0] == 44);
    lemma_parse_dec_u64(s, p5, st.avg_memory_bytes);
    lemma_match_at(s, p8, pc8, 0);
    assert(pc8[0] == 44);
    lemma_parse_dec_u64(s, p7, st.avg_disk_io_centi_ops);
    lemma_match_at(s, p10, pc10, 0);
    assert(pc10[0] == 125);
    lemma_parse_dec_i64(s, p9, st.time_range_seconds);
    assert(s.subrange(p10, p10 + 1) == seq![125u8]);
    let parsed = MetricStatistics {
        count: st.count,
        avg_cpu_centi_percent: ((st.avg_cpu_centi_percent as u64) as u32),
        avg_memory_bytes: st.avg_memory_bytes,
        avg_disk_io_centi_ops: st.avg_disk_io_centi_ops,
        time_range_seconds: st.time_range_seconds,
    };
    assert(parsed == st);
    assert(sp_parse_stats(s, pos) == Some((st, p10 + 1)));
}

/// Decoding the canonical JSON body of any statistics value yields the
/// value back.
pub proof fn lemma_json_stats_round_trip(st: MetricStatistics)
    ensures
        sp_decode_stats(spec_json_stats(st)) == Some(st),
{
    let s = spec_json_stats(st);
    assert(s.subrange(0, s.len() as int) =~= s);
    lemma_parse_stats_rt(s, 0, st);
}

/// Decodes a whole statistics body; the strict mirror of
/// `sp_decode_stats`.
pub fn decode_stats_json(s: &Vec<u8>) -> (r: Option<MetricStatistics>)
    ensures
        match r {
            Some(st) => sp_decode_stats(s@) == Some(st),
            None => sp_decode_stats(s@) is None,
        },
{
    let lit = lit_obj_count_vec();
    let p1 = match expect_bytes(s, 0, &lit) {
        Some(p) => p,
        None => {
            return None;
        },
    };
    let (count, p2) = match parse_u64(s, p1) {
        Some(x) => x,
        None => {
            return None;
        },
    };
    let lit = lit_key_avg_cpu_vec();
    let p3 = match expect_bytes(s, p2, &lit) {
        Some(p) => p,
        None => {
            return None;
        },
    };
    let (cpu64, p4) = match parse_u64(s, p3) {
        Some(x) => x,
        None => {
            return None;
        },
    };
    if cpu64 > u32::MAX as u64 {
        return None;
    }
    let lit = lit_key_avg_memory_vec();
    let p5 = match expect_bytes(s, p4, &lit) {
        Some(p) => p,
        None => {
            return None;
        },
    };
    let (mem, p6) = match parse_u64(s, p5) {
        Some(x) => x,
        None => {
            return None;
        },
    };
    let lit = lit_key_avg_disk_vec();
    let p7 = match expect_bytes(s, p6, &lit) {
        Some(p) => p,
        None => {
            return None;
        },
    };
    let (disk, p8) = match parse_u64(s, p7) {
        Some(x) => x,
        None => {
            return None;
        },
    };
    let lit = lit_key_range_vec();
    let p9 = match expect_bytes(s, p8, &lit) {
        Some(p) => p,
        None => {
            return None;
        },
    };
    let (range, p10) = match parse_i64(s, p9) {
        Some(x) => x,
        None => {
            return None;
        },
    };
    if !(p10 < s.len() && s[p10] == 125) {
        proof {
            assert(sp_expect(s@, p10 as int, seq![125u8]) is None) by {
                if p10 + 1 <= s@.len() {
                    assert(s@.subrange(p10 as int, p10 + 1) =~= seq![s@[p10 as int]]);
                    assert(seq![s@[p10 as int]][0] == s@[p10 as int]);
                    assert(seq![125u8][0] == 125u8);
                }
            }
        }
        return None;
    }
    proof {
        assert(s@.subrange(p10 as int, p10 + 1) =~= seq![s@[p10 as int]]);
        assert(sp_expect(s@, p10 as int, seq![125u8]) == Some(p10 + 1 as int));
    }
    if p10 + 1 != s.len() {
        return None;
    }
    Some(
        MetricStatistics {
            count,
            avg_cpu_centi_percent: cpu64 as u32,
            avg_memory_bytes: mem,
            avg_disk_io_centi_ops: disk,
            time_range_seconds: range,
        },
    )
}


// ------------------------------------------------------------ query string
/// The bytes of `start_time=`.
pub open spec fn lit_q_start() -> Seq<u8> {
    vstd::utf8::encode_utf8("start_time="@)
}

fn lit_q_start_vec() -> (r: Vec<u8>)
    ensures
        r@ == lit_q_start(),
{
    "start_time=".as_bytes_vec()
}

/// The bytes of `&end_time=`.
pub open spec fn lit_q_end() -> Seq<u8> {
    seq![38u8] + vstd::utf8::encode_utf8("end_time="@)
}

fn lit_q_end_vec() -> (r: Vec<u8>)
    ensures
        r@ == lit_q_end(),
{
    let mut v: Vec<u8> = Vec::new();
    v.push(38);
    let w = "end_time=".as_bytes_vec();
    push_bytes(&mut v, &w);
    proof {
        assert(v@ =~= lit_q_end());
    }
    v
}

/// The bytes of `&hostname_filter=`.
pub open spec fn lit_q_host() -> Seq<u8> {
    seq![38u8] + vstd::utf8::encode_utf8("hostname_filter="@)
}

fn lit_q_host_vec() -> (r: Vec<u8>)
    ensures
        r@ == lit_q_host(),
{
    let mut v: Vec<u8> = Vec::new();
    v.push(38);
    let w = "hostname_filter=".as_bytes_vec();
    push_bytes(&mut v, &w);
    proof {
        assert(v@ =~= lit_q_host());
    }
    v
}

/// The query-string form of a query: the two bounds, and the filter's
/// hostname as the trailing value when one is present.
pub open spec fn spec_query_qs(q: MetricQueryV) -> Seq<u8> {
    lit_q_start() + spec_dec_i64(q.start_time as int) + lit_q_end() + spec_dec_i64(
        q.end_time as int,
    ) + match q.hostname_filter {
        Some(h) => lit_q_host() + vstd::utf8::encode_utf8(h),
        None => Seq::empty(),
    }
}

/// Encodes a query as its query-string form.
pub fn encode_query_qs(q: &MetricQuery) -> (r: Vec<u8>)
    ensures
        r@ == spec_query_qs(q@),
{
    let mut out: Vec<u8> = Vec::new();
    let lit = lit_q_start_vec();
    push_bytes(&mut out, &lit);
    push_dec_i64(&mut out, q.start_time);
    let lit = lit_q_end_vec();
    push_bytes(&mut out, &lit);
    push_dec_i64(&mut out, q.end_time);
    match &q.hostname_filter {
        Some(h) => {
            let lit = lit_q_host_vec();
            push_bytes(&mut out, &lit);
            let hb = h.as_str().as_bytes_vec();
            push_bytes(&mut out, &hb);
        },
        None => {},
    }
    proof {
        assert(out@ =~= spec_query_qs(q@));
    }
    out
}

/// The whole-input decode of a query string; the strict mirror of
/// `spec_query_qs`.
pub open spec fn sp_decode_query(s: Seq<u8>) -> Option<MetricQueryV> {
    match sp_expect(s, 0, lit_q_start()) {
        Some(p1) => match sp_parse_i64(s, p1) {
            Some((start, p2)) => match sp_expect(s, p2, lit_q_end()) {
                Some(p3) => match sp_parse_i64(s, p3) {
                    Some((end, p4)) => if p4 == s.len() {
                        Some(MetricQueryV { start_time: start, end_time: end, hostname_filter: None })
                    } else {
                        match sp_expect(s, p4, lit_q_host()) {
                            Some(p5) => {
                                let hb = s.subrange(p5, s.len() as int);
                                if vstd::utf8::valid_utf8(hb) {
                                    Some(
                                        MetricQueryV {
                                            start_time: start,
                                            end_time: end,
                                            hostname_filter: Some(vstd::utf8::decode_utf8(hb)),
                                        },
                                    )
                                } else {
                                    None
                                }
                            },
                            None => None,
                        }
                    },
                    None => None,
                },
                None => None,
            },
            None => None,
        },
        None => None,
    }
}

/// Decodes a whole query string; the strict mirror of `sp_decode_query`.
pub fn decode_query_qs(s: &Vec<u8>) -> (r: Option<MetricQuery>)
    ensures
        match r {
            Some(q) => sp_decode_query(s@) == Some(q@),
            None => sp_decode_query(s@) is None,
        },
{
    let lit = lit_q_start_vec();
    let p1 = match expect_bytes(s, 0, &lit) {
        Some(p) => p,
        None => {
            return None;
        },
    };
    let (start, p2) = match parse_i64(s, p1) {
        Some(x) => x,
        None => {
            return None;
        },
    };
    let lit = lit_q_end_vec();
    let p3 = match expect_bytes(s, p2, &lit) {
        Some(p) => p,
        None => {
            return None;
        },
    };
    let (end, p4) = match parse_i64(s, p3) {
        Some(x) => x,
        None => {
            return None;
        },
    };
    if p4 == s.len() {
        return Some(MetricQuery { start_time: start, end_time: end, hostname_filter: None });
    }
    let lit = lit_q_host_vec();
    let p5 = match expect_bytes(s, p4, &lit) {
        Some(p) => p,
        None => {
            return None;
        },
    };
    let (hb, _p6) = match crate::wire::read_bytes(s, p5, s.len() - p5) {
        Some(x) => x,
        None => {
            return None;
        },
    };
    match string_from_utf8(hb) {
        Some(host) => Some(
            MetricQuery { start_time: start, end_time: end, hostname_filter: Some(host) },
        ),
        None => None,
    }
}

#[verifier::rlimit(100)]
#[verifier::spinoff_prover]
proof fn lemma_query_rt_none(q: MetricQueryV)
    requires
        q.hostname_filter is None,
    ensures
        sp_decode_query(spec_query_qs(q)) == Some(q),
{
    let s = spec_query_qs(q);
    assert(s.subrange(0, s.len() as int) =~= s);
    let pc0 = lit_q_start();
    let pc1 = spec_dec_i64(q.start_time as int);
    let pc2 = lit_q_end();
    let pc3 = spec_dec_i64(q.end_time as int);
    let r3 = pc3;
    let r2 = pc2 + r3;
    let r1 = pc1 + r2;
    let r0 = pc0 + r1;
    assert(s =~= r0);
    lemma_prefix_split(s, 0, pc0, r1);
    let p1 = pc0.len() as int;
    lemma_prefix_split(s, p1, pc1, r2);
    let p2 = p1 + pc1.len();
    lemma_prefix_split(s, p2, pc2, r3);
    let p3 = p2 + pc2.len();
    lemma_match_at(s, p2, pc2, 0);
    assert(pc2[0] == 38);
    lemma_parse_dec_i64(s, p1, q.start_time);
    lemma_parse_dec_i64(s, p3, q.end_time);
}

#[verifier::rlimit(100)]
#[verifier::spinoff_prover]
proof fn lemma_query_rt_some(q: MetricQueryV)
    requires
        q.hostname_filter is Some,
    ensures
        sp_decode_query(spec_query_qs(q)) == Some(q),
{
    let s = spec_query_qs(q);
    assert(s.subrange(0, s.len() as int) =~= s);
    let h = q.hostname_filter->0;
    let pc0 = lit_q_start();
    let pc1 = spec_dec_i64(q.start_time as int);
    let pc2 = lit_q_end();
    let pc3 = spec_dec_i64(q.end_time as int);
    let pc4 = lit_q_host();
    let pc5 = vstd::utf8::encode_utf8(h);
    let r5 = pc5;
    let r4 = pc4 + r5;
    let r3 = pc3 + r4;
    let r2 = pc2 + r3;
    let r1 = pc1 + r2;
    let r0 = pc0 + r1;
    assert(s =~= r0);
    lemma_prefix_split(s, 0, pc0, r1);
    let p1 = pc0.len() as int;
    lemma_prefix_split(s, p1, pc1, r2);
    let p2 = p1 + pc1.len();
    lemma_prefix_split(s, p2, pc2, r3);
    let p3 = p2 + pc2.len();
    lemma_prefix_split(s, p3, pc3, r4);
    let p4 = p3 + pc3.len();
    lemma_prefix_split(s, p4, pc4, r5);
    let p5 = p4 + pc4.len();
    lemma_match_at(s, p2, pc2, 0);
    assert(pc2[0] == 38);
    lemma_parse_dec_i64(s, p1, q.start_time);
    lemma_match_at(s, p4, pc4, 0);
    assert(pc4[0] == 38);
    lemma_parse_dec_i64(s, p3, q.end_time);
    assert(p5 + pc5.len() == s.len());
    assert(s.subrange(p5, s.len() as int) == pc5);
    vstd::utf8::encode_utf8_valid_utf8(h);
    vstd::utf8::encode_utf8_decode_utf8(h);
    assert(p4 < s.len());
}

/// Decoding the query-string form of any query yields the query back.
pub proof fn lemma_query_round_trip(q: MetricQueryV)
    ensures
        sp_decode_query(spec_query_qs(q)) == Some(q),
{
    match q.hostname_filter {
        None => lemma_query_rt_none(q),
        Some(h) => lemma_query_rt_some(q),
    }
}

} // verus!
