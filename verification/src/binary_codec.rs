//! The binary RPC adapter's wire format: schema-style messages whose fields
//! carry one tag byte each, in a fixed order, with fixed-width little-endian
//! integers and length-prefixed UTF-8 strings. A query result streams as
//! self-delimiting metric messages back to back, ended by the stream's end.
//!
//! Encoding fails exactly when a string or the tag list is too long for its
//! 32-bit length field; decoding is the strict mirror of encoding, and the
//! round-trip lemmas state that decoding undoes encoding for every
//! encodable value.

use vstd::prelude::*;

use crate::model::{
    metric_views, tag_views, MetricPoint, MetricPointV, MetricQuery, MetricQueryV,
    MetricStatistics, Tag,
};
use crate::wire::{
    expect_bytes, lemma_i64_bits, lemma_le_lens, lemma_match_at, lemma_prefix_split,
    lemma_read_u32le_rt, lemma_read_u64le_rt, push_bytes, push_u32le, push_u64le, read_bytes,
    read_u32le, read_u64le, sp_expect, sp_read_bytes, sp_read_u32le, sp_read_u64le,
    string_from_utf8,
};

verus! {

/// The UTF-8 bytes of one string field.
pub open spec fn utf8(s: Seq<char>) -> Seq<u8> {
    vstd::utf8::encode_utf8(s)
}

/// Whether one tag fits its length fields.
pub open spec fn bin_tag_fits(t: (Seq<char>, Seq<char>)) -> bool {
    utf8(t.0).len() <= u32::MAX && utf8(t.1).len() <= u32::MAX
}

/// Whether a metric fits the binary message's length fields.
pub open spec fn bin_metric_encodable(m: MetricPointV) -> bool {
    &&& utf8(m.hostname).len() <= u32::MAX
    &&& m.tags.len() <= u32::MAX
    &&& forall|i: int| 0 <= i < m.tags.len() ==> bin_tag_fits(#[trigger] m.tags[i])
}

/// One encoded tag: two length-prefixed strings.
pub open spec fn spec_bin_tag(t: (Seq<char>, Seq<char>)) -> Seq<u8> {
    vstd::bytes::spec_u32_to_le_bytes(utf8(t.0).len() as u32) + utf8(t.0)
        + vstd::bytes::spec_u32_to_le_bytes(utf8(t.1).len() as u32) + utf8(t.1)
}

/// The encoded tag list, in order.
pub open spec fn spec_bin_tags(ts: Seq<(Seq<char>, Seq<char>)>) -> Seq<u8>
    decreases ts.len(),
{
    if ts.len() == 0 {
        Seq::empty()
    } else {
        spec_bin_tag(ts[0]) + spec_bin_tags(ts.drop_first())
    }
}

proof fn lemma_bin_tags_push(ts: Seq<(Seq<char>, Seq<char>)>, x: (Seq<char>, Seq<char>))
    ensures
        spec_bin_tags(ts.push(x)) == spec_bin_tags(ts) + spec_bin_tag(x),
    decreases ts.len(),
{
    if ts.len() == 0 {
        assert(ts.push(x)[0] == x);
        assert(ts.push(x).drop_first() =~= Seq::<(Seq<char>, Seq<char>)>::empty());
        assert(spec_bin_tags(Seq::<(Seq<char>, Seq<char>)>::empty()) == Seq::<u8>::empty());
        assert(spec_bin_tags(ts.push(x)) =~= spec_bin_tags(ts) + spec_bin_tag(x));
    } else {
        assert(ts.push(x).drop_first() =~= ts.drop_first().push(x));
        assert(ts.push(x)[0] == ts[0]);
        lemma_bin_tags_push(ts.drop_first(), x);
        assert(spec_bin_tags(ts.push(x)) =~= spec_bin_tags(ts) + spec_bin_tag(x));
    }
}

/// The binary message for one metric point.
pub open spec fn spec_bin_metric(m: MetricPointV) -> Seq<u8> {
    seq![1u8] + vstd::bytes::spec_u64_to_le_bytes(m.timestamp as u64) + seq![2u8]
        + vstd::bytes::spec_u32_to_le_bytes(utf8(m.hostname).len() as u32) + utf8(m.hostname)
        + seq![3u8] + vstd::bytes::spec_u32_to_le_bytes(m.cpu_centi_percent) + seq![4u8]
        + vstd::bytes::spec_u64_to_le_bytes(m.memory_bytes) + seq![5u8]
        + vstd::bytes::spec_u32_to_le_bytes(m.disk_io_ops) + seq![6u8]
        + vstd::bytes::spec_u32_to_le_bytes(m.tags.len() as u32) + spec_bin_tags(m.tags)
}

fn one_byte(b: u8) -> (r: Vec<u8>)
    ensures
        r@ == seq![b],
{
    let mut v: Vec<u8> = Vec::new();
    v.push(b);
    proof {
        assert(v@ =~= seq![b]);
    }
    v
}

/// Encodes one metric point as its binary message; fails exactly when a
/// length field would overflow.
pub fn encode_metric_bin(m: &MetricPoint) -> (r: Option<Vec<u8>>)
    ensures
        r is Some <==> bin_metric_encodable(m@),
        r matches Some(v) ==> v@ == spec_bin_metric(m@),
{
    let hb = m.hostname.as_str().as_bytes_vec();
    if hb.len() > 0xffff_ffff {
        proof {
            assert(!bin_metric_encodable(m@));
        }
        return None;
    }
    if m.tags.len() > 0xffff_ffff {
        proof {
            assert(m@.tags.len() == m.tags@.len());
            assert(!bin_metric_encodable(m@));
        }
        return None;
    }
    let mut out: Vec<u8> = Vec::new();
    out.push(1);
    push_u64le(&mut out, m.timestamp as u64);
    out.push(2);
    push_u32le(&mut out, hb.len() as u32);
    push_bytes(&mut out, &hb);
    out.push(3);
    push_u32le(&mut out, m.cpu_centi_percent);
    out.push(4);
    push_u64le(&mut out, m.memory_bytes);
    out.push(5);
    push_u32le(&mut out, m.disk_io_ops);
    out.push(6);
    push_u32le(&mut out, m.tags.len() as u32);
    let ghost head = out@;
    let n = m.tags.len();
    let mut i: usize = 0;
    while i < n
        invariant
            n == m.tags@.len(),
            0 <= i <= n,
            out@ == head + spec_bin_tags(tag_views(m.tags@).take(i as int)),
            forall|j: int| 0 <= j < i ==> bin_tag_fits(#[trigger] tag_views(m.tags@)[j]),
        decreases n - i,
    {
        let ghost before = out@;
        let kb = m.tags[i].key.as_str().as_bytes_vec();
        if kb.len() > 0xffff_ffff {
            proof {
                assert(!bin_tag_fits(tag_views(m.tags@)[i as int]));
                assert(!bin_metric_encodable(m@));
            }
            return None;
        }
        let vb = m.tags[i].value.as_str().as_bytes_vec();
        if vb.len() > 0xffff_ffff {
            proof {
                assert(!bin_tag_fits(tag_views(m.tags@)[i as int]));
                assert(!bin_metric_encodable(m@));
            }
            return None;
        }
        push_u32le(&mut out, kb.len() as u32);
        push_bytes(&mut out, &kb);
        push_u32le(&mut out, vb.len() as u32);
        push_bytes(&mut out, &vb);
        proof {
            let tv = tag_views(m.tags@);
            let x = tv[i as int];
            assert(out@ =~= before + spec_bin_tag(x));
            assert(tv.take(i + 1) =~= tv.take(i as int).push(x));
            lemma_bin_tags_push(tv.take(i as int), x);
            assert(out@ =~= head + spec_bin_tags(tv.take(i + 1)));
        }
        i += 1;
    }
    proof {
        let tv = tag_views(m.tags@);
        assert(tv.take(n as int) =~= tv);
        assert(out@ =~= spec_bin_metric(m@));
        assert(bin_metric_encodable(m@));
    }
    Some(out)
}

/// Scans `n` encoded tags from `pos`.
pub open spec fn sp_scan_bin_tags(
    s: Seq<u8>,
    pos: int,
    acc: Seq<(Seq<char>, Seq<char>)>,
    n: nat,
) -> Option<(Seq<(Seq<char>, Seq<char>)>, int)>
    decreases n,
{
    if n == 0 {
        Some((acc, pos))
    } else {
        match sp_read_u32le(s, pos) {
            Some((klen, p1)) => match sp_read_bytes(s, p1, klen as int) {
                Some((kb, p2)) => if vstd::utf8::valid_utf8(kb) {
                    match sp_read_u32le(s, p2) {
                        Some((vlen, p3)) => match sp_read_bytes(s, p3, vlen as int) {
                            Some((vb, p4)) => if vstd::utf8::valid_utf8(vb) {
                                sp_scan_bin_tags(
                                    s,
                                    p4,
                                    acc.push(
                                        (vstd::utf8::decode_utf8(kb), vstd::utf8::decode_utf8(vb)),
                                    ),
                                    (n - 1) as nat,
                                )
                            } else {
                                None
                            },
                            None => None,
                        },
                        None => None,
                    }
                } else {
                    None
                },
                None => None,
            },
            None => None,
        }
    }
}

/// One binary metric message at `pos`; the strict mirror of
/// `spec_bin_metric`.
pub open spec fn sp_parse_bin_metric(s: Seq<u8>, pos: int) -> Option<(MetricPointV, int)> {
    match sp_expect(s, pos, seq![1u8]) {
        Some(p1) => match sp_read_u64le(s, p1) {
            Some((ts_bits, p2)) => match sp_expect(s, p2, seq![2u8]) {
                Some(p3) => match sp_read_u32le(s, p3) {
                    Some((hlen, p4)) => match sp_read_bytes(s, p4, hlen as int) {
                        Some((hb, p5)) => if vstd::utf8::valid_utf8(hb) {
                            match sp_expect(s, p5, seq![3u8]) {
                                Some(p6) => match sp_read_u32le(s, p6) {
                                    Some((cpu, p7)) => match sp_expect(s, p7, seq![4u8]) {
                                        Some(p8) => match sp_read_u64le(s, p8) {
                                            Some((mem, p9)) => match sp_expect(s, p9, seq![5u8]) {
                                                Some(p10) => match sp_read_u32le(s, p10) {
                                                    Some((disk, p11)) => match sp_expect(
                                                        s,
                                                        p11,
                                                        seq![6u8],
                                                    ) {
                                                        Some(p12) => match sp_read_u32le(s, p12) {
                                                            Some((cnt, p13)) => match sp_scan_bin_tags(
                                                                s,
                                                                p13,
                                                                Seq::empty(),
                                                                cnt as nat,
                                                            ) {
                                                                Some((ts2, p14)) => Some(
                                                                    (
                                                                        MetricPointV {
                                                                            timestamp: #[verifier::truncate] (ts_bits as i64),
                                                                            hostname: vstd::utf8::decode_utf8(
                                                                                hb,
                                                                            ),
                                                                            cpu_centi_percent: cpu,
                                                                            memory_bytes: mem,
                                                                            disk_io_ops: disk,
                                                                            tags: ts2,
                                                                        },
                                                                        p14,
                                                                    ),
                                                                ),
                                                                None => None,
                                                            },
                                                            None => None,
                                                        },
                                                        None => None,
                                                    },
                                                    None => None,
                                                },
                                                None => None,
                                            },
                                            None => None,
                                        },
                                        None => None,
                                    },
                                    None => None,
                                },
                                None => None,
                            }
                        } else {
                            None
                        },
                        None => None,
                    },
                    None => None,
                },
                None => None,
            },
            None => None,
        },
        None => None,
    }
}

/// The whole-input decode of one binary metric message.
pub open spec fn sp_decode_bin_metric(s: Seq<u8>) -> Option<MetricPointV> {
    match sp_parse_bin_metric(s, 0) {
        Some((m, p)) => if p == s.len() {
            Some(m)
        } else {
            None
        },
        None => None,
    }
}

/// Where each piece of the binary metric message stands, given the whole
/// message stands at `pos`.
#[verifier::rlimit(100)]
#[verifier::spinoff_prover]
proof fn lemma_bin_metric_layout(s: Seq<u8>, pos: int, m: MetricPointV)
    requires
        0 <= pos,
        pos + spec_bin_metric(m).len() <= s.len(),
        s.subrange(pos, pos + spec_bin_metric(m).len()) == spec_bin_metric(m),
    ensures
        ({
            let pc1 = vstd::bytes::spec_u64_to_le_bytes(m.timestamp as u64);
            let pc3 = vstd::bytes::spec_u32_to_le_bytes(utf8(m.hostname).len() as u32);
            let pc4 = utf8(m.hostname);
            let pc6 = vstd::bytes::spec_u32_to_le_bytes(m.cpu_centi_percent);
            let pc8 = vstd::bytes::spec_u64_to_le_bytes(m.memory_bytes);
            let pc10 = vstd::bytes::spec_u32_to_le_bytes(m.disk_io_ops);
            let pc12 = vstd::bytes::spec_u32_to_le_bytes(m.tags.len() as u32);
            let pc13 = spec_bin_tags(m.tags);
            let p1 = pos + 1;
            let p2 = p1 + pc1.len();
            let p3 = p2 + 1;
            let p4 = p3 + pc3.len();
            let p5 = p4 + pc4.len();
            let p6 = p5 + 1;
            let p7 = p6 + pc6.len();
            let p8 = p7 + 1;
            let p9 = p8 + pc8.len();
            let p10 = p9 + 1;
            let p11 = p10 + pc10.len();
            let p12 = p11 + 1;
            let p13 = p12 + pc12.len();
            let p14 = p13 + pc13.len();
            &&& s.subrange(pos, p1) == seq![1u8]
            &&& s.subrange(p1, p2) == pc1
            &&& s.subrange(p2, p3) == seq![2u8]
            &&& s.subrange(p3, p4) == pc3
            &&& s.subrange(p4, p5) == pc4
            &&& s.subrange(p5, p6) == seq![3u8]
            &&& s.subrange(p6, p7) == pc6
            &&& s.subrange(p7, p8) == seq![4u8]
            &&& s.subrange(p8, p9) == pc8
            &&& s.subrange(p9, p10) == seq![5u8]
            &&& s.subrange(p10, p11) == pc10
            &&& s.subrange(p11, p12) == seq![6u8]
            &&& s.subrange(p12, p13) == pc12
            &&& s.subrange(p13, p14) == pc13
            &&& p14 == pos + spec_bin_metric(m).len()
        }),
{
    let pc1 = vstd::bytes::spec_u64_to_le_bytes(m.timestamp as u64);
    let pc3 = vstd::bytes::spec_u32_to_le_bytes(utf8(m.hostname).len() as u32);
    let pc4 = utf8(m.hostname);
    let pc6 = vstd::bytes::spec_u32_to_le_bytes(m.cpu_centi_percent);
    let pc8 = vstd::bytes::spec_u64_to_le_bytes(m.memory_bytes);
    let pc10 = vstd::bytes::spec_u32_to_le_bytes(m.disk_io_ops);
    let pc12 = vstd::bytes::spec_u32_to_le_bytes(m.tags.len() as u32);
    let pc13 = spec_bin_tags(m.tags);
    let r13 = pc13;
    let r12 = pc12 + r13;
    let r11 = seq![6u8] + r12;
    let r10 = pc10 + r11;
    let r9 = seq![5u8] + r10;
    let r8 = pc8 + r9;
    let r7 = seq![4u8] + r8;
    let r6 = pc6 + r7;
    let r5 = seq![3u8] + r6;
    let r4 = pc4 + r5;
    let r3 = pc3 + r4;
    let r2 = seq![2u8] + r3;
    let r1 = pc1 + r2;
    let r0 = seq![1u8] + r1;
    assert(spec_bin_metric(m) =~= r0);
    lemma_prefix_split(s, pos, seq![1u8], r1);
    let p1 = pos + 1;
    lemma_prefix_split(s, p1, pc1, r2);
    let p2 = p1 + pc1.len();
    lemma_prefix_split(s, p2, seq![2u8], r3);
    let p3 = p2 + 1;
    lemma_prefix_split(s, p3, pc3, r4);
    let p4 = p3 + pc3.len();
    lemma_prefix_split(s, p4, pc4, r5);
    let p5 = p4 + pc4.len();
    lemma_prefix_split(s, p5, seq![3u8], r6);
    let p6 = p5 + 1;
    lemma_prefix_split(s, p6, pc6, r7);
    let p7 = p6 + pc6.len();
    lemma_prefix_split(s, p7, seq![4u8], r8);
    let p8 = p7 + 1;
    lemma_prefix_split(s, p8, pc8, r9);
    let p9 = p8 + pc8.len();
    lemma_prefix_split(s, p9, seq![5u8], r10);
    let p10 = p9 + 1;
    lemma_prefix_split(s, p10, pc10, r11);
    let p11 = p10 + pc10.len();
    lemma_prefix_split(s, p11, seq![6u8], r12);
    let p12 = p11 + 1;
    lemma_prefix_split(s, p12, pc12, r13);
}

proof fn lemma_scan_bin_tags_rt(
    s: Seq<u8>,
    pos: int,
    acc: Seq<(Seq<char>, Seq<char>)>,
    ts: Seq<(Seq<char>, Seq<char>)>,
)
    requires
        0 <= pos,
        forall|i: int| 0 <= i < ts.len() ==> bin_tag_fits(#[trigger] ts[i]),
        pos + spec_bin_tags(ts).len() <= s.len(),
        s.subrange(pos, pos + spec_bin_tags(ts).len()) == spec_bin_tags(ts),
    ensures
        sp_scan_bin_tags(s, pos, acc, ts.len()) == Some(
            (acc + ts, pos + spec_bin_tags(ts).len()),
        ),
    decreases ts.len(),
{
    lemma_le_lens();
    if ts.len() == 0 {
        assert(acc + ts =~= acc);
    } else {
        let t0 = ts[0];
        let rest = ts.drop_first();
        let kb = utf8(t0.0);
        let vb = utf8(t0.1);
        let lk = vstd::bytes::spec_u32_to_le_bytes(kb.len() as u32);
        let lv = vstd::bytes::spec_u32_to_le_bytes(vb.len() as u32);
        let tail = spec_bin_tags(rest);
        assert(spec_bin_tags(ts) == spec_bin_tag(t0) + tail);
        assert(spec_bin_tags(ts) =~= lk + (kb + (lv + (vb + tail))));
        lemma_prefix_split(s, pos, lk, kb + (lv + (vb + tail)));
        let p1 = pos + 4;
        lemma_prefix_split(s, p1, kb, lv + (vb + tail));
        let p2 = p1 + kb.len();
        lemma_prefix_split(s, p2, lv, vb + tail);
        let p3 = p2 + 4;
        lemma_prefix_split(s, p3, vb, tail);
        let p4 = p3 + vb.len();
        lemma_read_u32le_rt(s, pos, kb.len() as u32);
        lemma_read_u32le_rt(s, p2, vb.len() as u32);
        assert(bin_tag_fits(t0));
        assert((kb.len() as u32) as int == kb.len() as int);
        assert((vb.len() as u32) as int == vb.len() as int);
        vstd::utf8::encode_utf8_valid_utf8(t0.0);
        vstd::utf8::encode_utf8_decode_utf8(t0.0);
        vstd::utf8::encode_utf8_valid_utf8(t0.1);
        vstd::utf8::encode_utf8_decode_utf8(t0.1);
        let acc2 = acc.push((vstd::utf8::decode_utf8(kb), vstd::utf8::decode_utf8(vb)));
        assert(acc2 == acc.push(t0));
        assert(forall|i: int| 0 <= i < rest.len() ==> bin_tag_fits(#[trigger] rest[i]));
        lemma_scan_bin_tags_rt(s, p4, acc2, rest);
        assert(acc.push(t0) + rest =~= acc + ts);
    }
}

/// Parsing the binary message of `m`, wherever it stands, yields `m` and
/// the position after it.
#[verifier::rlimit(100)]
#[verifier::spinoff_prover]
proof fn lemma_parse_bin_metric_rt(s: Seq<u8>, pos: int, m: MetricPointV)
    requires
        0 <= pos,
        bin_metric_encodable(m),
        pos + spec_bin_metric(m).len() <= s.len(),
        s.subrange(pos, pos + spec_bin_metric(m).len()) == spec_bin_metric(m),
    ensures
        sp_parse_bin_metric(s, pos) == Some((m, pos + spec_bin_metric(m).len())),
{
    lemma_bin_metric_layout(s, pos, m);
    lemma_le_lens();
    let pc1 = vstd::bytes::spec_u64_to_le_bytes(m.timestamp as u64);
    let pc3 = vstd::bytes::spec_u32_to_le_bytes(utf8(m.hostname).len() as u32);
    let pc4 = utf8(m.hostname);
    let pc6 = vstd::bytes::spec_u32_to_le_bytes(m.cpu_centi_percent);
    let pc8 = vstd::bytes::spec_u64_to_le_bytes(m.memory_bytes);
    let pc10 = vstd::bytes::spec_u32_to_le_bytes(m.disk_io_ops);
    let pc12 = vstd::bytes::spec_u32_to_le_bytes(m.tags.len() as u32);
    let pc13 = spec_bin_tags(m.tags);
    let p1 = pos + 1;
    let p2 = p1 + pc1.len();
    let p3 = p2 + 1;
    let p4 = p3 + pc3.len();
    let p5 = p4 + pc4.len();
    let p6 = p5 + 1;
    let p7 = p6 + pc6.len();
    let p8 = p7 + 1;
    let p9 = p8 + pc8.len();
    let p10 = p9 + 1;
    let p11 = p10 + pc10.len();
    let p12 = p11 + 1;
    let p13 = p12 + pc12.len();
    let p14 = p13 + pc13.len();
    lemma_read_u64le_rt(s, p1, m.timestamp as u64);
    lemma_i64_bits(m.timestamp);
    lemma_read_u32le_rt(s, p3, utf8(m.hostname).len() as u32);
    assert((utf8(m.hostname).len() as u32) as int == utf8(m.hostname).len() as int);
    vstd::utf8::encode_utf8_valid_utf8(m.hostname);
    vstd::utf8::encode_utf8_decode_utf8(m.hostname);
    lemma_read_u32le_rt(s, p6, m.cpu_centi_percent);
    lemma_read_u64le_rt(s, p8, m.memory_bytes);
    lemma_read_u32le_rt(s, p10, m.disk_io_ops);
    lemma_read_u32le_rt(s, p12, m.tags.len() as u32);
    assert((m.tags.len() as u32) as nat == m.tags.len());
    lemma_scan_bin_tags_rt(s, p13, Seq::empty(), m.tags);
    assert(Seq::<(Seq<char>, Seq<char>)>::empty() + m.tags =~= m.tags);
    let parsed = MetricPointV {
        timestamp: (m.timestamp as u64) as i64,
        hostname: vstd::utf8::decode_utf8(pc4),
        cpu_centi_percent: m.cpu_centi_percent,
        memory_bytes: m.memory_bytes,
        disk_io_ops: m.disk_io_ops,
        tags: m.tags,
    };
    assert(parsed =~~= m);
    assert(sp_parse_bin_metric(s, pos) == Some((m, p14)));
}

/// Decoding the binary message of any encodable metric point yields the
/// point back.
pub proof fn lemma_bin_metric_round_trip(m: MetricPointV)
    requires
        bin_metric_encodable(m),
    ensures
        sp_decode_bin_metric(spec_bin_metric(m)) == Some(m),
{
    let s = spec_bin_metric(m);
    assert(s.subrange(0, s.len() as int) =~= s);
    lemma_parse_bin_metric_rt(s, 0, m);
}

/// Parses one binary metric message at `pos`; the strict mirror of
/// `sp_parse_bin_metric`.
#[verifier::rlimit(100)]
#[verifier::spinoff_prover]
#[verifier::loop_isolation(false)]
pub fn parse_metric_bin(s: &Vec<u8>, pos: usize) -> (r: Option<(MetricPoint, usize)>)
    requires
        pos <= s@.len(),
    ensures
        match r {
            Some((mp, p2)) => sp_parse_bin_metric(s@, pos as int) == Some((mp@, p2 as int))
                && pos < p2 <= s@.len(),
            None => sp_parse_bin_metric(s@, pos as int) is None,
        },
{
    let t = one_byte(1);
    let p1 = match expect_bytes(s, pos, &t) {
        Some(p) => p,
        None => {
            return None;
        },
    };
    let (ts_bits, p2) = match read_u64le(s, p1) {
        Some(x) => x,
        None => {
            return None;
        },
    };
    let t = one_byte(2);
    let p3 = match expect_bytes(s, p2, &t) {
        Some(p) => p,
        None => {
            return None;
        },
    };
    let (hlen, p4) = match read_u32le(s, p3) {
        Some(x) => x,
        None => {
            return None;
        },
    };
    let (hb, p5) = match read_bytes(s, p4, hlen as usize) {
        Some(x) => x,
        None => {
            return None;
        },
    };
    let host = match string_from_utf8(hb) {
        Some(h) => h,
        None => {
            return None;
        },
    };
    let t = one_byte(3);
    let p6 = match expect_bytes(s, p5, &t) {
        Some(p) => p,
        None => {
            return None;
        },
    };
    let (cpu, p7) = match read_u32le(s, p6) {
        Some(x) => x,
        None => {
            return None;
        },
    };
    let t = one_byte(4);
    let p8 = match expect_bytes(s, p7, &t) {
        Some(p) => p,
        None => {
            return None;
        },
    };
    let (mem, p9) = match read_u64le(s, p8) {
        Some(x) => x,
        None => {
            return None;
        },
    };
    let t = one_byte(5);
    let p10 = match expect_bytes(s, p9, &t) {
        Some(p) => p,
        None => {
            return None;
        },
    };
    let (disk, p11) = match read_u32le(s, p10) {
        Some(x) => x,
        None => {
            return None;
        },
    };
    let t = one_byte(6);
    let p12 = match expect_bytes(s, p11, &t) {
        Some(p) => p,
        None => {
            return None;
        },
    };
    let (cnt, p13) = match read_u32le(s, p12) {
        Some(x) => x,
        None => {
            return None;
        },
    };
    let mut tags: Vec<Tag> = Vec::new();
    let mut cur: usize = p13;
    let mut left: u32 = cnt;
    proof {
        assert(tag_views(tags@) =~= Seq::<(Seq<char>, Seq<char>)>::empty());
    }
    while left > 0
        invariant
            cur <= s@.len(),
            sp_scan_bin_tags(s@, p13 as int, Seq::empty(), cnt as nat) == sp_scan_bin_tags(
                s@,
                cur as int,
                tag_views(tags@),
                left as nat,
            ),
            p13 <= cur,
        decreases left,
    {
        let (klen, q1) = match read_u32le(s, cur) {
            Some(x) => x,
            None => {
                return None;
            },
        };
        let (kb, q2) = match read_bytes(s, q1, klen as usize) {
            Some(x) => x,
            None => {
                return None;
            },
        };
        let key = match string_from_utf8(kb) {
            Some(k) => k,
            None => {
                return None;
            },
        };
        let (vlen, q3) = match read_u32le(s, q2) {
            Some(x) => x,
            None => {
                return None;
            },
        };
        let (vb, q4) = match read_bytes(s, q3, vlen as usize) {
            Some(x) => x,
            None => {
                return None;
            },
        };
        let value = match string_from_utf8(vb) {
            Some(v) => v,
            None => {
                return None;
            },
        };
        let ghost prev_views = tag_views(tags@);
        tags.push(Tag::new(key, value));
        proof {
            assert(tag_views(tags@) =~= prev_views.push((tags@[tags@.len() - 1].key@, tags@[
                tags@.len() - 1].value@)));
        }
        cur = q4;
        left = left - 1;
    }
    proof {
        assert(sp_scan_bin_tags(s@, p13 as int, Seq::empty(), cnt as nat) == Some(
            (tag_views(tags@), cur as int),
        ));
    }
    let mp = MetricPoint {
        timestamp: #[verifier::truncate] (ts_bits as i64),
        hostname: host,
        cpu_centi_percent: cpu,
        memory_bytes: mem,
        disk_io_ops: disk,
        tags,
    };
    proof {
        assert(mp@ =~~= sp_parse_bin_metric(s@, pos as int)->Some_0.0);
    }
    Some((mp, cur))
}

/// Decodes one binary metric message from whole input; the strict mirror
/// of `sp_decode_bin_metric`.
pub fn decode_metric_bin(s: &Vec<u8>) -> (r: Option<MetricPoint>)
    ensures
        match r {
            Some(mp) => sp_decode_bin_metric(s@) == Some(mp@),
            None => sp_decode_bin_metric(s@) is None,
        },
{
    match parse_metric_bin(s, 0) {
        Some((mp, p)) => {
            if p == s.len() {
                Some(mp)
            } else {
                None
            }
        },
        None => None,
    }
}


/// Whether a query fits the binary message's length field.
pub open spec fn bin_query_encodable(q: MetricQueryV) -> bool {
    match q.hostname_filter {
        Some(h) => utf8(h).len() <= u32::MAX,
        None => true,
    }
}

/// The binary message for one query: both bounds, then a presence flag and
/// the optional length-prefixed hostname filter.
pub open spec fn spec_bin_query(q: MetricQueryV) -> Seq<u8> {
    seq![1u8] + vstd::bytes::spec_u64_to_le_bytes(q.start_time as u64) + seq![2u8]
        + vstd::bytes::spec_u64_to_le_bytes(q.end_time as u64) + seq![3u8] + match q
        .hostname_filter {
        None => seq![0u8],
        Some(h) => seq![1u8] + vstd::bytes::spec_u32_to_le_bytes(utf8(h).len() as u32) + utf8(h),
    }
}

/// Encodes one query as its binary message; fails exactly when the filter
/// is too long for its length field.
pub fn encode_query_bin(q: &MetricQuery) -> (r: Option<Vec<u8>>)
    ensures
        r is Some <==> bin_query_encodable(q@),
        r matches Some(v) ==> v@ == spec_bin_query(q@),
{
    let mut out: Vec<u8> = Vec::new();
    out.push(1);
    push_u64le(&mut out, q.start_time as u64);
    out.push(2);
    push_u64le(&mut out, q.end_time as u64);
    out.push(3);
    match &q.hostname_filter {
        None => {
            out.push(0);
            proof {
                assert(out@ =~= spec_bin_query(q@));
            }
            Some(out)
        },
        Some(h) => {
            let hb = h.as_str().as_bytes_vec();
            if hb.len() > 0xffff_ffff {
                return None;
            }
            out.push(1);
            push_u32le(&mut out, hb.len() as u32);
            push_bytes(&mut out, &hb);
            proof {
                assert(out@ =~= spec_bin_query(q@));
            }
            Some(out)
        },
    }
}

/// One binary query message at `pos`; the strict mirror of
/// `spec_bin_query`.
pub open spec fn sp_parse_bin_query(s: Seq<u8>, pos: int) -> Option<(MetricQueryV, int)> {
    match sp_expect(s, pos, seq![1u8]) {
        Some(p1) => match sp_read_u64le(s, p1) {
            Some((start_bits, p2)) => match sp_expect(s, p2, seq![2u8]) {
                Some(p3) => match sp_read_u64le(s, p3) {
                    Some((end_bits, p4)) => match sp_expect(s, p4, seq![3u8]) {
                        Some(p5) => if p5 < s.len() && s[p5] == 0 {
                            Some(
                                (
                                    MetricQueryV {
                                        start_time: #[verifier::truncate] (start_bits as i64),
                                        end_time: #[verifier::truncate] (end_bits as i64),
                                        hostname_filter: None,
                                    },
                                    p5 + 1,
                                ),
                            )
                        } else if p5 < s.len() && s[p5] == 1 {
                            match sp_read_u32le(s, p5 + 1) {
                                Some((hlen, p6)) => match sp_read_bytes(s, p6, hlen as int) {
                                    Some((hb, p7)) => if vstd::utf8::valid_utf8(hb) {
                                        Some(
                                            (
                                                MetricQueryV {
                                                    start_time: #[verifier::truncate] (start_bits
                                                        as i64),
                                                    end_time: #[verifier::truncate] (end_bits
                                                        as i64),
                                                    hostname_filter: Some(
                                                        vstd::utf8::decode_utf8(hb),
                                                    ),
                                                },
                                                p7,
                                            ),
                                        )
                                    } else {
                                        None
                                    },
                                    None => None,
                                },
                                None => None,
                            }
                        } else {
                            None
                        },
                        None => None,
                    },
                    None => None,
                },
                None => None,
            },
            None => None,
        },
        None => None,
    }
}

/// The whole-input decode of one binary query message.
pub open spec fn sp_decode_bin_query(s: Seq<u8>) -> Option<MetricQueryV> {
    match sp_parse_bin_query(s, 0) {
        Some((q, p)) => if p == s.len() {
            Some(q)
        } else {
            None
        },
        None => None,
    }
}

/// Decodes one binary query message from whole input; the strict mirror of
/// `sp_decode_bin_query`.
#[verifier::loop_isolation(false)]
pub fn decode_query_bin(s: &Vec<u8>) -> (r: Option<MetricQuery>)
    ensures
        match r {
            Some(q) => sp_decode_bin_query(s@) == Some(q@),
            None => sp_decode_bin_query(s@) is None,
        },
{
    let t = one_byte(1);
    let p1 = match expect_bytes(s, 0, &t) {
        Some(p) => p,
        None => {
            return None;
        },
    };
    let (start_bits, p2) = match read_u64le(s, p1) {
        Some(x) => x,
        None => {
            return None;
        },
    };
    let t = one_byte(2);
    let p3 = match expect_bytes(s, p2, &t) {
        Some(p) => p,
        None => {
            return None;
        },
    };
    let (end_bits, p4) = match read_u64le(s, p3) {
        Some(x) => x,
        None => {
            return None;
        },
    };
    let t = one_byte(3);
    let p5 = match expect_bytes(s, p4, &t) {
        Some(p) => p,
        None => {
            return None;
        },
    };
    if p5 < s.len() && s[p5] == 0 {
        if p5 + 1 == s.len() {
            return Some(
                MetricQuery {
                    start_time: #[verifier::truncate] (start_bits as i64),
                    end_time: #[verifier::truncate] (end_bits as i64),
                    hostname_filter: None,
                },
            );
        } else {
            return None;
        }
    }
    if !(p5 < s.len() && s[p5] == 1) {
        return None;
    }
    let (hlen, p6) = match read_u32le(s, p5 + 1) {
        Some(x) => x,
        None => {
            return None;
        },
    };
    let (hb, p7) = match read_bytes(s, p6, hlen as usize) {
        Some(x) => x,
        None => {
            return None;
        },
    };
    let host = match string_from_utf8(hb) {
        Some(h) => h,
        None => {
            return None;
        },
    };
    if p7 != s.len() {
        return None;
    }
    Some(
        MetricQuery {
            start_time: #[verifier::truncate] (start_bits as i64),
            end_time: #[verifier::truncate] (end_bits as i64),
            hostname_filter: Some(host),
        },
    )
}

/// Decoding the binary message of any encodable query yields the query
/// back.
#[verifier::rlimit(100)]
#[verifier::spinoff_prover]
pub proof fn lemma_bin_query_round_trip(q: MetricQueryV)
    requires
        bin_query_encodable(q),
    ensures
        sp_decode_bin_query(spec_bin_query(q)) == Some(q),
{
    let s = spec_bin_query(q);
    assert(s.subrange(0, s.len() as int) =~= s);
    lemma_le_lens();
    let pc1 = vstd::bytes::spec_u64_to_le_bytes(q.start_time as u64);
    let pc3 = vstd::bytes::spec_u64_to_le_bytes(q.end_time as u64);
    match q.hostname_filter {
        None => {
            let r5 = seq![0u8];
            let r4 = seq![3u8] + r5;
            let r3 = pc3 + r4;
            let r2 = seq![2u8] + r3;
            let r1 = pc1 + r2;
            let r0 = seq![1u8] + r1;
            assert(s =~= r0);
            lemma_prefix_split(s, 0, seq![1u8], r1);
            lemma_prefix_split(s, 1, pc1, r2);
            let p2 = 1 + pc1.len() as int;
            lemma_prefix_split(s, p2, seq![2u8], r3);
            let p3 = p2 + 1;
            lemma_prefix_split(s, p3, pc3, r4);
            let p4 = p3 + pc3.len();
            lemma_prefix_split(s, p4, seq![3u8], r5);
            let p5 = p4 + 1;
            lemma_match_at(s, p5, seq![0u8], 0);
            assert(s[p5] == 0);
            lemma_read_u64le_rt(s, 1, q.start_time as u64);
            lemma_read_u64le_rt(s, p3, q.end_time as u64);
            lemma_i64_bits(q.start_time);
            lemma_i64_bits(q.end_time);
            assert(p5 + 1 == s.len());
        },
        Some(h) => {
            let hb = utf8(h);
            let lh = vstd::bytes::spec_u32_to_le_bytes(hb.len() as u32);
            let r7 = hb;
            let r6 = lh + r7;
            let r5 = seq![1u8] + r6;
            let r4 = seq![3u8] + r5;
            let r3 = pc3 + r4;
            let r2 = seq![2u8] + r3;
            let r1 = pc1 + r2;
            let r0 = seq![1u8] + r1;
            assert(s =~= r0);
            lemma_prefix_split(s, 0, seq![1u8], r1);
            lemma_prefix_split(s, 1, pc1, r2);
            let p2 = 1 + pc1.len() as int;
            lemma_prefix_split(s, p2, seq![2u8], r3);
            let p3 = p2 + 1;
            lemma_prefix_split(s, p3, pc3, r4);
            let p4 = p3 + pc3.len();
            lemma_prefix_split(s, p4, seq![3u8], r5);
            let p5 = p4 + 1;
            lemma_prefix_split(s, p5, seq![1u8], r6);
            let p6 = p5 + 1;
            lemma_prefix_split(s, p6, lh, r7);
            let p7 = p6 + lh.len();
            lemma_match_at(s, p5, seq![1u8], 0);
            assert(s[p5] == 1);
            lemma_read_u64le_rt(s, 1, q.start_time as u64);
            lemma_read_u64le_rt(s, p3, q.end_time as u64);
            lemma_i64_bits(q.start_time);
            lemma_i64_bits(q.end_time);
            lemma_read_u32le_rt(s, p6, hb.len() as u32);
            assert((hb.len() as u32) as int == hb.len() as int);
            assert(s.subrange(p7, p7 + hb.len()) == hb);
            vstd::utf8::encode_utf8_valid_utf8(h);
            vstd::utf8::encode_utf8_decode_utf8(h);
            assert(p7 + hb.len() == s.len());
        },
    }
}

/// The binary message for a statistics value: five tagged fixed-width
/// fields.
pub open spec fn spec_bin_stats(st: MetricStatistics) -> Seq<u8> {
    seq![1u8] + vstd::bytes::spec_u64_to_le_bytes(st.count) + seq![2u8]
        + vstd::bytes::spec_u32_to_le_bytes(st.avg_cpu_centi_percent) + seq![3u8]
        + vstd::bytes::spec_u64_to_le_bytes(st.avg_memory_bytes) + seq![4u8]
        + vstd::bytes::spec_u64_to_le_bytes(st.avg_disk_io_centi_ops) + seq![5u8]
        + vstd::bytes::spec_u64_to_le_bytes(st.time_range_seconds as u64)
}

/// Encodes a statistics value as its binary message.
pub fn encode_stats_bin(st: &MetricStatistics) -> (r: Vec<u8>)
    ensures
        r@ == spec_bin_stats(*st),
{
    let mut out: Vec<u8> = Vec::new();
    out.push(1);
    push_u64le(&mut out, st.count);
    out.push(2);
    push_u32le(&mut out, st.avg_cpu_centi_percent);
    out.push(3);
    push_u64le(&mut out, st.avg_memory_bytes);
    out.push(4);
    push_u64le(&mut out, st.avg_disk_io_centi_ops);
    out.push(5);
    push_u64le(&mut out, st.time_range_seconds as u64);
    proof {
        assert(out@ =~= spec_bin_stats(*st));
    }
    out
}

/// One binary statistics message at `pos`; the strict mirror of
/// `spec_bin_stats`.
pub open spec fn sp_parse_bin_stats(s: Seq<u8>, pos: int) -> Option<(MetricStatistics, int)> {
    match sp_expect(s, pos, seq![1u8]) {
        Some(p1) => match sp_read_u64le(s, p1) {
            Some((count, p2)) => match sp_expect(s, p2, seq![2u8]) {
                Some(p3) => match sp_read_u32le(s, p3) {
                    Some((cpu, p4)) => match sp_expect(s, p4, seq![3u8]) {
                        Some(p5) => match sp_read_u64le(s, p5) {
                            Some((mem, p6)) => match sp_expect(s, p6, seq![4u8]) {
                                Some(p7) => match sp_read_u64le(s, p7) {
                                    Some((disk, p8)) => match sp_expect(s, p8, seq![5u8]) {
                                        Some(p9) => match sp_read_u64le(s, p9) {
                                            Some((range_bits, p10)) => Some(
                                                (
                                                    MetricStatistics {
                                                        count,
                                                        avg_cpu_centi_percent: cpu,
                                                        avg_memory_bytes: mem,
                                                        avg_disk_io_centi_ops: disk,
                                                        time_range_seconds: #[verifier::truncate] (
                                                        range_bits as i64),
                                                    },
                                                    p10,
                                                ),
                                            ),
                                            None => None,
                                        },
                                        None => None,
                                    },
                                    None => None,
                                },
                                None => None,
                            },
                            None => None,
                        },
                        None => None,
                    },
                    None => None,
                },
                None => None,
            },
            None => None,
        },
        None => None,
    }
}

/// The whole-input decode of one binary statistics message.
pub open spec fn sp_decode_bin_stats(s: Seq<u8>) -> Option<MetricStatistics> {
    match sp_parse_bin_stats(s, 0) {
        Some((st, p)) => if p == s.len() {
            Some(st)
        } else {
            None
        },
        None => None,
    }
}

/// Decodes one binary statistics message from whole input; the strict
/// mirror of `sp_decode_bin_stats`.
pub fn decode_stats_bin(s: &Vec<u8>) -> (r: Option<MetricStatistics>)
    ensures
        match r {
            Some(st) => sp_decode_bin_stats(s@) == Some(st),
            None => sp_decode_bin_stats(s@) is None,
        },
{
    let t = one_byte(1);
    let p1 = match expect_bytes(s, 0, &t) {
        Some(p) => p,
        None => {
            return None;
        },
    };
    let (count, p2) = match read_u64le(s, p1) {
        Some(x) => x,
        None => {
            return None;
        },
    };
    let t = one_byte(2);
    let p3 = match expect_bytes(s, p2, &t) {
        Some(p) => p,
        None => {
            return None;
        },
    };
    let (cpu, p4) = match read_u32le(s, p3) {
        Some(x) => x,
        None => {
            return None;
        },
    };
    let t = one_byte(3);
    let p5 = match expect_bytes(s, p4, &t) {
        Some(p) => p,
        None => {
            return None;
        },
    };
    let (mem, p6) = match read_u64le(s, p5) {
        Some(x) => x,
        None => {
            return None;
        },
    };
    let t = one_byte(4);
    let p7 = match expect_bytes(s, p6, &t) {
        Some(p) => p,
        None => {
            return None;
        },
    };
    let (disk, p8) = match read_u64le(s, p7) {
        Some(x) => x,
        None => {
            return None;
        },
    };
    let t = one_byte(5);
    let p9 = match expect_bytes(s, p8, &t) {
        Some(p) => p,
        None => {
            return None;
        },
    };
    let (range_bits, p10) = match read_u64le(s, p9) {
        Some(x) => x,
        None => {
            return None;
        },
    };
    if p10 != s.len() {
        return None;
    }
    Some(
        MetricStatistics {
            count,
            avg_cpu_centi_percent: cpu,
            avg_memory_bytes: mem,
            avg_disk_io_centi_ops: disk,
            time_range_seconds: #[verifier::truncate] (range_bits as i64),
        },
    )
}

/// Decoding the binary message of any statistics value yields the value
/// back.
#[verifier::rlimit(100)]
#[verifier::spinoff_prover]
pub proof fn lemma_bin_stats_round_trip(st: MetricStatistics)
    ensures
        sp_decode_bin_stats(spec_bin_stats(st)) == Some(st),
{
    let s = spec_bin_stats(st);
    assert(s.subrange(0, s.len() as int) =~= s);
    lemma_le_lens();
    let pc1 = vstd::bytes::spec_u64_to_le_bytes(st.count);
    let pc3 = vstd::bytes::spec_u32_to_le_bytes(st.avg_cpu_centi_percent);
    let pc5 = vstd::bytes::spec_u64_to_le_bytes(st.avg_memory_bytes);
    let pc7 = vstd::bytes::spec_u64_to_le_bytes(st.avg_disk_io_centi_ops);
    let pc9 = vstd::bytes::spec_u64_to_le_bytes(st.time_range_seconds as u64);
    let r9 = pc9;
    let r8 = seq![5u8] + r9;
    let r7 = pc7 + r8;
    let r6 = seq![4u8] + r7;
    let r5 = pc5 + r6;
    let r4 = seq![3u8] + r5;
    let r3 = pc3 + r4;
    let r2 = seq![2u8] + r3;
    let r1 = pc1 + r2;
    let r0 = seq![1u8] + r1;
    assert(s =~= r0);
    lemma_prefix_split(s, 0, seq![1u8], r1);
    lemma_prefix_split(s, 1, pc1, r2);
    let p2 = 1 + pc1.len() as int;
    lemma_prefix_split(s, p2, seq![2u8], r3);
    let p3 = p2 + 1;
    lemma_prefix_split(s, p3, pc3, r4);
    let p4 = p3 + pc3.len();
    lemma_prefix_split(s, p4, seq![3u8], r5);
    let p5 = p4 + 1;
    lemma_prefix_split(s, p5, pc5, r6);
    let p6 = p5 + pc5.len();
    lemma_prefix_split(s, p6, seq![4u8], r7);
    let p7 = p6 + 1;
    lemma_prefix_split(s, p7, pc7, r8);
    let p8 = p7 + pc7.len();
    lemma_prefix_split(s, p8, seq![5u8], r9);
    let p9 = p8 + 1;
    lemma_read_u64le_rt(s, 1, st.count);
    lemma_read_u32le_rt(s, p3, st.avg_cpu_centi_percent);
    lemma_read_u64le_rt(s, p5, st.avg_memory_bytes);
    lemma_read_u64le_rt(s, p7, st.avg_disk_io_centi_ops);
    lemma_read_u64le_rt(s, p9, st.time_range_seconds as u64);
    lemma_i64_bits(st.time_range_seconds);
    assert(p9 + pc9.len() == s.len());
}

/// Whether every metric of a result fits the binary message format.
pub open spec fn bin_stream_encodable(ms: Seq<MetricPointV>) -> bool {
    forall|i: int| 0 <= i < ms.len() ==> bin_metric_encodable(#[trigger] ms[i])
}

/// A query result's stream body: the metric messages back to back; the
/// stream's end delimits the last one.
pub open spec fn spec_bin_stream(ms: Seq<MetricPointV>) -> Seq<u8>
    decreases ms.len(),
{
    if ms.len() == 0 {
        Seq::empty()
    } else {
        spec_bin_metric(ms[0]) + spec_bin_stream(ms.drop_first())
    }
}

proof fn lemma_bin_stream_push(ms: Seq<MetricPointV>, x: MetricPointV)
    ensures
        spec_bin_stream(ms.push(x)) == spec_bin_stream(ms) + spec_bin_metric(x),
    decreases ms.len(),
{
    if ms.len() == 0 {
        assert(ms.push(x)[0] == x);
        assert(ms.push(x).drop_first() =~= Seq::<MetricPointV>::empty());
        assert(spec_bin_stream(Seq::<MetricPointV>::empty()) == Seq::<u8>::empty());
        assert(spec_bin_stream(ms.push(x)) =~= spec_bin_stream(ms) + spec_bin_metric(x));
    } else {
        assert(ms.push(x).drop_first() =~= ms.drop_first().push(x));
        assert(ms.push(x)[0] == ms[0]);
        lemma_bin_stream_push(ms.drop_first(), x);
        assert(spec_bin_stream(ms.push(x)) =~= spec_bin_stream(ms) + spec_bin_metric(x));
    }
}

/// Encodes a query result as its stream body; fails exactly when some
/// metric does not fit the format.
pub fn encode_metrics_bin(ms: &Vec<MetricPoint>) -> (r: Option<Vec<u8>>)
    ensures
        r is Some <==> bin_stream_encodable(metric_views(ms@)),
        r matches Some(v) ==> v@ == spec_bin_stream(metric_views(ms@)),
{
    let mut out: Vec<u8> = Vec::new();
    let n = ms.len();
    let mut i: usize = 0;
    while i < n
        invariant
            n == ms@.len(),
            0 <= i <= n,
            out@ == spec_bin_stream(metric_views(ms@).take(i as int)),
            forall|j: int| 0 <= j < i ==> bin_metric_encodable(#[trigger] metric_views(ms@)[j]),
        decreases n - i,
    {
        let ghost before = out@;
        let body = match encode_metric_bin(&ms[i]) {
            Some(b) => b,
            None => {
                proof {
                    assert(!bin_metric_encodable(metric_views(ms@)[i as int]));
                }
                return None;
            },
        };
        push_bytes(&mut out, &body);
        proof {
            let mv = metric_views(ms@);
            let x = mv[i as int];
            assert(mv.take(i + 1) =~= mv.take(i as int).push(x));
            lemma_bin_stream_push(mv.take(i as int), x);
            assert(out@ =~= spec_bin_stream(mv.take(i + 1)));
        }
        i += 1;
    }
    proof {
        let mv = metric_views(ms@);
        assert(mv.take(n as int) =~= mv);
    }
    Some(out)
}

/// Scans metric messages back to back until the input ends.
pub open spec fn sp_scan_bin_stream(s: Seq<u8>, pos: int, acc: Seq<MetricPointV>, fuel: nat) -> Option<
    (Seq<MetricPointV>, int),
>
    decreases fuel,
{
    if pos == s.len() {
        Some((acc, pos))
    } else if fuel == 0 {
        None
    } else {
        match sp_parse_bin_metric(s, pos) {
            Some((m, p1)) => sp_scan_bin_stream(s, p1, acc.push(m), (fuel - 1) as nat),
            None => None,
        }
    }
}

/// The whole-input decode of a stream body.
pub open spec fn sp_decode_bin_stream(s: Seq<u8>) -> Option<Seq<MetricPointV>> {
    match sp_scan_bin_stream(s, 0, Seq::empty(), (s.len() + 1) as nat) {
        Some((ms, _p)) => Some(ms),
        None => None,
    }
}

proof fn lemma_bin_stream_len(ms: Seq<MetricPointV>)
    ensures
        spec_bin_stream(ms).len() >= ms.len(),
    decreases ms.len(),
{
    if ms.len() > 0 {
        lemma_bin_stream_len(ms.drop_first());
    }
}

proof fn lemma_scan_bin_stream_rt(
    s: Seq<u8>,
    pos: int,
    acc: Seq<MetricPointV>,
    ms: Seq<MetricPointV>,
    fuel: nat,
)
    requires
        0 <= pos,
        bin_stream_encodable(ms),
        fuel >= ms.len(),
        pos + spec_bin_stream(ms).len() == s.len(),
        s.subrange(pos, pos + spec_bin_stream(ms).len()) == spec_bin_stream(ms),
    ensures
        sp_scan_bin_stream(s, pos, acc, fuel) == Some((acc + ms, s.len() as int)),
    decreases ms.len(),
{
    if ms.len() == 0 {
        assert(pos == s.len());
        assert(acc + ms =~= acc);
    } else {
        let m0 = ms[0];
        let rest = ms.drop_first();
        let body = spec_bin_metric(m0);
        let tail = spec_bin_stream(rest);
        assert(spec_bin_stream(ms) == body + tail);
        lemma_prefix_split(s, pos, body, tail);
        assert(bin_metric_encodable(m0));
        lemma_parse_bin_metric_rt(s, pos, m0);
        let p1 = pos + body.len();
        assert(pos < s.len()) by {
            assert(body.len() >= 1);
        }
        assert(forall|i: int| 0 <= i < rest.len() ==> bin_metric_encodable(#[trigger] rest[i]));
        lemma_scan_bin_stream_rt(s, p1, acc.push(m0), rest, (fuel - 1) as nat);
        assert(acc.push(m0) + rest =~= acc + ms);
    }
}

/// Decoding the stream body of any encodable query result yields the
/// result back.
pub proof fn lemma_bin_stream_round_trip(ms: Seq<MetricPointV>)
    requires
        bin_stream_encodable(ms),
    ensures
        sp_decode_bin_stream(spec_bin_stream(ms)) == Some(ms),
{
    let s = spec_bin_stream(ms);
    assert(s.subrange(0, s.len() as int) =~= s);
    lemma_bin_stream_len(ms);
    lemma_scan_bin_stream_rt(s, 0, Seq::empty(), ms, (s.len() + 1) as nat);
    assert(Seq::<MetricPointV>::empty() + ms =~= ms);
}

/// Decodes a whole stream body; the strict mirror of
/// `sp_decode_bin_stream`.
#[verifier::loop_isolation(false)]
pub fn decode_metrics_bin(s: &Vec<u8>) -> (r: Option<Vec<MetricPoint>>)
    ensures
        match r {
            Some(ms) => sp_decode_bin_stream(s@) == Some(metric_views(ms@)),
            None => sp_decode_bin_stream(s@) is None,
        },
{
    let mut acc: Vec<MetricPoint> = Vec::new();
    let mut cur: usize = 0;
    let ghost total_fuel = (s@.len() + 1) as nat;
    let ghost mut fuel = total_fuel;
    proof {
        assert(metric_views(acc@) =~= Seq::<MetricPointV>::empty());
    }
    while cur < s.len()
        invariant
            cur <= s@.len(),
            fuel >= 1 + (s@.len() - cur),
            sp_scan_bin_stream(s@, 0, Seq::empty(), total_fuel) == sp_scan_bin_stream(
                s@,
                cur as int,
                metric_views(acc@),
                fuel,
            ),
        decreases s@.len() - cur,
    {
        let (m, p1) = match parse_metric_bin(s, cur) {
            Some(x) => x,
            None => {
                return None;
            },
        };
        let ghost prev_views = metric_views(acc@);
        acc.push(m);
        proof {
            assert(metric_views(acc@) =~= prev_views.push(acc@[acc@.len() - 1]@));
            fuel = (fuel - 1) as nat;
        }
        cur = p1;
    }
    proof {
        assert(sp_scan_bin_stream(s@, cur as int, metric_views(acc@), fuel) == Some(
            (metric_views(acc@), s@.len() as int),
        ));
    }
    Some(acc)
}

} // verus!
