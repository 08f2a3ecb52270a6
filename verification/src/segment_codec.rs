//! The capability-RPC adapter's wire format: segment messages laid out at
//! fixed offsets with no per-field tags, every variable-length region sized
//! up front in a header, and the metric message prefixed with its total
//! body size — the builder allocates the whole message before filling it.
//!
//! Encoding fails exactly when a size field would overflow; decoding is the
//! strict mirror and also checks the declared total against the consumed
//! body. The round-trip lemmas state that decoding undoes encoding for
//! every encodable value.

use vstd::prelude::*;

use crate::binary_codec::utf8;
use crate::model::{
    metric_views, tag_views, MetricPoint, MetricPointV, MetricQuery, MetricQueryV,
    MetricStatistics, Tag,
};
use crate::wire::{
    lemma_i64_bits, lemma_le_lens, lemma_prefix_split, lemma_read_u32le_rt, lemma_read_u64le_rt,
    push_bytes, push_u32le, push_u64le, read_bytes, read_u32le, read_u64le, sp_read_bytes,
    sp_read_u32le, sp_read_u64le, string_from_utf8,
};

verus! {

/// One tag region: both sizes first, then the two strings back to back.
pub open spec fn spec_seg_tag(t: (Seq<char>, Seq<char>)) -> Seq<u8> {
    vstd::bytes::spec_u32_to_le_bytes(utf8(t.0).len() as u32) + vstd::bytes::spec_u32_to_le_bytes(
        utf8(t.1).len() as u32,
    ) + utf8(t.0) + utf8(t.1)
}

/// The tag regions, in order.
pub open spec fn spec_seg_tags(ts: Seq<(Seq<char>, Seq<char>)>) -> Seq<u8>
    decreases ts.len(),
{
    if ts.len() == 0 {
        Seq::empty()
    } else {
        spec_seg_tag(ts[0]) + spec_seg_tags(ts.drop_first())
    }
}

proof fn lemma_seg_tags_push(ts: Seq<(Seq<char>, Seq<char>)>, x: (Seq<char>, Seq<char>))
    ensures
        spec_seg_tags(ts.push(x)) == spec_seg_tags(ts) + spec_seg_tag(x),
    decreases ts.len(),
{
    if ts.len() == 0 {
        assert(ts.push(x)[0] == x);
        assert(ts.push(x).drop_first() =~= Seq::<(Seq<char>, Seq<char>)>::empty());
        assert(spec_seg_tags(Seq::<(Seq<char>, Seq<char>)>::empty()) == Seq::<u8>::empty());
        assert(spec_seg_tags(ts.push(x)) =~= spec_seg_tags(ts) + spec_seg_tag(x));
    } else {
        assert(ts.push(x).drop_first() =~= ts.drop_first().push(x));
        assert(ts.push(x)[0] == ts[0]);
        lemma_seg_tags_push(ts.drop_first(), x);
        assert(spec_seg_tags(ts.push(x)) =~= spec_seg_tags(ts) + spec_seg_tag(x));
    }
}

/// The message body after the total-size word: the fixed section, the
/// hostname region, the tag regions.
pub open spec fn spec_seg_metric_body(m: MetricPointV) -> Seq<u8> {
    vstd::bytes::spec_u64_to_le_bytes(m.timestamp as u64) + vstd::bytes::spec_u64_to_le_bytes(
        m.memory_bytes,
    ) + vstd::bytes::spec_u32_to_le_bytes(m.cpu_centi_percent) + vstd::bytes::spec_u32_to_le_bytes(
        m.disk_io_ops,
    ) + vstd::bytes::spec_u32_to_le_bytes(utf8(m.hostname).len() as u32)
        + vstd::bytes::spec_u32_to_le_bytes(m.tags.len() as u32) + utf8(m.hostname)
        + spec_seg_tags(m.tags)
}

/// Whether a metric fits the segment message's size fields.
pub open spec fn seg_metric_encodable(m: MetricPointV) -> bool {
    &&& utf8(m.hostname).len() <= u32::MAX
    &&& m.tags.len() <= u32::MAX
    &&& forall|i: int|
        0 <= i < m.tags.len() ==> crate::binary_codec::bin_tag_fits(#[trigger] m.tags[i])
    &&& spec_seg_metric_body(m).len() <= u32::MAX
}

/// The whole metric message: the body's size, then the body.
pub open spec fn spec_seg_metric(m: MetricPointV) -> Seq<u8> {
    vstd::bytes::spec_u32_to_le_bytes(spec_seg_metric_body(m).len() as u32)
        + spec_seg_metric_body(m)
}

/// Encodes one metric point as its segment message; fails exactly when a
/// size field would overflow.
#[verifier::loop_isolation(false)]
pub fn encode_metric_seg(m: &MetricPoint) -> (r: Option<Vec<u8>>)
    ensures
        r is Some <==> seg_metric_encodable(m@),
        r matches Some(v) ==> v@ == spec_seg_metric(m@),
{
    let hb = m.hostname.as_str().as_bytes_vec();
    if hb.len() > 0xffff_ffff {
        return None;
    }
    if m.tags.len() > 0xffff_ffff {
        proof {
            assert(m@.tags.len() == m.tags@.len());
        }
        return None;
    }
    let mut body: Vec<u8> = Vec::new();
    push_u64le(&mut body, m.timestamp as u64);
    push_u64le(&mut body, m.memory_bytes);
    push_u32le(&mut body, m.cpu_centi_percent);
    push_u32le(&mut body, m.disk_io_ops);
    push_u32le(&mut body, hb.len() as u32);
    push_u32le(&mut body, m.tags.len() as u32);
    push_bytes(&mut body, &hb);
    let ghost head = body@;
    let n = m.tags.len();
    let mut i: usize = 0;
    while i < n
        invariant
            n == m.tags@.len(),
            0 <= i <= n,
            body@ == head + spec_seg_tags(tag_views(m.tags@).take(i as int)),
            forall|j: int|
                0 <= j < i ==> crate::binary_codec::bin_tag_fits(
                    #[trigger] tag_views(m.tags@)[j],
                ),
        decreases n - i,
    {
        let ghost before = body@;
        let kb = m.tags[i].key.as_str().as_bytes_vec();
        if kb.len() > 0xffff_ffff {
            proof {
                assert(!crate::binary_codec::bin_tag_fits(tag_views(m.tags@)[i as int]));
            }
            return None;
        }
        let vb = m.tags[i].value.as_str().as_bytes_vec();
        if vb.len() > 0xffff_ffff {
            proof {
                assert(!crate::binary_codec::bin_tag_fits(tag_views(m.tags@)[i as int]));
            }
            return None;
        }
        push_u32le(&mut body, kb.len() as u32);
        push_u32le(&mut body, vb.len() as u32);
        push_bytes(&mut body, &kb);
        push_bytes(&mut body, &vb);
        proof {
            let tv = tag_views(m.tags@);
            let x = tv[i as int];
            assert(body@ =~= before + spec_seg_tag(x));
            assert(tv.take(i + 1) =~= tv.take(i as int).push(x));
            lemma_seg_tags_push(tv.take(i as int), x);
            assert(body@ =~= head + spec_seg_tags(tv.take(i + 1)));
        }
        i += 1;
    }
    proof {
        let tv = tag_views(m.tags@);
        assert(tv.take(n as int) =~= tv);
        assert(body@ =~= spec_seg_metric_body(m@));
    }
    if body.len() > 0xffff_ffff {
        return None;
    }
    let mut out: Vec<u8> = Vec::new();
    push_u32le(&mut out, body.len() as u32);
    push_bytes(&mut out, &body);
    proof {
        assert(out@ =~= spec_seg_metric(m@));
    }
    Some(out)
}

/// Scans `n` tag regions from `pos`.
pub open spec fn sp_scan_seg_tags(
    s: Seq<u8>,
    pos: int,
    acc: Seq<(Seq<char>, Seq<char>)>,
    n: nat,
) -> Option<(Seq<(Seq<char>, Seq<char>)>, int)>
    decreases n,
{
    if n == 0 {
        Some((acc, pos))
    } else {
        match sp_read_u32le(s, pos) {
            Some((klen, p1)) => match sp_read_u32le(s, p1) {
                Some((vlen, p2)) => match sp_read_bytes(s, p2, klen as int) {
                    Some((kb, p3)) => if vstd::utf8::valid_utf8(kb) {
                        match sp_read_bytes(s, p3, vlen as int) {
                            Some((vb, p4)) => if vstd::utf8::valid_utf8(vb) {
                                sp_scan_seg_tags(
                                    s,
                                    p4,
                                    acc.push(
                                        (vstd::utf8::decode_utf8(kb), vstd::utf8::decode_utf8(vb)),
                                    ),
                                    (n - 1) as nat,
                                )
                            } else {
                                None
                            },
                            None => None,
                        }
                    } else {
                        None
                    },
                    None => None,
                },
                None => None,
            },
            None => None,
        }
    }
}

/// One segment metric message at `pos`; the strict mirror of
/// `spec_seg_metric`, including the total-size check.
pub open spec fn sp_parse_seg_metric(s: Seq<u8>, pos: int) -> Option<(MetricPointV, int)> {
    match sp_read_u32le(s, pos) {
        Some((total, p0)) => match sp_read_u64le(s, p0) {
            Some((ts_bits, p1)) => match sp_read_u64le(s, p1) {
                Some((mem, p2)) => match sp_read_u32le(s, p2) {
                    Some((cpu, p3)) => match sp_read_u32le(s, p3) {
                        Some((disk, p4)) => match sp_read_u32le(s, p4) {
                            Some((hlen, p5)) => match sp_read_u32le(s, p5) {
                                Some((cnt, p6)) => match sp_read_bytes(s, p6, hlen as int) {
                                    Some((hb, p7)) => if vstd::utf8::valid_utf8(hb) {
                                        match sp_scan_seg_tags(s, p7, Seq::empty(), cnt as nat) {
                                            Some((ts2, p8)) => if p8 - p0 == total as int {
                                                Some(
                                                    (
                                                        MetricPointV {
                                                            timestamp: #[verifier::truncate] (
                                                            ts_bits as i64),
                                                            hostname: vstd::utf8::decode_utf8(hb),
                                                            cpu_centi_percent: cpu,
                                                            memory_bytes: mem,
                                                            disk_io_ops: disk,
                                                            tags: ts2,
                                                        },
                                                        p8,
                                                    ),
                                                )
                                            } else {
                                                None
                                            },
                                            None => None,
                                        }
                                    } else {
                                        None
                                    },
                                    None => None,
                                },
                                None => None,
                            },
                            None => None,
                        },
                        None => None,
                    },
                    None => None,
                },
                None => None,
            },
            None => None,
        },
        None => None,
    }
}

/// The whole-input decode of one segment metric message.
pub open spec fn sp_decode_seg_metric(s: Seq<u8>) -> Option<MetricPointV> {
    match sp_parse_seg_metric(s, 0) {
        Some((m, p)) => if p == s.len() {
            Some(m)
        } else {
            None
        },
        None => None,
    }
}

/// Parses one segment metric message at `pos`; the strict mirror of
/// `sp_parse_seg_metric`.
#[verifier::rlimit(100)]
#[verifier::spinoff_prover]
#[verifier::loop_isolation(false)]
pub fn parse_metric_seg(s: &Vec<u8>, pos: usize) -> (r: Option<(MetricPoint, usize)>)
    requires
        pos <= s@.len(),
    ensures
        match r {
            Some((mp, p2)) => sp_parse_seg_metric(s@, pos as int) == Some((mp@, p2 as int))
                && pos < p2 <= s@.len(),
            None => sp_parse_seg_metric(s@, pos as int) is None,
        },
{
    let (total, p0) = match read_u32le(s, pos) {
        Some(x) => x,
        None => {
            return None;
        },
    };
    let (ts_bits, p1) = match read_u64le(s, p0) {
        Some(x) => x,
        None => {
            return None;
        },
    };
    let (mem, p2) = match read_u64le(s, p1) {
        Some(x) => x,
        None => {
            return None;
        },
    };
    let (cpu, p3) = match read_u32le(s, p2) {
        Some(x) => x,
        None => {
            return None;
        },
    };
    let (disk, p4) = match read_u32le(s, p3) {
        Some(x) => x,
        None => {
            return None;
        },
    };
    let (hlen, p5) = match read_u32le(s, p4) {
        Some(x) => x,
        None => {
            return None;
        },
    };
    let (cnt, p6) = match read_u32le(s, p5) {
        Some(x) => x,
        None => {
            return None;
        },
    };
    let (hb, p7) = match read_bytes(s, p6, hlen as usize) {
        Some(x) => x,
        None => {
            return None;
        },
    };
    let host = match string_from_utf8(hb) {
        Some(h) => h,
        None => {
            return None;
        },
    };
    let mut tags: Vec<Tag> = Vec::new();
    let mut cur: usize = p7;
    let mut left: u32 = cnt;
    proof {
        assert(tag_views(tags@) =~= Seq::<(Seq<char>, Seq<char>)>::empty());
    }
    while left > 0
        invariant
            cur <= s@.len(),
            sp_scan_seg_tags(s@, p7 as int, Seq::empty(), cnt as nat) == sp_scan_seg_tags(
                s@,
                cur as int,
                tag_views(tags@),
                left as nat,
            ),
            p7 <= cur,
        decreases left,
    {
        let (klen, q1) = match read_u32le(s, cur) {
            Some(x) => x,
            None => {
                return None;
            },
        };
        let (vlen, q2) = match read_u32le(s, q1) {
            Some(x) => x,
            None => {
                return None;
            },
        };
        let (kb, q3) = match read_bytes(s, q2, klen as usize) {
            Some(x) => x,
            None => {
                return None;
            },
        };
        let key = match string_from_utf8(kb) {
            Some(k) => k,
            None => {
                return None;
            },
        };
        let (vb, q4) = match read_bytes(s, q3, vlen as usize) {
            Some(x) => x,
            None => {
                return None;
            },
        };
        let value = match string_from_utf8(vb) {
            Some(v) => v,
            None => {
                return None;
            },
        };
        let ghost prev_views = tag_views(tags@);
        tags.push(Tag::new(key, value));
        proof {
            assert(tag_views(tags@) =~= prev_views.push((tags@[tags@.len() - 1].key@, tags@[
                tags@.len() - 1].value@)));
        }
        cur = q4;
        left = left - 1;
    }
    proof {
        assert(sp_scan_seg_tags(s@, p7 as int, Seq::empty(), cnt as nat) == Some(
            (tag_views(tags@), cur as int),
        ));
    }
    if !(cur - p0 == total as usize) {
        return None;
    }
    let mp = MetricPoint {
        timestamp: #[verifier::truncate] (ts_bits as i64),
        hostname: host,
        cpu_centi_percent: cpu,
        memory_bytes: mem,
        disk_io_ops: disk,
        tags,
    };
    proof {
        assert(mp@ =~~= sp_parse_seg_metric(s@, pos as int)->Some_0.0);
    }
    Some((mp, cur))
}

/// Decodes one segment metric message from whole input; the strict mirror
/// of `sp_decode_seg_metric`.
pub fn decode_metric_seg(s: &Vec<u8>) -> (r: Option<MetricPoint>)
    ensures
        match r {
            Some(mp) => sp_decode_seg_metric(s@) == Some(mp@),
            None => sp_decode_seg_metric(s@) is None,
        },
{
    match parse_metric_seg(s, 0) {
        Some((mp, p)) => {
            if p == s.len() {
                Some(mp)
            } else {
                None
            }
        },
        None => None,
    }
}

/// Where each piece of the segment message body stands, given the whole
/// message stands at `pos`.
#[verifier::rlimit(100)]
#[verifier::spinoff_prover]
proof fn lemma_seg_metric_layout(s: Seq<u8>, pos: int, m: MetricPointV)
    requires
        0 <= pos,
        pos + spec_seg_metric(m).len() <= s.len(),
        s.subrange(pos, pos + spec_seg_metric(m).len()) == spec_seg_metric(m),
    ensures
        ({
            let lt = vstd::bytes::spec_u32_to_le_bytes(spec_seg_metric_body(m).len() as u32);
            let pc0 = vstd::bytes::spec_u64_to_le_bytes(m.timestamp as u64);
            let pc1 = vstd::bytes::spec_u64_to_le_bytes(m.memory_bytes);
            let pc2 = vstd::bytes::spec_u32_to_le_bytes(m.cpu_centi_percent);
            let pc3 = vstd::bytes::spec_u32_to_le_bytes(m.disk_io_ops);
            let pc4 = vstd::bytes::spec_u32_to_le_bytes(utf8(m.hostname).len() as u32);
            let pc5 = vstd::bytes::spec_u32_to_le_bytes(m.tags.len() as u32);
            let pc6 = utf8(m.hostname);
            let pc7 = spec_seg_tags(m.tags);
            let p0 = pos + 4;
            let p1 = p0 + 8;
            let p2 = p1 + 8;
            let p3 = p2 + 4;
            let p4 = p3 + 4;
            let p5 = p4 + 4;
            let p6 = p5 + 4;
            let p7 = p6 + pc6.len();
            let p8 = p7 + pc7.len();
            &&& s.subrange(pos, p0) == lt
            &&& s.subrange(p0, p1) == pc0
            &&& s.subrange(p1, p2) == pc1
            &&& s.subrange(p2, p3) == pc2
            &&& s.subrange(p3, p4) == pc3
            &&& s.subrange(p4, p5) == pc4
            &&& s.subrange(p5, p6) == pc5
            &&& s.subrange(p6, p7) == pc6
            &&& s.subrange(p7, p8) == pc7
            &&& p8 == pos + spec_seg_metric(m).len()
            &&& p8 - p0 == spec_seg_metric_body(m).len()
        }),
{
    lemma_le_lens();
    let lt = vstd::bytes::spec_u32_to_le_bytes(spec_seg_metric_body(m).len() as u32);
    let pc0 = vstd::bytes::spec_u64_to_le_bytes(m.timestamp as u64);
    let pc1 = vstd::bytes::spec_u64_to_le_bytes(m.memory_bytes);
    let pc2 = vstd::bytes::spec_u32_to_le_bytes(m.cpu_centi_percent);
    let pc3 = vstd::bytes::spec_u32_to_le_bytes(m.disk_io_ops);
    let pc4 = vstd::bytes::spec_u32_to_le_bytes(utf8(m.hostname).len() as u32);
    let pc5 = vstd::bytes::spec_u32_to_le_bytes(m.tags.len() as u32);
    let pc6 = utf8(m.hostname);
    let pc7 = spec_seg_tags(m.tags);
    let r7 = pc7;
    let r6 = pc6 + r7;
    let r5 = pc5 + r6;
    let r4 = pc4 + r5;
    let r3 = pc3 + r4;
    let r2 = pc2 + r3;
    let r1 = pc1 + r2;
    let r0 = pc0 + r1;
    let rl = lt + r0;
    assert(spec_seg_metric_body(m) =~= r0);
    assert(spec_seg_metric(m) =~= rl);
    lemma_prefix_split(s, pos, lt, r0);
    let p0 = pos + 4;
    lemma_prefix_split(s, p0, pc0, r1);
    let p1 = p0 + 8;
    lemma_prefix_split(s, p1, pc1, r2);
    let p2 = p1 + 8;
    lemma_prefix_split(s, p2, pc2, r3);
    let p3 = p2 + 4;
    lemma_prefix_split(s, p3, pc3, r4);
    let p4 = p3 + 4;
    lemma_prefix_split(s, p4, pc4, r5);
    let p5 = p4 + 4;
    lemma_prefix_split(s, p5, pc5, r6);
    let p6 = p5 + 4;
    lemma_prefix_split(s, p6, pc6, r7);
}

proof fn lemma_scan_seg_tags_rt(
    s: Seq<u8>,
    pos: int,
    acc: Seq<(Seq<char>, Seq<char>)>,
    ts: Seq<(Seq<char>, Seq<char>)>,
)
    requires
        0 <= pos,
        forall|i: int|
            0 <= i < ts.len() ==> crate::binary_codec::bin_tag_fits(#[trigger] ts[i]),
        pos + spec_seg_tags(ts).len() <= s.len(),
        s.subrange(pos, pos + spec_seg_tags(ts).len()) == spec_seg_tags(ts),
    ensures
        sp_scan_seg_tags(s, pos, acc, ts.len()) == Some(
            (acc + ts, pos + spec_seg_tags(ts).len()),
        ),
    decreases ts.len(),
{
    lemma_le_lens();
    if ts.len() == 0 {
        assert(acc + ts =~= acc);
    } else {
        let t0 = ts[0];
        let rest = ts.drop_first();
        let kb = utf8(t0.0);
        let vb = utf8(t0.1);
        let lk = vstd::bytes::spec_u32_to_le_bytes(kb.len() as u32);
        let lv = vstd::bytes::spec_u32_to_le_bytes(vb.len() as u32);
        let tail = spec_seg_tags(rest);
        assert(spec_seg_tags(ts) == spec_seg_tag(t0) + tail);
        assert(spec_seg_tags(ts) =~= lk + (lv + (kb + (vb + tail))));
        lemma_prefix_split(s, pos, lk, lv + (kb + (vb + tail)));
        let p1 = pos + 4;
        lemma_prefix_split(s, p1, lv, kb + (vb + tail));
        let p2 = p1 + 4;
        lemma_prefix_split(s, p2, kb, vb + tail);
        let p3 = p2 + kb.len();
        lemma_prefix_split(s, p3, vb, tail);
        let p4 = p3 + vb.len();
        lemma_read_u32le_rt(s, pos, kb.len() as u32);
        lemma_read_u32le_rt(s, p1, vb.len() as u32);
        assert(crate::binary_codec::bin_tag_fits(t0));
        assert((kb.len() as u32) as int == kb.len() as int);
        assert((vb.len() as u32) as int == vb.len() as int);
        vstd::utf8::encode_utf8_valid_utf8(t0.0);
        vstd::utf8::encode_utf8_decode_utf8(t0.0);
        vstd::utf8::encode_utf8_valid_utf8(t0.1);
        vstd::utf8::encode_utf8_decode_utf8(t0.1);
        let acc2 = acc.push((vstd::utf8::decode_utf8(kb), vstd::utf8::decode_utf8(vb)));
        assert(acc2 == acc.push(t0));
        assert(forall|i: int|
            0 <= i < rest.len() ==> crate::binary_codec::bin_tag_fits(#[trigger] rest[i]));
        lemma_scan_seg_tags_rt(s, p4, acc2, rest);
        assert(acc.push(t0) + rest =~= acc + ts);
    }
}

/// Parsing the segment message of `m`, wherever it stands, yields `m` and
/// the position after it.
#[verifier::rlimit(100)]
#[verifier::spinoff_prover]
proof fn lemma_parse_seg_metric_rt(s: Seq<u8>, pos: int, m: MetricPointV)
    requires
        0 <= pos,
        seg_metric_encodable(m),
        pos + spec_seg_metric(m).len() <= s.len(),
        s.subrange(pos, pos + spec_seg_metric(m).len()) == spec_seg_metric(m),
    ensures
        sp_parse_seg_metric(s, pos) == Some((m, pos + spec_seg_metric(m).len())),
{
    lemma_seg_metric_layout(s, pos, m);
    lemma_le_lens();
    let pc6 = utf8(m.hostname);
    let pc7 = spec_seg_tags(m.tags);
    let p0 = pos + 4;
    let p1 = p0 + 8;
    let p2 = p1 + 8;
    let p3 = p2 + 4;
    let p4 = p3 + 4;
    let p5 = p4 + 4;
    let p6 = p5 + 4;
    let p7 = p6 + pc6.len();
    let p8 = p7 + pc7.len();
    lemma_read_u32le_rt(s, pos, spec_seg_metric_body(m).len() as u32);
    lemma_read_u64le_rt(s, p0, m.timestamp as u64);
    lemma_i64_bits(m.timestamp);
    lemma_read_u64le_rt(s, p1, m.memory_bytes);
    lemma_read_u32le_rt(s, p2, m.cpu_centi_percent);
    lemma_read_u32le_rt(s, p3, m.disk_io_ops);
    lemma_read_u32le_rt(s, p4, utf8(m.hostname).len() as u32);
    lemma_read_u32le_rt(s, p5, m.tags.len() as u32);
    assert((utf8(m.hostname).len() as u32) as int == utf8(m.hostname).len() as int);
    vstd::utf8::encode_utf8_valid_utf8(m.hostname);
    vstd::utf8::encode_utf8_decode_utf8(m.hostname);
    assert((m.tags.len() as u32) as nat == m.tags.len());
    lemma_scan_seg_tags_rt(s, p7, Seq::empty(), m.tags);
    assert(Seq::<(Seq<char>, Seq<char>)>::empty() + m.tags =~= m.tags);
    assert((spec_seg_metric_body(m).len() as u32) as int == spec_seg_metric_body(m).len() as int);
    assert(p8 - p0 == spec_seg_metric_body(m).len());
    let parsed = MetricPointV {
        timestamp: (m.timestamp as u64) as i64,
        hostname: vstd::utf8::decode_utf8(pc6),
        cpu_centi_percent: m.cpu_centi_percent,
        memory_bytes: m.memory_bytes,
        disk_io_ops: m.disk_io_ops,
        tags: m.tags,
    };
    assert(parsed =~~= m);
    assert(sp_parse_seg_metric(s, pos) == Some((m, p8)));
}

/// Decoding the segment message of any encodable metric point yields the
/// point back.
pub proof fn lemma_seg_metric_round_trip(m: MetricPointV)
    requires
        seg_metric_encodable(m),
    ensures
        sp_decode_seg_metric(spec_seg_metric(m)) == Some(m),
{
    let s = spec_seg_metric(m);
    assert(s.subrange(0, s.len() as int) =~= s);
    lemma_parse_seg_metric_rt(s, 0, m);
}


/// Whether a query fits the segment message's size field.
pub open spec fn seg_query_encodable(q: MetricQueryV) -> bool {
    match q.hostname_filter {
        Some(h) => utf8(h).len() <= u32::MAX,
        None => true,
    }
}

/// The segment message for one query: both bounds, a word-sized presence
/// flag, the filter's size, then its bytes.
pub open spec fn spec_seg_query(q: MetricQueryV) -> Seq<u8> {
    vstd::bytes::spec_u64_to_le_bytes(q.start_time as u64) + vstd::bytes::spec_u64_to_le_bytes(
        q.end_time as u64,
    ) + match q.hostname_filter {
        None => vstd::bytes::spec_u32_to_le_bytes(0) + vstd::bytes::spec_u32_to_le_bytes(0),
        Some(h) => vstd::bytes::spec_u32_to_le_bytes(1) + vstd::bytes::spec_u32_to_le_bytes(
            utf8(h).len() as u32,
        ) + utf8(h),
    }
}

/// Encodes one query as its segment message; fails exactly when the
/// filter is too long for its size field.
pub fn encode_query_seg(q: &MetricQuery) -> (r: Option<Vec<u8>>)
    ensures
        r is Some <==> seg_query_encodable(q@),
        r matches Some(v) ==> v@ == spec_seg_query(q@),
{
    let mut out: Vec<u8> = Vec::new();
    push_u64le(&mut out, q.start_time as u64);
    push_u64le(&mut out, q.end_time as u64);
    match &q.hostname_filter {
        None => {
            push_u32le(&mut out, 0);
            push_u32le(&mut out, 0);
            proof {
                assert(out@ =~= spec_seg_query(q@));
            }
            Some(out)
        },
        Some(h) => {
            let hb = h.as_str().as_bytes_vec();
            if hb.len() > 0xffff_ffff {
                return None;
            }
            push_u32le(&mut out, 1);
            push_u32le(&mut out, hb.len() as u32);
            push_bytes(&mut out, &hb);
            proof {
                assert(out@ =~= spec_seg_query(q@));
            }
            Some(out)
        },
    }
}

/// One segment query message at `pos`; the strict mirror of
/// `spec_seg_query`.
pub open spec fn sp_parse_seg_query(s: Seq<u8>, pos: int) -> Option<(MetricQueryV, int)> {
    match sp_read_u64le(s, pos) {
        Some((start_bits, p1)) => match sp_read_u64le(s, p1) {
            Some((end_bits, p2)) => match sp_read_u32le(s, p2) {
                Some((flag, p3)) => match sp_read_u32le(s, p3) {
                    Some((hlen, p4)) => if flag == 0 {
                        if hlen == 0 {
                            Some(
                                (
                                    MetricQueryV {
                                        start_time: #[verifier::truncate] (start_bits as i64),
                                        end_time: #[verifier::truncate] (end_bits as i64),
                                        hostname_filter: None,
                                    },
                                    p4,
                                ),
                            )
                        } else {
                            None
                        }
                    } else if flag == 1 {
                        match sp_read_bytes(s, p4, hlen as int) {
                            Some((hb, p5)) => if vstd::utf8::valid_utf8(hb) {
                                Some(
                                    (
                                        MetricQueryV {
                                            start_time: #[verifier::truncate] (start_bits as i64),
                                            end_time: #[verifier::truncate] (end_bits as i64),
                                            hostname_filter: Some(vstd::utf8::decode_utf8(hb)),
                                        },
                                        p5,
                                    ),
                                )
                            } else {
                                None
                            },
                            None => None,
                        }
                    } else {
                        None
                    },
                    None => None,
                },
                None => None,
            },
            None => None,
        },
        None => None,
    }
}

/// The whole-input decode of one segment query message.
pub open spec fn sp_decode_seg_query(s: Seq<u8>) -> Option<MetricQueryV> {
    match sp_parse_seg_query(s, 0) {
        Some((q, p)) => if p == s.len() {
            Some(q)
        } else {
            None
        },
        None => None,
    }
}

/// Decodes one segment query message from whole input; the strict mirror
/// of `sp_decode_seg_query`.
pub fn decode_query_seg(s: &Vec<u8>) -> (r: Option<MetricQuery>)
    ensures
        match r {
            Some(q) => sp_decode_seg_query(s@) == Some(q@),
            None => sp_decode_seg_query(s@) is None,
        },
{
    let (start_bits, p1) = match read_u64le(s, 0) {
        Some(x) => x,
        None => {
            return None;
        },
    };
    let (end_bits, p2) = match read_u64le(s, p1) {
        Some(x) => x,
        None => {
            return None;
        },
    };
    let (flag, p3) = match read_u32le(s, p2) {
        Some(x) => x,
        None => {
            return None;
        },
    };
    let (hlen, p4) = match read_u32le(s, p3) {
        Some(x) => x,
        None => {
            return None;
        },
    };
    if flag == 0 {
        if hlen == 0 && p4 == s.len() {
            return Some(
                MetricQuery {
                    start_time: #[verifier::truncate] (start_bits as i64),
                    end_time: #[verifier::truncate] (end_bits as i64),
                    hostname_filter: None,
                },
            );
        } else {
            return None;
        }
    }
    if flag != 1 {
        return None;
    }
    let (hb, p5) = match read_bytes(s, p4, hlen as usize) {
        Some(x) => x,
        None => {
            return None;
        },
    };
    let host = match string_from_utf8(hb) {
        Some(h) => h,
        None => {
            return None;
        },
    };
    if p5 != s.len() {
        return None;
    }
    Some(
        MetricQuery {
            start_time: #[verifier::truncate] (start_bits as i64),
            end_time: #[verifier::truncate] (end_bits as i64),
            hostname_filter: Some(host),
        },
    )
}

/// Decoding the segment message of any encodable query yields the query
/// back.
#[verifier::rlimit(100)]
#[verifier::spinoff_prover]
pub proof fn lemma_seg_query_round_trip(q: MetricQueryV)
    requires
        seg_query_encodable(q),
    ensures
        sp_decode_seg_query(spec_seg_query(q)) == Some(q),
{
    let s = spec_seg_query(q);
    assert(s.subrange(0, s.len() as int) =~= s);
    lemma_le_lens();
    let pc0 = vstd::bytes::spec_u64_to_le_bytes(q.start_time as u64);
    let pc1 = vstd::bytes::spec_u64_to_le_bytes(q.end_time as u64);
    match q.hostname_filter {
        None => {
            let f0 = vstd::bytes::spec_u32_to_le_bytes(0);
            let r3 = f0;
            let r2 = f0 + r3;
            let r1 = pc1 + r2;
            let r0 = pc0 + r1;
            assert(s =~= r0);
            lemma_prefix_split(s, 0, pc0, r1);
            lemma_prefix_split(s, 8, pc1, r2);
            lemma_prefix_split(s, 16, f0, r3);
            lemma_read_u64le_rt(s, 0, q.start_time as u64);
            lemma_read_u64le_rt(s, 8, q.end_time as u64);
            lemma_i64_bits(q.start_time);
            lemma_i64_bits(q.end_time);
            lemma_read_u32le_rt(s, 16, 0);
            lemma_read_u32le_rt(s, 20, 0);
            assert(s.len() == 24);
        },
        Some(h) => {
            let hb = utf8(h);
            let f1 = vstd::bytes::spec_u32_to_le_bytes(1);
            let lh = vstd::bytes::spec_u32_to_le_bytes(hb.len() as u32);
            let r4 = hb;
            let r3 = lh + r4;
            let r2 = f1 + r3;
            let r1 = pc1 + r2;
            let r0 = pc0 + r1;
            assert(s =~= r0);
            lemma_prefix_split(s, 0, pc0, r1);
            lemma_prefix_split(s, 8, pc1, r2);
            lemma_prefix_split(s, 16, f1, r3);
            lemma_prefix_split(s, 20, lh, r4);
            lemma_read_u64le_rt(s, 0, q.start_time as u64);
            lemma_read_u64le_rt(s, 8, q.end_time as u64);
            lemma_i64_bits(q.start_time);
            lemma_i64_bits(q.end_time);
            lemma_read_u32le_rt(s, 16, 1);
            lemma_read_u32le_rt(s, 20, hb.len() as u32);
            assert((hb.len() as u32) as int == hb.len() as int);
            assert(s.subrange(24, 24 + hb.len() as int) == hb);
            vstd::utf8::encode_utf8_valid_utf8(h);
            vstd::utf8::encode_utf8_decode_utf8(h);
            assert(24 + hb.len() == s.len());
        },
    }
}

/// The segment message for a statistics value: five fixed-offset fields.
pub open spec fn spec_seg_stats(st: MetricStatistics) -> Seq<u8> {
    vstd::bytes::spec_u64_to_le_bytes(st.count) + vstd::bytes::spec_u64_to_le_bytes(
        st.avg_memory_bytes,
    ) + vstd::bytes::spec_u64_to_le_bytes(st.avg_disk_io_centi_ops)
        + vstd::bytes::spec_u64_to_le_bytes(st.time_range_seconds as u64)
        + vstd::bytes::spec_u32_to_le_bytes(st.avg_cpu_centi_percent)
}

/// Encodes a statistics value as its segment message.
pub fn encode_stats_seg(st: &MetricStatistics) -> (r: Vec<u8>)
    ensures
        r@ == spec_seg_stats(*st),
{
    let mut out: Vec<u8> = Vec::new();
    push_u64le(&mut out, st.count);
    push_u64le(&mut out, st.avg_memory_bytes);
    push_u64le(&mut out, st.avg_disk_io_centi_ops);
    push_u64le(&mut out, st.time_range_seconds as u64);
    push_u32le(&mut out, st.avg_cpu_centi_percent);
    proof {
        assert(out@ =~= spec_seg_stats(*st));
    }
    out
}

/// One segment statistics message at `pos`; the strict mirror of
/// `spec_seg_stats`.
pub open spec fn sp_parse_seg_stats(s: Seq<u8>, pos: int) -> Option<(MetricStatistics, int)> {
    match sp_read_u64le(s, pos) {
        Some((count, p1)) => match sp_read_u64le(s, p1) {
            Some((mem, p2)) => match sp_read_u64le(s, p2) {
                Some((disk, p3)) => match sp_read_u64le(s, p3) {
                    Some((range_bits, p4)) => match sp_read_u32le(s, p4) {
                        Some((cpu, p5)) => Some(
                            (
                                MetricStatistics {
                                    count,
                                    avg_cpu_centi_percent: cpu,
                                    avg_memory_bytes: mem,
                                    avg_disk_io_centi_ops: disk,
                                    time_range_seconds: #[verifier::truncate] (range_bits as i64),
                                },
                                p5,
                            ),
                        ),
                        None => None,
                    },
                    None => None,
                },
                None => None,
            },
            None => None,
        },
        None => None,
    }
}

/// The whole-input decode of one segment statistics message.
pub open spec fn sp_decode_seg_stats(s: Seq<u8>) -> Option<MetricStatistics> {
    match sp_parse_seg_stats(s, 0) {
        Some((st, p)) => if p == s.len() {
            Some(st)
        } else {
            None
        },
        None => None,
    }
}

/// Decodes one segment statistics message from whole input; the strict
/// mirror of `sp_decode_seg_stats`.
pub fn decode_stats_seg(s: &Vec<u8>) -> (r: Option<MetricStatistics>)
    ensures
        match r {
            Some(st) => sp_decode_seg_stats(s@) == Some(st),
            None => sp_decode_seg_stats(s@) is None,
        },
{
    let (count, p1) = match read_u64le(s, 0) {
        Some(x) => x,
        None => {
            return None;
        },
    };
    let (mem, p2) = match read_u64le(s, p1) {
        Some(x) => x,
        None => {
            return None;
        },
    };
    let (disk, p3) = match read_u64le(s, p2) {
        Some(x) => x,
        None => {
            return None;
        },
    };
    let (range_bits, p4) = match read_u64le(s, p3) {
        Some(x) => x,
        None => {
            return None;
        },
    };
    let (cpu, p5) = match read_u32le(s, p4) {
        Some(x) => x,
        None => {
            return None;
        },
    };
    if p5 != s.len() {
        return None;
    }
    Some(
        MetricStatistics {
            count,
            avg_cpu_centi_percent: cpu,
            avg_memory_bytes: mem,
            avg_disk_io_centi_ops: disk,
            time_range_seconds: #[verifier::truncate] (range_bits as i64),
        },
    )
}

/// Decoding the segment message of any statistics value yields the value
/// back.
#[verifier::rlimit(100)]
#[verifier::spinoff_prover]
pub proof fn lemma_seg_stats_round_trip(st: MetricStatistics)
    ensures
        sp_decode_seg_stats(spec_seg_stats(st)) == Some(st),
{
    let s = spec_seg_stats(st);
    assert(s.subrange(0, s.len() as int) =~= s);
    lemma_le_lens();
    let pc0 = vstd::bytes::spec_u64_to_le_bytes(st.count);
    let pc1 = vstd::bytes::spec_u64_to_le_bytes(st.avg_memory_bytes);
    let pc2 = vstd::bytes::spec_u64_to_le_bytes(st.avg_disk_io_centi_ops);
    let pc3 = vstd::bytes::spec_u64_to_le_bytes(st.time_range_seconds as u64);
    let pc4 = vstd::bytes::spec_u32_to_le_bytes(st.avg_cpu_centi_percent);
    let r4 = pc4;
    let r3 = pc3 + r4;
    let r2 = pc2 + r3;
    let r1 = pc1 + r2;
    let r0 = pc0 + r1;
    assert(s =~= r0);
    lemma_prefix_split(s, 0, pc0, r1);
    lemma_prefix_split(s, 8, pc1, r2);
    lemma_prefix_split(s, 16, pc2, r3);
    lemma_prefix_split(s, 24, pc3, r4);
    lemma_read_u64le_rt(s, 0, st.count);
    lemma_read_u64le_rt(s, 8, st.avg_memory_bytes);
    lemma_read_u64le_rt(s, 16, st.avg_disk_io_centi_ops);
    lemma_read_u64le_rt(s, 24, st.time_range_seconds as u64);
    lemma_i64_bits(st.time_range_seconds);
    lemma_read_u32le_rt(s, 32, st.avg_cpu_centi_percent);
    assert(s.len() == 36);
}

/// Whether every metric of a result fits the segment message format.
pub open spec fn seg_list_encodable(ms: Seq<MetricPointV>) -> bool {
    ms.len() <= u32::MAX && forall|i: int|
        0 <= i < ms.len() ==> seg_metric_encodable(#[trigger] ms[i])
}

/// A query result's list message: the result count sized up front, then
/// the metric messages back to back.
pub open spec fn spec_seg_list_body(ms: Seq<MetricPointV>) -> Seq<u8>
    decreases ms.len(),
{
    if ms.len() == 0 {
        Seq::empty()
    } else {
        spec_seg_metric(ms[0]) + spec_seg_list_body(ms.drop_first())
    }
}

pub open spec fn spec_seg_list(ms: Seq<MetricPointV>) -> Seq<u8> {
    vstd::bytes::spec_u32_to_le_bytes(ms.len() as u32) + spec_seg_list_body(ms)
}

proof fn lemma_seg_list_body_push(ms: Seq<MetricPointV>, x: MetricPointV)
    ensures
        spec_seg_list_body(ms.push(x)) == spec_seg_list_body(ms) + spec_seg_metric(x),
    decreases ms.len(),
{
    if ms.len() == 0 {
        assert(ms.push(x)[0] == x);
        assert(ms.push(x).drop_first() =~= Seq::<MetricPointV>::empty());
        assert(spec_seg_list_body(Seq::<MetricPointV>::empty()) == Seq::<u8>::empty());
        assert(spec_seg_list_body(ms.push(x)) =~= spec_seg_list_body(ms) + spec_seg_metric(x));
    } else {
        assert(ms.push(x).drop_first() =~= ms.drop_first().push(x));
        assert(ms.push(x)[0] == ms[0]);
        lemma_seg_list_body_push(ms.drop_first(), x);
        assert(spec_seg_list_body(ms.push(x)) =~= spec_seg_list_body(ms) + spec_seg_metric(x));
    }
}

/// Encodes a query result as its list message; fails exactly when the
/// count or some metric does not fit the format.
pub fn encode_metrics_seg(ms: &Vec<MetricPoint>) -> (r: Option<Vec<u8>>)
    ensures
        r is Some <==> seg_list_encodable(metric_views(ms@)),
        r matches Some(v) ==> v@ == spec_seg_list(metric_views(ms@)),
{
    if ms.len() > 0xffff_ffff {
        return None;
    }
    let mut out: Vec<u8> = Vec::new();
    push_u32le(&mut out, ms.len() as u32);
    let ghost head = out@;
    let n = ms.len();
    let mut i: usize = 0;
    while i < n
        invariant
            n == ms@.len(),
            0 <= i <= n,
            out@ == head + spec_seg_list_body(metric_views(ms@).take(i as int)),
            forall|j: int| 0 <= j < i ==> seg_metric_encodable(#[trigger] metric_views(ms@)[j]),
        decreases n - i,
    {
        let body = match encode_metric_seg(&ms[i]) {
            Some(b) => b,
            None => {
                proof {
                    assert(!seg_metric_encodable(metric_views(ms@)[i as int]));
                }
                return None;
            },
        };
        push_bytes(&mut out, &body);
        proof {
            let mv = metric_views(ms@);
            let x = mv[i as int];
            assert(mv.take(i + 1) =~= mv.take(i as int).push(x));
            lemma_seg_list_body_push(mv.take(i as int), x);
            assert(out@ =~= head + spec_seg_list_body(mv.take(i + 1)));
        }
        i += 1;
    }
    proof {
        let mv = metric_views(ms@);
        assert(mv.take(n as int) =~= mv);
        assert(out@ =~= spec_seg_list(mv));
    }
    Some(out)
}

/// Scans `n` segment metric messages from `pos`.
pub open spec fn sp_scan_seg_list(s: Seq<u8>, pos: int, acc: Seq<MetricPointV>, n: nat) -> Option<
    (Seq<MetricPointV>, int),
>
    decreases n,
{
    if n == 0 {
        Some((acc, pos))
    } else {
        match sp_parse_seg_metric(s, pos) {
            Some((m, p1)) => sp_scan_seg_list(s, p1, acc.push(m), (n - 1) as nat),
            None => None,
        }
    }
}

/// The whole-input decode of a list message.
pub open spec fn sp_decode_seg_list(s: Seq<u8>) -> Option<Seq<MetricPointV>> {
    match sp_read_u32le(s, 0) {
        Some((cnt, p0)) => match sp_scan_seg_list(s, p0, Seq::empty(), cnt as nat) {
            Some((ms, p)) => if p == s.len() {
                Some(ms)
            } else {
                None
            },
            None => None,
        },
        None => None,
    }
}

proof fn lemma_scan_seg_list_rt(s: Seq<u8>, pos: int, acc: Seq<MetricPointV>, ms: Seq<MetricPointV>)
    requires
        0 <= pos,
        forall|i: int| 0 <= i < ms.len() ==> seg_metric_encodable(#[trigger] ms[i]),
        pos + spec_seg_list_body(ms).len() <= s.len(),
        s.subrange(pos, pos + spec_seg_list_body(ms).len()) == spec_seg_list_body(ms),
    ensures
        sp_scan_seg_list(s, pos, acc, ms.len()) == Some(
            (acc + ms, pos + spec_seg_list_body(ms).len()),
        ),
    decreases ms.len(),
{
    if ms.len() == 0 {
        assert(acc + ms =~= acc);
    } else {
        let m0 = ms[0];
        let rest = ms.drop_first();
        let body = spec_seg_metric(m0);
        let tail = spec_seg_list_body(rest);
        assert(spec_seg_list_body(ms) == body + tail);
        lemma_prefix_split(s, pos, body, tail);
        assert(seg_metric_encodable(m0));
        lemma_parse_seg_metric_rt(s, pos, m0);
        let p1 = pos + body.len();
        assert(forall|i: int| 0 <= i < rest.len() ==> seg_metric_encodable(#[trigger] rest[i]));
        lemma_scan_seg_list_rt(s, p1, acc.push(m0), rest);
        assert(acc.push(m0) + rest =~= acc + ms);
    }
}

/// Decoding the list message of any encodable query result yields the
/// result back.
pub proof fn lemma_seg_list_round_trip(ms: Seq<MetricPointV>)
    requires
        seg_list_encodable(ms),
    ensures
        sp_decode_seg_list(spec_seg_list(ms)) == Some(ms),
{
    let s = spec_seg_list(ms);
    assert(s.subrange(0, s.len() as int) =~= s);
    lemma_le_lens();
    let lc = vstd::bytes::spec_u32_to_le_bytes(ms.len() as u32);
    let body = spec_seg_list_body(ms);
    assert(s =~= lc + body);
    lemma_prefix_split(s, 0, lc, body);
    lemma_read_u32le_rt(s, 0, ms.len() as u32);
    assert((ms.len() as u32) as nat == ms.len());
    lemma_scan_seg_list_rt(s, 4, Seq::empty(), ms);
    assert(Seq::<MetricPointV>::empty() + ms =~= ms);
}

/// Decodes a whole list message; the strict mirror of
/// `sp_decode_seg_list`.
#[verifier::loop_isolation(false)]
pub fn decode_metrics_seg(s: &Vec<u8>) -> (r: Option<Vec<MetricPoint>>)
    ensures
        match r {
            Some(ms) => sp_decode_seg_list(s@) == Some(metric_views(ms@)),
            None => sp_decode_seg_list(s@) is None,
        },
{
    let (cnt, p0) = match read_u32le(s, 0) {
        Some(x) => x,
        None => {
            return None;
        },
    };
    let mut acc: Vec<MetricPoint> = Vec::new();
    let mut cur: usize = p0;
    let mut left: u32 = cnt;
    proof {
        assert(metric_views(acc@) =~= Seq::<MetricPointV>::empty());
    }
    while left > 0
        invariant
            cur <= s@.len(),
            sp_scan_seg_list(s@, p0 as int, Seq::empty(), cnt as nat) == sp_scan_seg_list(
                s@,
                cur as int,
                metric_views(acc@),
                left as nat,
            ),
        decreases left,
    {
        let (m, p1) = match parse_metric_seg(s, cur) {
            Some(x) => x,
            None => {
                return None;
            },
        };
        let ghost prev_views = metric_views(acc@);
        acc.push(m);
        proof {
            assert(metric_views(acc@) =~= prev_views.push(acc@[acc@.len() - 1]@));
        }
        cur = p1;
        left = left - 1;
    }
    if cur != s.len() {
        return None;
    }
    Some(acc)
}

} // verus!
