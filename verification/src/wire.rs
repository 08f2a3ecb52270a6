//! Shared wire primitives: decimal integer text, JSON string escaping, and
//! strict byte-level scanners, each with the lemma that scanning undoes
//! writing. The three codecs build their formats from these pieces.

use vstd::prelude::*;

verus! {

/// The decimal digits of `n` (most significant first); meaningful for
/// `n >= 0`.
pub open spec fn spec_dec_u64(n: int) -> Seq<u8>
    decreases n,
{
    if n < 10 {
        seq![(48 + n) as u8]
    } else {
        spec_dec_u64(n / 10).push((48 + n % 10) as u8)
    }
}

pub open spec fn is_digit(b: u8) -> bool {
    48 <= b <= 57
}

pub open spec fn all_digits(s: Seq<u8>) -> bool {
    forall|k: int| 0 <= k < s.len() ==> is_digit(s[k])
}

/// The number named by a digit string, most significant digit first.
pub open spec fn spec_digits_val(s: Seq<u8>) -> int
    decreases s.len(),
{
    if s.len() == 0 {
        0
    } else {
        spec_digits_val(s.drop_last()) * 10 + (s.last() - 48)
    }
}

pub open spec fn pow10(k: nat) -> int
    decreases k,
{
    if k == 0 {
        1
    } else {
        10 * pow10((k - 1) as nat)
    }
}

pub proof fn lemma_pow10_pos(k: nat)
    ensures
        pow10(k) >= 1,
    decreases k,
{
    if k > 0 {
        lemma_pow10_pos((k - 1) as nat);
    }
}

/// Decimal digit strings are digits, nonempty, and name their number.
pub proof fn lemma_dec_u64_props(n: int)
    requires
        n >= 0,
    ensures
        all_digits(spec_dec_u64(n)),
        spec_dec_u64(n).len() >= 1,
        spec_digits_val(spec_dec_u64(n)) == n,
    decreases n,
{
    if n < 10 {
        let s0 = spec_dec_u64(n);
        assert(s0 =~= seq![(48 + n) as u8]);
        assert(s0.drop_last() =~= Seq::<u8>::empty());
        assert(spec_digits_val(s0) == spec_digits_val(s0.drop_last()) * 10 + (s0.last() - 48));
        assert(spec_digits_val(s0.drop_last()) == 0);
        assert(s0.last() == (48 + n) as u8);
    } else {
        lemma_dec_u64_props(n / 10);
        let s = spec_dec_u64(n);
        assert(s.drop_last() =~= spec_dec_u64(n / 10));
        assert(s.last() == (48 + n % 10) as u8);
        assert(spec_digits_val(s) == spec_digits_val(s.drop_last()) * 10 + (s.last() - 48));
        vstd::arithmetic::div_mod::lemma_fundamental_div_mod(n, 10);
    }
}

/// Appends the decimal text of `n`.
pub fn push_dec_u64(out: &mut Vec<u8>, n: u64)
    ensures
        final(out)@ == old(out)@ + spec_dec_u64(n as int),
    decreases n,
{
    if n < 10 {
        out.push(48 + (n as u8));
        proof {
            assert(final(out)@ =~= old(out)@ + spec_dec_u64(n as int));
        }
    } else {
        push_dec_u64(out, n / 10);
        out.push(48 + ((n % 10) as u8));
        proof {
            assert(final(out)@ =~= old(out)@ + spec_dec_u64(n as int));
        }
    }
}

/// Scans decimal digits from `pos`, most significant first, onto `acc`;
/// fails on 64-bit overflow, stops at the first non-digit.
pub open spec fn sp_scan_u64(s: Seq<u8>, pos: int, acc: int) -> Option<(u64, int)>
    decreases s.len() - pos,
{
    if pos < s.len() && is_digit(s[pos]) {
        let d = (s[pos] - 48) as int;
        if acc * 10 + d <= u64::MAX {
            sp_scan_u64(s, pos + 1, acc * 10 + d)
        } else {
            None
        }
    } else {
        Some((acc as u64, pos))
    }
}

/// A decimal number at `pos`: at least one digit, value within 64 bits.
pub open spec fn sp_parse_u64(s: Seq<u8>, pos: int) -> Option<(u64, int)> {
    if 0 <= pos < s.len() && is_digit(s[pos]) {
        sp_scan_u64(s, pos, 0)
    } else {
        None
    }
}

proof fn lemma_scan_digits(s: Seq<u8>, pos: int, acc: int, ds: Seq<u8>)
    requires
        0 <= acc,
        0 <= pos,
        all_digits(ds),
        pos + ds.len() <= s.len(),
        s.subrange(pos, pos + ds.len()) == ds,
        pos + ds.len() == s.len() || !is_digit(s[pos + ds.len()]),
        acc * pow10(ds.len()) + spec_digits_val(ds) <= u64::MAX,
    ensures
        sp_scan_u64(s, pos, acc) == Some(
            (((acc * pow10(ds.len()) + spec_digits_val(ds)) as u64), pos + ds.len()),
        ),
    decreases ds.len(),
{
    lemma_digits_val_nonneg(ds);
    if ds.len() == 0 {
        assert(pos == s.len() || !is_digit(s[pos]));
    } else {
        let d0 = ds[0];
        assert(s[pos] == d0);
        assert(is_digit(d0));
        let rest = ds.drop_first();
        let a = (d0 - 48) as int;
        let k = rest.len();
        lemma_pow10_pos(k);
        lemma_digits_val_nonneg(rest);
        lemma_val_first(ds);
        // spec_digits_val(ds) == a * pow10(k) + spec_digits_val(rest)
        let acc2 = acc * 10 + a;
        assert(acc2 * pow10(k) + spec_digits_val(rest) == acc * pow10(ds.len())
            + spec_digits_val(ds)) by {
            assert(pow10(ds.len()) == 10 * pow10(k));
            assert((acc * 10 + a) * pow10(k) == acc * (10 * pow10(k)) + a * pow10(k))
                by (nonlinear_arith);
        }
        assert(acc2 <= acc2 * pow10(k) + spec_digits_val(rest)) by {
            assert(acc2 <= acc2 * pow10(k)) by (nonlinear_arith)
                requires
                    acc2 >= 0,
                    pow10(k) >= 1,
            ;
        }
        assert(s.subrange(pos + 1, pos + ds.len()) =~= rest);
        lemma_scan_digits(s, pos + 1, acc2, rest);
    }
}

proof fn lemma_digits_val_nonneg(ds: Seq<u8>)
    requires
        all_digits(ds),
    ensures
        spec_digits_val(ds) >= 0,
    decreases ds.len(),
{
    if ds.len() > 0 {
        assert(all_digits(ds.drop_last()));
        lemma_digits_val_nonneg(ds.drop_last());
    }
}

#[verifier::spinoff_prover]
proof fn lemma_val_first(ds: Seq<u8>)
    requires
        ds.len() > 0,
        all_digits(ds),
    ensures
        spec_digits_val(ds) == (ds[0] - 48) * pow10((ds.len() - 1) as nat) + spec_digits_val(
            ds.drop_first(),
        ),
    decreases ds.len(),
{
    if ds.len() == 1 {
        assert(ds.drop_last() =~= Seq::<u8>::empty());
        assert(ds.drop_first() =~= Seq::<u8>::empty());
    } else {
        let a = (ds[0] - 48) as int;
        let k = (ds.len() - 2) as nat;
        let ddl = ds.drop_last();
        let dfl = ds.drop_first();
        assert(all_digits(ddl));
        lemma_val_first(ddl);
        assert(ddl[0] == ds[0]);
        assert(ddl.drop_first() =~= dfl.drop_last());
        assert(dfl.last() == ds.last());
        assert(spec_digits_val(ds) == spec_digits_val(ddl) * 10 + (ds.last() - 48));
        assert(spec_digits_val(dfl) == spec_digits_val(dfl.drop_last()) * 10 + (dfl.last()
            - 48));
        let vtail = spec_digits_val(dfl.drop_last());
        assert(spec_digits_val(ddl) == a * pow10(k) + vtail);
        assert(pow10((ds.len() - 1) as nat) == 10 * pow10(k));
        assert(spec_digits_val(ds) == (a * pow10(k) + vtail) * 10 + (ds.last() - 48));
        assert((a * pow10(k) + vtail) * 10 == a * (10 * pow10(k)) + vtail * 10)
            by (nonlinear_arith);
        assert(spec_digits_val(ds) == a * (10 * pow10(k)) + (vtail * 10 + (dfl.last() - 48)));
    }
}

/// Scanning the decimal text of `n` (with no digit after it) yields `n`.
pub proof fn lemma_parse_dec_u64(s: Seq<u8>, pos: int, n: u64)
    requires
        0 <= pos,
        pos + spec_dec_u64(n as int).len() <= s.len(),
        s.subrange(pos, pos + spec_dec_u64(n as int).len()) == spec_dec_u64(n as int),
        pos + spec_dec_u64(n as int).len() == s.len() || !is_digit(
            s[pos + spec_dec_u64(n as int).len()],
        ),
    ensures
        sp_parse_u64(s, pos) == Some((n, pos + spec_dec_u64(n as int).len())),
{
    lemma_dec_u64_props(n as int);
    let ds = spec_dec_u64(n as int);
    assert(s[pos] == ds[0]);
    lemma_scan_digits(s, pos, 0, ds);
}

/// Scans a decimal number at `pos`; the strict mirror of `sp_parse_u64`.
pub fn parse_u64(s: &Vec<u8>, pos: usize) -> (r: Option<(u64, usize)>)
    requires
        pos <= s@.len(),
    ensures
        match r {
            Some((n, p2)) => sp_parse_u64(s@, pos as int) == Some((n, p2 as int)) && pos < p2
                <= s@.len(),
            None => sp_parse_u64(s@, pos as int) is None,
        },
{
    if pos >= s.len() || !(48 <= s[pos] && s[pos] <= 57) {
        return None;
    }
    let mut acc: u64 = 0;
    let mut i: usize = pos;
    while i < s.len() && 48 <= s[i] && s[i] <= 57
        invariant
            pos <= i <= s@.len(),
            sp_scan_u64(s@, pos as int, 0) == sp_scan_u64(s@, i as int, acc as int),
        decreases s@.len() - i,
    {
        let d = (s[i] - 48) as u64;
        let wide: u128 = acc as u128 * 10 + d as u128;
        if wide > u64::MAX as u128 {
            return None;
        }
        acc = acc * 10 + d;
        i += 1;
    }
    Some((acc, i))
}



/// One byte of a matched literal: if `lit` stands at `pos`, each of its
/// bytes stands at its offset.
pub proof fn lemma_match_at(s: Seq<u8>, pos: int, lit: Seq<u8>, k: int)
    requires
        0 <= pos,
        pos + lit.len() <= s.len(),
        s.subrange(pos, pos + lit.len()) == lit,
        0 <= k < lit.len(),
    ensures
        s[pos + k] == lit[k],
{
    assert(s.subrange(pos, pos + lit.len())[k] == s[pos + k]);
}

/// Splitting a matched concatenation: if `a + b` stands at `pos`, then `a`
/// stands at `pos` and `b` right after it.
pub proof fn lemma_prefix_split(s: Seq<u8>, pos: int, a: Seq<u8>, b: Seq<u8>)
    requires
        0 <= pos,
        pos + a.len() + b.len() <= s.len(),
        s.subrange(pos, pos + a.len() + b.len()) == a + b,
    ensures
        s.subrange(pos, pos + a.len()) == a,
        s.subrange(pos + a.len(), pos + a.len() + b.len()) == b,
{
    let whole = s.subrange(pos, pos + a.len() + b.len());
    assert forall|k: int| 0 <= k < a.len() implies s.subrange(pos, pos + a.len())[k] == a[k] by {
        assert(whole[k] == s[pos + k]);
        assert(s.subrange(pos, pos + a.len())[k] == s[pos + k]);
        assert((a + b)[k] == a[k]);
    }
    assert(s.subrange(pos, pos + a.len()) =~= a);
    assert forall|k: int|
        0 <= k < b.len() implies s.subrange(pos + a.len(), pos + a.len() + b.len())[k] == b[k] by {
        assert(whole[a.len() + k] == s[pos + a.len() + k]);
        assert(s.subrange(pos + a.len(), pos + a.len() + b.len())[k] == s[pos + a.len() + k]);
        assert((a + b)[a.len() + k] == b[k]);
    }
    assert(s.subrange(pos + a.len(), pos + a.len() + b.len()) =~= b);
}

/// The decimal text of a signed value: a minus sign before the digits of
/// the magnitude.
pub open spec fn spec_dec_i64(v: int) -> Seq<u8> {
    if v < 0 {
        seq![45u8] + spec_dec_u64(-v)
    } else {
        spec_dec_u64(v)
    }
}

/// Appends the decimal text of the signed value `n`.
pub fn push_dec_i64(out: &mut Vec<u8>, n: i64)
    ensures
        final(out)@ == old(out)@ + spec_dec_i64(n as int),
{
    if n < 0 {
        out.push(45);
        let mag: u64 = (-(n as i128)) as u64;
        push_dec_u64(out, mag);
        proof {
            assert(mag as int == -(n as int));
            assert(final(out)@ =~= old(out)@ + spec_dec_i64(n as int));
        }
    } else {
        push_dec_u64(out, n as u64);
    }
}

/// A decimal signed number at `pos`: an optional minus sign, then digits,
/// within the signed 64-bit range.
pub open spec fn sp_parse_i64(s: Seq<u8>, pos: int) -> Option<(i64, int)> {
    if 0 <= pos < s.len() && s[pos] == 45 {
        match sp_parse_u64(s, pos + 1) {
            Some((mag, p2)) => if mag <= 0x8000_0000_0000_0000u64 {
                Some(((-(mag as int)) as i64, p2))
            } else {
                None
            },
            None => None,
        }
    } else {
        match sp_parse_u64(s, pos) {
            Some((mag, p2)) => if mag <= i64::MAX as u64 {
                Some((mag as i64, p2))
            } else {
                None
            },
            None => None,
        }
    }
}

/// Scans a signed decimal number; the strict mirror of `sp_parse_i64`.
pub fn parse_i64(s: &Vec<u8>, pos: usize) -> (r: Option<(i64, usize)>)
    requires
        pos <= s@.len(),
    ensures
        match r {
            Some((v, p2)) => sp_parse_i64(s@, pos as int) == Some((v, p2 as int)) && pos < p2
                <= s@.len(),
            None => sp_parse_i64(s@, pos as int) is None,
        },
{
    if pos < s.len() && s[pos] == 45 {
        match parse_u64(s, pos + 1) {
            Some((mag, p2)) => {
                if mag <= 0x8000_0000_0000_0000u64 {
                    let v = (-(mag as i128)) as i64;
                    proof {
                        assert(v as int == -(mag as int));
                    }
                    Some((v, p2))
                } else {
                    None
                }
            },
            None => None,
        }
    } else {
        match parse_u64(s, pos) {
            Some((mag, p2)) => {
                if mag <= i64::MAX as u64 {
                    Some((mag as i64, p2))
                } else {
                    None
                }
            },
            None => None,
        }
    }
}

/// Scanning the decimal text of the signed value `v` (with no digit after
/// it) yields `v`.
pub proof fn lemma_parse_dec_i64(s: Seq<u8>, pos: int, v: i64)
    requires
        0 <= pos,
        pos + spec_dec_i64(v as int).len() <= s.len(),
        s.subrange(pos, pos + spec_dec_i64(v as int).len()) == spec_dec_i64(v as int),
        pos + spec_dec_i64(v as int).len() == s.len() || !is_digit(
            s[pos + spec_dec_i64(v as int).len()],
        ),
    ensures
        sp_parse_i64(s, pos) == Some((v, pos + spec_dec_i64(v as int).len())),
{
    let ds = spec_dec_i64(v as int);
    if v < 0 {
        let mag = (-(v as int)) as u64;
        assert(mag as int == -(v as int));
        lemma_dec_u64_props(mag as int);
        let md = spec_dec_u64(mag as int);
        assert(ds =~= seq![45u8] + md);
        lemma_prefix_split(s, pos, seq![45u8], md);
        lemma_match_at(s, pos, seq![45u8], 0);
        assert(s[pos] == 45);
        lemma_parse_dec_u64(s, pos + 1, mag);
        assert((-(mag as int)) as i64 == v);
    } else {
        let mag = v as u64;
        lemma_dec_u64_props(mag as int);
        assert(s.subrange(pos, pos + ds.len()) == spec_dec_u64(mag as int));
        assert(s[pos] == spec_dec_u64(mag as int)[0]);
        assert(is_digit(s[pos]));
        lemma_parse_dec_u64(s, pos, mag);
    }
}

/// The lower-case hexadecimal digit for a value below 16.
pub open spec fn hex_digit(v: int) -> u8 {
    if v < 10 {
        (48 + v) as u8
    } else {
        (87 + v) as u8
    }
}

pub open spec fn is_hex_lower(b: u8) -> bool {
    is_digit(b) || (97 <= b <= 102)
}

pub open spec fn hex_val(b: u8) -> int {
    if b <= 57 {
        b - 48
    } else {
        b - 87
    }
}

/// How one byte of string content is written: quote and backslash get a
/// backslash escape, control bytes a `\u00xx` escape, all else stands as is.
pub open spec fn esc_byte(b: u8) -> Seq<u8> {
    if b == 34 {
        seq![92u8, 34u8]
    } else if b == 92 {
        seq![92u8, 92u8]
    } else if b < 32 {
        seq![92u8, 117u8, 48u8, 48u8, hex_digit(b as int / 16), hex_digit(b as int % 16)]
    } else {
        seq![b]
    }
}

/// The escaped form of a whole byte string.
pub open spec fn esc_bytes(s: Seq<u8>) -> Seq<u8>
    decreases s.len(),
{
    if s.len() == 0 {
        Seq::empty()
    } else {
        esc_bytes(s.drop_last()) + esc_byte(s.last())
    }
}

proof fn lemma_esc_first(s: Seq<u8>)
    requires
        s.len() > 0,
    ensures
        esc_bytes(s) == esc_byte(s[0]) + esc_bytes(s.drop_first()),
    decreases s.len(),
{
    if s.len() == 1 {
        assert(s.drop_last() =~= Seq::<u8>::empty());
        assert(s.drop_first() =~= Seq::<u8>::empty());
        assert(esc_bytes(s) =~= esc_byte(s[0]) + esc_bytes(s.drop_first()));
    } else {
        let dl = s.drop_last();
        lemma_esc_first(dl);
        assert(dl.drop_first() =~= s.drop_first().drop_last());
        assert(s.drop_first().last() == s.last());
        assert(dl[0] == s[0]);
        assert(esc_bytes(s) == (esc_byte(s[0]) + esc_bytes(dl.drop_first())) + esc_byte(s.last()));
        assert((esc_byte(s[0]) + esc_bytes(dl.drop_first())) + esc_byte(s.last()) =~= esc_byte(
            s[0],
        ) + (esc_bytes(dl.drop_first()) + esc_byte(s.last())));
        assert(esc_bytes(s.drop_first()) == esc_bytes(s.drop_first().drop_last()) + esc_byte(
            s.drop_first().last(),
        ));
    }
}

/// A quoted JSON string: the escaped UTF-8 bytes of `chars` between quotes.
pub open spec fn spec_json_string(chars: Seq<char>) -> Seq<u8> {
    seq![34u8] + esc_bytes(vstd::utf8::encode_utf8(chars)) + seq![34u8]
}

/// Appends the quoted, escaped JSON form of `s`.
pub fn push_json_string(out: &mut Vec<u8>, s: &str)
    ensures
        final(out)@ == old(out)@ + spec_json_string(s@),
{
    out.push(34);
    let bytes = s.as_bytes_vec();
    let n = bytes.len();
    let mut i: usize = 0;
    while i < n
        invariant
            n == bytes@.len(),
            0 <= i <= n,
            bytes@ == vstd::utf8::encode_utf8(s@),
            out@ == old(out)@ + seq![34u8] + esc_bytes(bytes@.take(i as int)),
        decreases n - i,
    {
        let ghost pre = out@;
        let b = bytes[i];
        if b == 34 {
            out.push(92);
            out.push(34);
        } else if b == 92 {
            out.push(92);
            out.push(92);
        } else if b < 32 {
            out.push(92);
            out.push(117);
            out.push(48);
            out.push(48);
            if b / 16 < 10 {
                out.push(48 + b / 16);
            } else {
                out.push(87 + b / 16);
            }
            if b % 16 < 10 {
                out.push(48 + b % 16);
            } else {
                out.push(87 + b % 16);
            }
        } else {
            out.push(b);
        }
        proof {
            assert(out@ =~= pre + esc_byte(bytes@[i as int]));
            assert(bytes@.take(i + 1).drop_last() =~= bytes@.take(i as int));
            assert(bytes@.take(i + 1).last() == bytes@[i as int]);
            assert(out@ =~= old(out)@ + seq![34u8] + esc_bytes(bytes@.take(i + 1)));
        }
        i += 1;
    }
    out.push(34);
    proof {
        assert(bytes@.take(n as int) =~= bytes@);
        assert(final(out)@ =~= old(out)@ + spec_json_string(s@));
    }
}

/// Scans quoted-string content from `pos` until the closing quote,
/// undoing the escapes `esc_byte` writes; yields the raw bytes and the
/// position after the quote.
pub open spec fn sp_scan_string(s: Seq<u8>, pos: int, acc: Seq<u8>) -> Option<(Seq<u8>, int)>
    decreases s.len() - pos,
{
    if pos < 0 || pos >= s.len() {
        None
    } else if s[pos] == 34 {
        Some((acc, pos + 1))
    } else if s[pos] == 92 {
        if pos + 1 >= s.len() {
            None
        } else if s[pos + 1] == 34 || s[pos + 1] == 92 {
            sp_scan_string(s, pos + 2, acc.push(s[pos + 1]))
        } else if s[pos + 1] == 117 {
            if pos + 5 >= s.len() {
                None
            } else if s[pos + 2] == 48 && s[pos + 3] == 48 && is_hex_lower(s[pos + 4])
                && is_hex_lower(s[pos + 5]) {
                sp_scan_string(
                    s,
                    pos + 6,
                    acc.push((hex_val(s[pos + 4]) * 16 + hex_val(s[pos + 5])) as u8),
                )
            } else {
                None
            }
        } else {
            None
        }
    } else {
        sp_scan_string(s, pos + 1, acc.push(s[pos]))
    }
}

/// Scans quoted-string content; the strict mirror of `sp_scan_string`.
pub fn scan_string(s: &Vec<u8>, pos: usize) -> (r: Option<(Vec<u8>, usize)>)
    requires
        pos <= s@.len(),
    ensures
        match r {
            Some((bs, p2)) => sp_scan_string(s@, pos as int, Seq::empty()) == Some(
                (bs@, p2 as int),
            ) && pos < p2 <= s@.len(),
            None => sp_scan_string(s@, pos as int, Seq::empty()) is None,
        },
{
    let mut acc: Vec<u8> = Vec::new();
    let mut i: usize = pos;
    loop
        invariant
            pos <= i <= s@.len(),
            sp_scan_string(s@, pos as int, Seq::empty()) == sp_scan_string(
                s@,
                i as int,
                acc@,
            ),
        decreases s@.len() - i,
    {
        if i >= s.len() {
            return None;
        }
        let b = s[i];
        if b == 34 {
            return Some((acc, i + 1));
        } else if b == 92 {
            if i + 1 >= s.len() {
                return None;
            }
            let e = s[i + 1];
            if e == 34 || e == 92 {
                acc.push(e);
                i = i + 2;
            } else if e == 117 {
                if s.len() - i < 6 {
                    return None;
                }
                let h1 = s[i + 4];
                let h2 = s[i + 5];
                let h1_ok = (48 <= h1 && h1 <= 57) || (97 <= h1 && h1 <= 102);
                let h2_ok = (48 <= h2 && h2 <= 57) || (97 <= h2 && h2 <= 102);
                if s[i + 2] == 48 && s[i + 3] == 48 && h1_ok && h2_ok {
                    let v1: u8 = if h1 <= 57 {
                        h1 - 48
                    } else {
                        h1 - 87
                    };
                    let v2: u8 = if h2 <= 57 {
                        h2 - 48
                    } else {
                        h2 - 87
                    };
                    acc.push(v1 * 16 + v2);
                    i = i + 6;
                } else {
                    return None;
                }
            } else {
                return None;
            }
        } else {
            acc.push(b);
            i = i + 1;
        }
    }
}

/// Scanning the escaped form of `bs` followed by a closing quote yields
/// `bs` exactly.
pub proof fn lemma_scan_esc(s: Seq<u8>, pos: int, acc: Seq<u8>, bs: Seq<u8>)
    requires
        0 <= pos,
        pos + esc_bytes(bs).len() < s.len(),
        s.subrange(pos, pos + esc_bytes(bs).len()) == esc_bytes(bs),
        s[pos + esc_bytes(bs).len()] == 34,
    ensures
        sp_scan_string(s, pos, acc) == Some((acc + bs, pos + esc_bytes(bs).len() + 1)),
    decreases bs.len(),
{
    if bs.len() == 0 {
        assert(esc_bytes(bs).len() == 0);
        assert(s[pos] == 34);
        assert(acc + bs =~= acc);
    } else {
        let b0 = bs[0];
        let rest = bs.drop_first();
        lemma_esc_first(bs);
        let e0 = esc_byte(b0);
        let etail = esc_bytes(rest);
        assert(esc_bytes(bs).len() == e0.len() + etail.len());
        lemma_prefix_split(s, pos, e0, etail);
        if b0 == 34 {
            lemma_match_at(s, pos, e0, 0);
            lemma_match_at(s, pos, e0, 1);
            assert(s[pos + 0] == 92 && s[pos + 1] == 34);
            assert(s[pos] == 92);
            lemma_scan_esc(s, pos + 2, acc.push(b0), rest);
            assert(acc.push(b0) + rest =~= acc + bs);
        } else if b0 == 92 {
            lemma_match_at(s, pos, e0, 0);
            lemma_match_at(s, pos, e0, 1);
            assert(s[pos + 0] == 92 && s[pos + 1] == 92);
            assert(s[pos] == 92);
            lemma_scan_esc(s, pos + 2, acc.push(b0), rest);
            assert(acc.push(b0) + rest =~= acc + bs);
        } else if b0 < 32 {
            lemma_match_at(s, pos, e0, 0);
            lemma_match_at(s, pos, e0, 1);
            lemma_match_at(s, pos, e0, 2);
            lemma_match_at(s, pos, e0, 3);
            lemma_match_at(s, pos, e0, 4);
            lemma_match_at(s, pos, e0, 5);
            assert(s[pos] == 92);
            assert(s[pos + 1] == 117 && s[pos + 2] == 48 && s[pos + 3] == 48);
            let hi = b0 as int / 16;
            let lo = b0 as int % 16;
            assert(s[pos + 4] == hex_digit(hi) && s[pos + 5] == hex_digit(lo));
            assert(0 <= hi < 2 && 0 <= lo < 16);
            assert(is_hex_lower(hex_digit(hi)) && is_hex_lower(hex_digit(lo)));
            assert(hex_val(hex_digit(hi)) == hi && hex_val(hex_digit(lo)) == lo);
            assert((hex_val(s[pos + 4]) * 16 + hex_val(s[pos + 5])) as u8 == b0) by {
                vstd::arithmetic::div_mod::lemma_fundamental_div_mod(b0 as int, 16);
            }
            lemma_scan_esc(s, pos + 6, acc.push(b0), rest);
            assert(acc.push(b0) + rest =~= acc + bs);
        } else {
            lemma_match_at(s, pos, e0, 0);
            assert(s[pos + 0] == b0);
            assert(s[pos] == b0);
            assert(b0 != 34 && b0 != 92);
            lemma_scan_esc(s, pos + 1, acc.push(b0), rest);
            assert(acc.push(b0) + rest =~= acc + bs);
        }
    }
}

/// Whether the bytes of `lit` stand at `pos`; yields the position after.
pub open spec fn sp_expect(s: Seq<u8>, pos: int, lit: Seq<u8>) -> Option<int> {
    if 0 <= pos && pos + lit.len() <= s.len() && s.subrange(pos, pos + lit.len()) == lit {
        Some(pos + lit.len())
    } else {
        None
    }
}

/// Matches the literal bytes `lit` at `pos`; the strict mirror of
/// `sp_expect`.
pub fn expect_bytes(s: &Vec<u8>, pos: usize, lit: &Vec<u8>) -> (r: Option<usize>)
    requires
        pos <= s@.len(),
    ensures
        match r {
            Some(p2) => sp_expect(s@, pos as int, lit@) == Some(p2 as int) && p2 as int == pos
                + lit@.len() && p2 <= s@.len(),
            None => sp_expect(s@, pos as int, lit@) is None,
        },
{
    if s.len() - pos < lit.len() {
        return None;
    }
    let sl = s.len();
    let n = lit.len();
    let mut k: usize = 0;
    while k < n
        invariant
            n == lit@.len(),
            sl == s@.len(),
            pos + n <= sl,
            0 <= k <= n,
            forall|j: int| 0 <= j < k ==> s@[pos + j] == lit@[j],
        decreases n - k,
    {
        if s[pos + k] != lit[k] {
            proof {
                assert(s@.subrange(pos as int, pos + lit@.len())[k as int] == s@[pos + k]);
            }
            return None;
        }
        k += 1;
    }
    proof {
        assert(s@.subrange(pos as int, pos + lit@.len()) =~= lit@);
    }
    Some(pos + n)
}

/// Appends all of `bs`.
pub fn push_bytes(out: &mut Vec<u8>, bs: &Vec<u8>)
    ensures
        final(out)@ == old(out)@ + bs@,
{
    let n = bs.len();
    let mut i: usize = 0;
    while i < n
        invariant
            n == bs@.len(),
            0 <= i <= n,
            out@ == old(out)@ + bs@.take(i as int),
        decreases n - i,
    {
        out.push(bs[i]);
        proof {
            assert(out@ =~= old(out)@ + bs@.take(i + 1));
        }
        i += 1;
    }
    proof {
        assert(bs@.take(n as int) =~= bs@);
    }
}

/// Relies on String::from_utf8: it succeeds exactly on valid UTF-8 input
/// and returns the string those bytes encode.
#[verifier::external_body]
pub(crate) fn string_from_utf8(v: Vec<u8>) -> (r: Option<String>)
    ensures
        r is Some <==> vstd::utf8::valid_utf8(v@),
        r matches Some(st) ==> st@ == vstd::utf8::decode_utf8(v@),
{
    String::from_utf8(v).ok()
}


/// A little-endian 64-bit value at `pos`.
pub open spec fn sp_read_u64le(s: Seq<u8>, pos: int) -> Option<(u64, int)> {
    if 0 <= pos && pos + 8 <= s.len() {
        Some((vstd::bytes::spec_u64_from_le_bytes(s.subrange(pos, pos + 8)), pos + 8))
    } else {
        None
    }
}

/// Reads a little-endian 64-bit value; the strict mirror of
/// `sp_read_u64le`.
pub fn read_u64le(s: &Vec<u8>, pos: usize) -> (r: Option<(u64, usize)>)
    requires
        pos <= s@.len(),
    ensures
        match r {
            Some((x, p2)) => sp_read_u64le(s@, pos as int) == Some((x, p2 as int)) && p2 as int
                == pos + 8 && p2 <= s@.len(),
            None => sp_read_u64le(s@, pos as int) is None,
        },
{
    if s.len() - pos < 8 {
        return None;
    }
    let sl = vstd::slice::slice_subrange(s.as_slice(), pos, pos + 8);
    let x = vstd::bytes::u64_from_le_bytes(sl);
    Some((x, pos + 8))
}

/// A little-endian 32-bit value at `pos`.
pub open spec fn sp_read_u32le(s: Seq<u8>, pos: int) -> Option<(u32, int)> {
    if 0 <= pos && pos + 4 <= s.len() {
        Some((vstd::bytes::spec_u32_from_le_bytes(s.subrange(pos, pos + 4)), pos + 4))
    } else {
        None
    }
}

/// Reads a little-endian 32-bit value; the strict mirror of
/// `sp_read_u32le`.
pub fn read_u32le(s: &Vec<u8>, pos: usize) -> (r: Option<(u32, usize)>)
    requires
        pos <= s@.len(),
    ensures
        match r {
            Some((x, p2)) => sp_read_u32le(s@, pos as int) == Some((x, p2 as int)) && p2 as int
                == pos + 4 && p2 <= s@.len(),
            None => sp_read_u32le(s@, pos as int) is None,
        },
{
    if s.len() - pos < 4 {
        return None;
    }
    let sl = vstd::slice::slice_subrange(s.as_slice(), pos, pos + 4);
    let x = vstd::bytes::u32_from_le_bytes(sl);
    Some((x, pos + 4))
}

/// Appends the little-endian bytes of a 64-bit value.
pub fn push_u64le(out: &mut Vec<u8>, x: u64)
    ensures
        final(out)@ == old(out)@ + vstd::bytes::spec_u64_to_le_bytes(x),
{
    let b = vstd::bytes::u64_to_le_bytes(x);
    push_bytes(out, &b);
}

/// Appends the little-endian bytes of a 32-bit value.
pub fn push_u32le(out: &mut Vec<u8>, x: u32)
    ensures
        final(out)@ == old(out)@ + vstd::bytes::spec_u32_to_le_bytes(x),
{
    let b = vstd::bytes::u32_to_le_bytes(x);
    push_bytes(out, &b);
}

/// Reading the little-endian bytes of `x` yields `x`.
pub proof fn lemma_read_u64le_rt(s: Seq<u8>, pos: int, x: u64)
    requires
        0 <= pos,
        pos + 8 <= s.len(),
        s.subrange(pos, pos + 8) == vstd::bytes::spec_u64_to_le_bytes(x),
    ensures
        sp_read_u64le(s, pos) == Some((x, pos + 8)),
{
    vstd::bytes::lemma_auto_spec_u64_to_from_le_bytes();
}

/// Reading the little-endian bytes of `x` yields `x`.
pub proof fn lemma_read_u32le_rt(s: Seq<u8>, pos: int, x: u32)
    requires
        0 <= pos,
        pos + 4 <= s.len(),
        s.subrange(pos, pos + 4) == vstd::bytes::spec_u32_to_le_bytes(x),
    ensures
        sp_read_u32le(s, pos) == Some((x, pos + 4)),
{
    vstd::bytes::lemma_auto_spec_u32_to_from_le_bytes();
    assert(vstd::bytes::spec_u32_to_le_bytes(x).len() == 4);
    assert(vstd::bytes::spec_u32_from_le_bytes(vstd::bytes::spec_u32_to_le_bytes(x)) == x);
}

/// The little-endian bytes of both widths have their fixed lengths.
pub proof fn lemma_le_lens()
    ensures
        forall|x: u64| (#[trigger] vstd::bytes::spec_u64_to_le_bytes(x)).len() == 8,
        forall|x: u32| (#[trigger] vstd::bytes::spec_u32_to_le_bytes(x)).len() == 4,
{
    vstd::bytes::lemma_auto_spec_u64_to_from_le_bytes();
    vstd::bytes::lemma_auto_spec_u32_to_from_le_bytes();
}

/// A signed 64-bit value and its two's-complement bit pattern name each
/// other.
pub proof fn lemma_i64_bits(x: i64)
    ensures
        ((x as u64) as i64) == x,
{
    assert(((x as u64) as i64) == x) by (bit_vector);
}

/// `n` raw bytes at `pos`.
pub open spec fn sp_read_bytes(s: Seq<u8>, pos: int, n: int) -> Option<(Seq<u8>, int)> {
    if 0 <= pos && 0 <= n && pos + n <= s.len() {
        Some((s.subrange(pos, pos + n), pos + n))
    } else {
        None
    }
}

/// Reads `n` raw bytes; the strict mirror of `sp_read_bytes`.
pub fn read_bytes(s: &Vec<u8>, pos: usize, n: usize) -> (r: Option<(Vec<u8>, usize)>)
    requires
        pos <= s@.len(),
    ensures
        match r {
            Some((bs, p2)) => sp_read_bytes(s@, pos as int, n as int) == Some((bs@, p2 as int))
                && p2 as int == pos + n && p2 <= s@.len(),
            None => sp_read_bytes(s@, pos as int, n as int) is None,
        },
{
    if s.len() - pos < n {
        return None;
    }
    let sl = vstd::slice::slice_subrange(s.as_slice(), pos, pos + n);
    let out = vstd::slice::slice_to_vec(sl);
    Some((out, pos + n))
}

} // verus!
