//! What the AIS encoder and decoder promise of each other: a simulated
//! report, encoded and read back, yields the fields that were put in (each
//! kept to the width of its field), and the sentence the simulator sends is
//! accepted by the ingest parser.
use vstd::prelude::*;
use crate::ais::{AisPositionReport, char_bits, decode_bits, decode_payload, heading_of, payload_bits, raw_bits, sixbit, lemma_raw_bits_len};
use crate::bits::{bit_at, field, lemma_p2_pos, lemma_p2_values, p2, signed_field, to_signed};
use crate::text::{
    trim, lead_ws, trail_ws, split, join, sep_free, lemma_split_join, lemma_split_append,
    lemma_split_sep_free, parse_unsigned, digits_value, is_ws,
};
use crate::encode::{aivdm_sentence, sentence_body, hex2, nmea_checksum_of, ascii_bytes};
use crate::encode::{
    PositionFix, armour, armour_char, as_unsigned64, binary, bit_of, chunk, chunk_count,
    chunk_value, lemma_chunk_pad, lemma_full_chunk_value, lemma_report_bits_binary, report_bits, write_spec,
};

verus! {

/// The cells of a bit buffer read as booleans.
pub open spec fn bools(bits: Seq<u8>) -> Seq<bool> {
    bits.map_values(|b: u8| b == 1)
}

proof fn lemma_chunk_roundtrip(c: Seq<u8>)
    requires
        c.len() == 6,
        binary(c),
    ensures
        char_bits(armour_char(chunk_value(c))) == bools(c),
{
    lemma_full_chunk_value(c);
    let v = chunk_value(c);
    assert(v <= 63);
    assert(sixbit(armour_char(v)) == v as int);
    let cb = char_bits(armour_char(v));
    assert(c[0] <= 1 && c[1] <= 1 && c[2] <= 1 && c[3] <= 1 && c[4] <= 1 && c[5] <= 1);
    assert(cb =~= bools(c));
}

proof fn lemma_armour_raw_bits(bits: Seq<u8>)
    requires
        binary(bits),
        bits.len() % 6 == 0,
    ensures
        raw_bits(armour(bits)) == bools(bits),
    decreases bits.len(),
{
    if bits.len() == 0 {
        assert(armour(bits) =~= Seq::<char>::empty());
        assert(bools(bits) =~= Seq::<bool>::empty());
    } else {
        let n = bits.len() as int;
        let front = bits.take(n - 6);
        let last = bits.subrange(n - 6, n);
        assert(binary(front));
        assert(binary(last));
        lemma_armour_raw_bits(front);
        let a = armour(bits);
        assert(a.drop_last() =~= armour(front)) by {
            assert forall|k: int| 0 <= k < a.drop_last().len() implies a.drop_last()[k] == armour(
                front,
            )[k] by {
                assert(chunk(bits, k) =~= chunk(front, k));
            }
        }
        assert(chunk(bits, n / 6 - 1) =~= last);
        lemma_chunk_roundtrip(last);
        assert(bools(bits) =~= bools(front) + bools(last));
    }
}


/// The `len` bits at `off` read back the low `len` bits of `v` when they
/// hold them, most significant first.
pub proof fn lemma_field_written(bs: Seq<bool>, off: int, len: nat, v: int)
    requires
        v >= 0,
        0 <= off,
        off + len <= bs.len(),
        forall|j: int| off <= j < off + len ==> #[trigger] bs[j] == (bit_of(v, (off + len - 1 - j) as nat) == 1),
    ensures
        field(bs, off, len) == v % p2(len) as int,
    decreases len,
{
    if len == 0 {
        lemma_p2_values();
    } else {
        let k = (len - 1) as nat;
        lemma_p2_pos(k);
        assert forall|j: int| off <= j < off + k implies #[trigger] bs[j] == (bit_of(
            v / 2,
            (off + k - 1 - j) as nat,
        ) == 1) by {
            let e = (off + k - 1 - j) as nat;
            lemma_p2_pos(e);
            assert(p2((e + 1) as nat) == 2 * p2(e));
            vstd::arithmetic::div_mod::lemma_div_denominator(v, 2, p2(e) as int);
            assert(bit_of(v, (off + len - 1 - j) as nat) == bit_of(v / 2, e));
        }
        lemma_field_written(bs, off, k, v / 2);
        assert(bit_at(bs, off + len - 1) == (v % 2 == 1)) by {
            assert(bs[off + len - 1] == (bit_of(v, 0) == 1));
            lemma_p2_values();
        }
        vstd::arithmetic::div_mod::lemma_mod_breakdown(v, 2, p2(k) as int);
        assert(p2(len) == 2 * p2(k));
    }
}


/// The low `len` bits of `v` read as a two's-complement value.
pub open spec fn wrap_signed(v: int, len: nat) -> int {
    to_signed((v % p2(len) as int) as nat, len)
}

/// The report that decoding a simulated fix yields: each quantity keeps the
/// low bits of its field (30 for the MMSI, 10 for speed, 28 and 27 for the
/// coordinates, 12 for course, 9 for heading), the message is of type 1 with
/// navigational status 0, the rate of turn is "not available" and the
/// position accuracy flag is set.
pub open spec fn fix_report(f: PositionFix) -> AisPositionReport {
    AisPositionReport {
        mmsi: (f.mmsi as int % 0x4000_0000) as u32,
        msg_type: 1,
        nav_status: 0,
        rot: None,
        sog: (f.sog as int % 1024) as u16,
        lon: wrap_signed(f.lon as int, 28) as i32,
        lat: wrap_signed(f.lat as int, 27) as i32,
        cog: (f.cog as int % 4096) as u16,
        heading: heading_of((f.heading as int % 512) as u16),
        position_acc: true,
    }
}

proof fn lemma_report_bit(f: PositionFix, j: int)
    requires
        0 <= j < 168,
    ensures
        report_bits(f)[j] == (if 0 <= j < 6 {
            bit_of(1, (5 - j) as nat)
        } else if 6 <= j < 8 {
            bit_of(0, (7 - j) as nat)
        } else if 8 <= j < 38 {
            bit_of(f.mmsi as int, (37 - j) as nat)
        } else if 38 <= j < 42 {
            bit_of(0, (41 - j) as nat)
        } else if 42 <= j < 50 {
            bit_of(as_unsigned64(-128), (49 - j) as nat)
        } else if 50 <= j < 60 {
            bit_of(f.sog as int, (59 - j) as nat)
        } else if j == 60 {
            bit_of(1, 0)
        } else if 61 <= j < 89 {
            bit_of(as_unsigned64(f.lon as int), (88 - j) as nat)
        } else if 89 <= j < 116 {
            bit_of(as_unsigned64(f.lat as int), (115 - j) as nat)
        } else if 116 <= j < 128 {
            bit_of(f.cog as int, (127 - j) as nat)
        } else if 128 <= j < 137 {
            bit_of(f.heading as int, (136 - j) as nat)
        } else {
            0u8
        }),
{
}

proof fn lemma_read_field(f: PositionFix, off: int, len: nat, v: int)
    requires
        v >= 0,
        0 <= off,
        off + len <= 168,
        forall|j: int| off <= j < off + len ==> #[trigger] report_bits(f)[j] == bit_of(v, (off + len - 1 - j) as nat),
    ensures
        field(bools(report_bits(f)), off, len) == v % p2(len) as int,
{
    lemma_report_bits_binary(f);
    let bs = bools(report_bits(f));
    assert forall|j: int| off <= j < off + len implies #[trigger] bs[j] == (bit_of(
        v,
        (off + len - 1 - j) as nat,
    ) == 1) by {
        assert(report_bits(f)[j] == bit_of(v, (off + len - 1 - j) as nat));
    }
    lemma_field_written(bs, off, len, v);
}


proof fn lemma_mod_shift64(v: int, len: nat)
    requires
        len == 8 || len == 27 || len == 28,
    ensures
        as_unsigned64(v) % p2(len) as int == v % p2(len) as int,
{
    lemma_p2_values();
    if v < 0 {
        let m = p2(len) as int;
        let q: int = 0x1_0000_0000_0000_0000int / m;
        assert(m * q == 0x1_0000_0000_0000_0000);
        vstd::arithmetic::div_mod::lemma_mod_multiples_vanish(q, v, m);
        assert(as_unsigned64(v) == m * q + v);
    }
}

/// Decoding the payload that the simulator encodes for a fix yields the
/// fix's fields, each kept to the width of its field.
pub proof fn law_decode_encoded_payload(f: PositionFix)
    ensures
        decode_payload(armour(report_bits(f)), 0) == Some(fix_report(f)),
{
    let bits = report_bits(f);
    lemma_report_bits_binary(f);
    lemma_armour_raw_bits(bits);
    lemma_raw_bits_len(armour(bits));
    let bs = bools(bits);
    assert(payload_bits(armour(bits), 0) =~= bs);
    lemma_p2_values();
    assert forall|j: int| 0 <= j < 6 implies #[trigger] bits[j] == bit_of(1, (0 + 6 - 1 - j) as nat) by {
        lemma_report_bit(f, j);
    }
    lemma_read_field(f, 0, 6, 1);
    assert forall|j: int| 8 <= j < 38 implies #[trigger] bits[j] == bit_of(f.mmsi as int, (8 + 30 - 1 - j) as nat) by {
        lemma_report_bit(f, j);
    }
    lemma_read_field(f, 8, 30, f.mmsi as int);
    assert forall|j: int| 38 <= j < 42 implies #[trigger] bits[j] == bit_of(0, (38 + 4 - 1 - j) as nat) by {
        lemma_report_bit(f, j);
    }
    lemma_read_field(f, 38, 4, 0);
    assert forall|j: int| 42 <= j < 50 implies #[trigger] bits[j] == bit_of(as_unsigned64(-128), (42 + 8 - 1 - j) as nat) by {
        lemma_report_bit(f, j);
    }
    lemma_read_field(f, 42, 8, as_unsigned64(-128));
    lemma_mod_shift64(-128, 8);
    assert forall|j: int| 50 <= j < 60 implies #[trigger] bits[j] == bit_of(f.sog as int, (50 + 10 - 1 - j) as nat) by {
        lemma_report_bit(f, j);
    }
    lemma_read_field(f, 50, 10, f.sog as int);
    lemma_report_bit(f, 60);
    assert forall|j: int| 61 <= j < 89 implies #[trigger] bits[j] == bit_of(as_unsigned64(f.lon as int), (61 + 28 - 1 - j) as nat) by {
        lemma_report_bit(f, j);
    }
    lemma_read_field(f, 61, 28, as_unsigned64(f.lon as int));
    lemma_mod_shift64(f.lon as int, 28);
    assert forall|j: int| 89 <= j < 116 implies #[trigger] bits[j] == bit_of(as_unsigned64(f.lat as int), (89 + 27 - 1 - j) as nat) by {
        lemma_report_bit(f, j);
    }
    lemma_read_field(f, 89, 27, as_unsigned64(f.lat as int));
    lemma_mod_shift64(f.lat as int, 27);
    assert forall|j: int| 116 <= j < 128 implies #[trigger] bits[j] == bit_of(f.cog as int, (116 + 12 - 1 - j) as nat) by {
        lemma_report_bit(f, j);
    }
    lemma_read_field(f, 116, 12, f.cog as int);
    assert forall|j: int| 128 <= j < 137 implies #[trigger] bits[j] == bit_of(f.heading as int, (128 + 9 - 1 - j) as nat) by {
        lemma_report_bit(f, j);
    }
    lemma_read_field(f, 128, 9, f.heading as int);
    assert(bs[60]);
    let r = decode_bits(bs);
    assert(field(bs, 0, 6) == 1);
    assert(signed_field(bs, 42, 8) == -128);
    let e = fix_report(f);
    assert(r is Some);
    let d = r->0;
    assert(d.msg_type == e.msg_type);
    assert(d.mmsi == e.mmsi);
    assert(d.nav_status == e.nav_status);
    assert(d.rot == e.rot);
    assert(d.sog == e.sog);
    assert(d.lon == e.lon);
    assert(d.lat == e.lat);
    assert(d.cog == e.cog);
    assert(d.heading == e.heading);
    assert(d.position_acc == e.position_acc);
    assert(r == Some(fix_report(f)));
}


proof fn lemma_armour_chars(f: PositionFix)
    ensures
        armour(report_bits(f)).len() == 28,
        forall|i: int|
            0 <= i < 28 ==> 48 <= (#[trigger] armour(report_bits(f))[i]) as u32 <= 119,
{
    let bits = report_bits(f);
    lemma_report_bits_binary(f);
    assert forall|i: int| 0 <= i < 28 implies 48 <= (#[trigger] armour(bits)[i]) as u32 <= 119 by {
        let c = chunk(bits, i);
        assert(c.len() == 6);
        assert(binary(c)) by {
            assert forall|j: int| 0 <= j < c.len() implies #[trigger] c[j] <= 1 by {
                assert(c[j] == bits[6 * i + j]);
            }
        }
        lemma_full_chunk_value(c);
    }
}

/// The sentence the simulator sends for a fix is accepted by the ingest
/// parser and yields the decoded fix, unless the decoded position is
/// latitude and longitude zero (which the parser drops).
pub proof fn law_parse_simulated_sentence(f: PositionFix)
    ensures
        crate::normalize::sentence_report(
            crate::encode::aivdm_sentence(armour(report_bits(f))),
        ) == (if fix_report(f).lat == 0 && fix_report(f).lon == 0 {
            None
        } else {
            Some(fix_report(f))
        }),
{
    let p = armour(report_bits(f));
    lemma_armour_chars(f);
    let body = sentence_body(p);
    let ck = nmea_checksum_of(ascii_bytes(body));
    let hx = hex2(ck);
    let s = aivdm_sentence(p);
    assert(s =~= seq!['!'] + body + seq!['*'] + hx + seq!['\r', '\n']);
    let t = seq!['!'] + body + seq!['*'] + hx;
    // Trimming removes the line ending only.
    assert(lead_ws(s) == 0) by {
        assert(s[0] == '!');
    }
    assert(s.skip(0) =~= s);
    assert(s.drop_last() =~= t.push('\r'));
    assert(t.push('\r').drop_last() =~= t);
    assert(!is_ws(t.last()));
    assert(trail_ws(t) == 0);
    assert(trail_ws(t.push('\r')) == 1);
    assert(trail_ws(s) == 2);
    assert(trim(s) =~= t);
    // The fields of the sentence.
    let f0 = seq!['!', 'A', 'I', 'V', 'D', 'M'];
    let f1 = seq!['1'];
    let f2 = seq!['1'];
    let f3 = Seq::<char>::empty();
    let f4 = seq!['A'];
    let f6 = seq!['0', '*'] + hx;
    let fields = seq![f0, f1, f2, f3, f4, p, f6];
    reveal_with_fuel(join, 8);
    assert(t =~= join(fields, ','));
    assert forall|i: int| 0 <= i < fields.len() implies sep_free(#[trigger] fields[i], ',') by {
        if i == 5 {
            assert forall|k: int| 0 <= k < p.len() implies #[trigger] p[k] != ',' by {
                assert(48 <= p[k] as u32);
            }
        }
        if i == 6 {
            assert forall|k: int| 0 <= k < f6.len() implies #[trigger] f6[k] != ',' by {
                if k >= 2 {
                    assert(f6[k] == hx[k - 2]);
                }
            }
        }
    }
    lemma_split_join(fields, ',');
    assert(crate::normalize::starts_with(t, crate::normalize::aivdm_tag())) by {
        assert(t.take(6) =~= crate::normalize::aivdm_tag());
    }
    // Fragment count 1.
    assert(parse_unsigned(f1, 255) == Some(1nat)) by {
        assert(f1.drop_last() =~= Seq::<char>::empty());
        assert(digits_value(f1.drop_last()) == 0);
        assert(f1.last() == '1');
        assert(('1' as int) == 49);
        assert(digits_value(f1) == 1);
    }
    // Fill bits 0.
    assert(sep_free(hx, '*'));
    lemma_split_append(seq!['0'], hx, '*');
    assert(seq!['0'] + seq!['*'] + hx =~= f6);
    assert(sep_free(seq!['0'], '*'));
    lemma_split_sep_free(seq!['0'], '*');
    let zero = seq!['0'];
    assert(split(f6, '*')[0] == zero);
    assert(parse_unsigned(zero, 255) == Some(0nat)) by {
        assert(zero.drop_last() =~= Seq::<char>::empty());
        assert(digits_value(zero.drop_last()) == 0);
        assert(zero.last() == '0');
        assert(('0' as int) == 48);
        assert(digits_value(zero) == 0);
    }
    law_decode_encoded_payload(f);
}


/// A fix whose quantities fit their fields comes back unchanged.
pub proof fn law_fix_in_range_kept(f: PositionFix)
    requires
        f.mmsi < 0x4000_0000,
        f.sog < 1024,
        -0x800_0000 <= f.lon < 0x800_0000,
        -0x400_0000 <= f.lat < 0x400_0000,
        f.cog < 4096,
        f.heading < 512,
    ensures
        fix_report(f).mmsi == f.mmsi,
        fix_report(f).sog == f.sog,
        fix_report(f).lon == f.lon,
        fix_report(f).lat == f.lat,
        fix_report(f).cog == f.cog,
        fix_report(f).heading == heading_of(f.heading as u16),
{
    lemma_p2_values();
    let m28 = 0x1000_0000int;
    let m27 = 0x800_0000int;
    if f.lon < 0 {
        vstd::arithmetic::div_mod::lemma_mod_multiples_vanish(1, f.lon as int, m28);
        assert((m28 + f.lon as int) % m28 == m28 + f.lon);
    }
    if f.lat < 0 {
        vstd::arithmetic::div_mod::lemma_mod_multiples_vanish(1, f.lat as int, m27);
        assert((m27 + f.lat as int) % m27 == m27 + f.lat);
    }
}

/// Armouring a bit string and unpacking the text, with the padding of the
/// last character given as fill bits, gives the bits back.
pub proof fn law_armour_roundtrip(b: Seq<u8>)
    requires
        binary(b),
    ensures
        payload_bits(armour(b), ((6 - b.len() % 6) % 6) as u8) == bools(b),
{
    let n = b.len() as int;
    let pad = ((6 - n % 6) % 6) as nat;
    let z = Seq::new(pad, |i: int| 0u8);
    let p = b + z;
    assert(p.len() % 6 == 0);
    assert(binary(p)) by {
        assert forall|j: int| 0 <= j < p.len() implies #[trigger] p[j] <= 1 by {
            if j < n {
                assert(p[j] == b[j]);
            }
        }
    }
    assert(chunk_count(p.len()) == chunk_count(b.len()));
    assert(armour(p) =~= armour(b)) by {
        assert forall|k: int| 0 <= k < chunk_count(b.len()) implies armour(p)[k] == armour(b)[k] by {
            if 6 * k + 6 <= n {
                assert(chunk(p, k) =~= chunk(b, k));
            } else {
                let c = chunk(b, k);
                let extra = (6 * k + 6 - n) as nat;
                assert(chunk(p, k) =~= c + Seq::new(extra, |i: int| 0u8));
                lemma_chunk_pad(c, extra);
            }
        }
    }
    lemma_armour_raw_bits(p);
    lemma_raw_bits_len(armour(b));
    assert(bools(p) =~= bools(b) + bools(z));
    assert(raw_bits(armour(b)).take(n) =~= bools(b));
}

} // verus!
