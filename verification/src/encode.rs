//! Encoding of Class A position reports (message type 1) into AIVDM
//! sentences, as the traffic simulator emits them.
use vstd::prelude::*;
use crate::bits::{p2, pow2_u64, lemma_p2_mono, lemma_p2_pos, lemma_p2_values};
use crate::text::{string_from_chars, push_all};
use vstd::string::StringSliceAdditionalSpecFns;

verus! {

/// The integer quantities that a simulated position report puts on the
/// wire. Each is written as the low bits of its field (two's complement for
/// the coordinates).
#[derive(Debug, Clone, Copy, PartialEq, Eq)]
pub struct PositionFix {
    pub mmsi: u32,
    /// Speed over ground, tenths of a knot.
    pub sog: u64,
    /// Longitude, 1/10000 arc-minute.
    pub lon: i64,
    /// Latitude, 1/10000 arc-minute.
    pub lat: i64,
    /// Course over ground, tenths of a degree.
    pub cog: u64,
    /// True heading, degrees.
    pub heading: u64,
}

/// Bit `k` (counting from the least significant) of `v`, as `0` or `1`.
pub open spec fn bit_of(v: int, k: nat) -> u8 {
    ((v / p2(k) as int) % 2) as u8
}

/// `bits` with the `len` positions from `off` replaced by the low `len` bits
/// of `v`, most significant first.
pub open spec fn write_spec(bits: Seq<u8>, off: int, len: nat, v: int) -> Seq<u8> {
    Seq::new(
        bits.len(),
        |j: int|
            if off <= j < off + len {
                bit_of(v, (off + len - 1 - j) as nat)
            } else {
                bits[j]
            },
    )
}

/// `v` reduced to its two's-complement reading modulo `2^64`.
pub open spec fn as_unsigned64(v: int) -> int {
    if v >= 0 {
        v
    } else {
        v + 0x1_0000_0000_0000_0000
    }
}

/// Writes the low `len` bits of `val` into `bits[offset..offset + len]`,
/// most significant first.
pub fn write_bits(bits: &mut Vec<u8>, offset: usize, len: usize, val: u64)
    requires
        offset + len <= old(bits).len(),
        len <= 64,
    ensures
        final(bits)@ == write_spec(old(bits)@, offset as int, len as nat, val as int),
{
    let mut i: usize = 0;
    while i < len
        invariant
            i <= len <= 64,
            offset + len <= bits.len(),
            bits@ == Seq::new(
                old(bits)@.len(),
                |j: int|
                    if offset <= j < offset + i {
                        bit_of(val as int, (offset + len - 1 - j) as nat)
                    } else {
                        old(bits)@[j]
                    },
            ),
        decreases len - i,
    {
        let k = (len - 1 - i) as u32;
        let d = pow2_u64(k);
        proof {
            lemma_p2_pos(k as nat);
        }
        let bit = ((val / d) % 2) as u8;
        bits.set(offset + i, bit);
        i = i + 1;
        assert(bits@ =~= Seq::new(
            old(bits)@.len(),
            |j: int|
                if offset <= j < offset + i {
                    bit_of(val as int, (offset + len - 1 - j) as nat)
                } else {
                    old(bits)@[j]
                },
        ));
    }
    assert(bits@ =~= write_spec(old(bits)@, offset as int, len as nat, val as int));
}

/// Writes the low `len` bits of the two's-complement form of `val` into
/// `bits[offset..offset + len]`.
pub fn write_bits_i(bits: &mut Vec<u8>, offset: usize, len: usize, val: i64)
    requires
        offset + len <= old(bits).len(),
        len <= 64,
    ensures
        final(bits)@ == write_spec(old(bits)@, offset as int, len as nat, as_unsigned64(val as int)),
{
    let u: u64 = if val >= 0 {
        val as u64
    } else {
        ((val + 0x7fff_ffff_ffff_ffff + 1) as u64) + 0x8000_0000_0000_0000
    };
    write_bits(bits, offset, len, u);
}


/// The 6-bit value packed from a chunk of at most six bit cells: the OR of
/// each cell shifted to its place, most significant first (cells holding
/// more than `1` are ORed in as they are).
pub open spec fn chunk_value(chunk: Seq<u8>) -> u8
    decreases chunk.len(),
{
    if chunk.len() == 0 {
        0
    } else {
        chunk_value(chunk.drop_last()) | ((chunk.last() << ((5 - (chunk.len() - 1)) as u8)) as u8)
    }
}

/// The armouring character for the value `v`: `v + 48`, plus 8 more past
/// `'W'`.
pub open spec fn armour_char(v: u8) -> char {
    let w = v + 48;
    if w > 87 {
        (w + 8) as char
    } else {
        w as char
    }
}

/// Number of six-bit chunks in `n` bits (the last may be short).
pub open spec fn chunk_count(n: nat) -> nat {
    (n + 5) / 6
}

/// Chunk `k` of `bits`.
pub open spec fn chunk(bits: Seq<u8>, k: int) -> Seq<u8> {
    bits.subrange(6 * k, if 6 * k + 6 <= bits.len() { 6 * k + 6 } else { bits.len() as int })
}

/// Every chunk of `bits` packs to a value that can be armoured without
/// overflowing a byte.
pub open spec fn armourable(bits: Seq<u8>) -> bool {
    forall|k: int| 0 <= k < chunk_count(bits.len()) ==> #[trigger] chunk_value(chunk(bits, k)) <= 199
}

/// The armoured payload text of `bits`.
pub open spec fn armour(bits: Seq<u8>) -> Seq<char> {
    Seq::new(chunk_count(bits.len()), |k: int| armour_char(chunk_value(chunk(bits, k))))
}

/// Packs a bit buffer into AIVDM payload characters, six bits per character.
pub fn bits_to_payload(bits: &Vec<u8>) -> (s: String)
    requires
        armourable(bits@),
    ensures
        s@ == armour(bits@),
{
    let mut out: Vec<char> = Vec::new();
    let n = bits.len();
    let mut start: usize = 0;
    while start < n
        invariant
            n == bits.len(),
            start <= n,
            start % 6 == 0 || start == n,
            armourable(bits@),
            out@.len() == chunk_count(start as nat),
            forall|k: int|
                0 <= k < chunk_count(start as nat) ==> out@[k] == armour_char(
                    chunk_value(chunk(bits@, k)),
                ),
        decreases n - start,
    {
        let end: usize = if n - start >= 6 { start + 6 } else { n };
        let ghost c = chunk(bits@, start as int / 6);
        assert(c =~= bits@.subrange(start as int, end as int));
        let mut val: u8 = 0;
        let mut i: usize = start;
        while i < end
            invariant
                start <= i <= end <= n,
                end - start <= 6,
                n == bits.len(),
                c == bits@.subrange(start as int, end as int),
                val == chunk_value(c.take(i - start)),
            decreases end - i,
        {
            assert(c.take(i + 1 - start).drop_last() =~= c.take(i - start));
            let sh: u8 = (5 - (i - start)) as u8;
            val = val | (bits[i] << sh);
            i = i + 1;
        }
        assert(c.take(end - start) =~= c);
        assert(chunk_count(n as nat) > start / 6);
        assert(val <= 199);
        let mut w: u8 = val + 48;
        if w > 87 {
            w = w + 8;
        }
        out.push(w as char);
        start = end;
    }
    assert(out@ =~= armour(bits@));
    string_from_chars(&out)
}


/// Position of the first `'*'` byte in `bs` (its length when there is none).
pub open spec fn first_star(bs: Seq<u8>) -> nat
    decreases bs.len(),
{
    if bs.len() == 0 {
        0
    } else if bs[0] == 42 {
        0
    } else {
        1 + first_star(bs.drop_first())
    }
}

/// XOR of all bytes of `bs`.
pub open spec fn xor_all(bs: Seq<u8>) -> u8
    decreases bs.len(),
{
    if bs.len() == 0 {
        0
    } else {
        xor_all(bs.drop_last()) ^ bs.last()
    }
}

/// The NMEA checksum of `bs`: the XOR of the bytes before the first `'*'`.
pub open spec fn nmea_checksum_of(bs: Seq<u8>) -> u8 {
    xor_all(bs.take(first_star(bs) as int))
}

proof fn lemma_first_star_bound(bs: Seq<u8>)
    ensures
        first_star(bs) <= bs.len(),
    decreases bs.len(),
{
    if bs.len() > 0 && bs[0] != 42 {
        lemma_first_star_bound(bs.drop_first());
    }
}

/// XOR of the bytes of `s` up to (not including) the first `'*'`.
pub fn nmea_checksum(s: &str) -> (r: u8)
    ensures
        r == nmea_checksum_of(s.spec_bytes()),
{
    let b = s.as_bytes();
    let ghost bs = b@;
    let mut acc: u8 = 0;
    let mut i: usize = 0;
    assert(bs.skip(0) =~= bs);
    while i < b.len() && b[i] != 42
        invariant
            i <= b.len(),
            bs == b@,
            acc == xor_all(bs.take(i as int)),
            first_star(bs) == i + first_star(bs.skip(i as int)),
        decreases b.len() - i,
    {
        assert(bs.take(i + 1).drop_last() =~= bs.take(i as int));
        assert(bs.skip(i as int).drop_first() =~= bs.skip(i + 1));
        acc = acc ^ b[i];
        i = i + 1;
    }
    assert(first_star(bs.skip(i as int)) == 0);
    acc
}

/// Upper-case hexadecimal digit for `d < 16`.
pub open spec fn hex_digit(d: int) -> char {
    if d < 10 {
        (d + 48) as char
    } else {
        (d + 55) as char
    }
}

/// Rust's `{:02X}` rendering of a byte.
pub open spec fn hex2(v: u8) -> Seq<char> {
    seq![hex_digit(v as int / 16), hex_digit(v as int % 16)]
}

fn hex_digit_char(d: u8) -> (c: char)
    requires
        d < 16,
    ensures
        c == hex_digit(d as int),
{
    if d < 10 {
        (d + 48) as char
    } else {
        (d + 55) as char
    }
}

/// The bit buffer of a simulated position report: message type 1, repeat
/// indicator 0, navigational status 0, rate of turn "not available" (-128),
/// position accuracy 1, the fix's fields in place, the rest zero.
pub open spec fn report_bits(f: PositionFix) -> Seq<u8> {
    let b0 = Seq::new(168, |j: int| 0u8);
    let b1 = write_spec(b0, 0, 6, 1);
    let b2 = write_spec(b1, 6, 2, 0);
    let b3 = write_spec(b2, 8, 30, f.mmsi as int);
    let b4 = write_spec(b3, 38, 4, 0);
    let b5 = write_spec(b4, 42, 8, as_unsigned64(-128));
    let b6 = write_spec(b5, 50, 10, f.sog as int);
    let b7 = write_spec(b6, 60, 1, 1);
    let b8 = write_spec(b7, 61, 28, as_unsigned64(f.lon as int));
    let b9 = write_spec(b8, 89, 27, as_unsigned64(f.lat as int));
    let b10 = write_spec(b9, 116, 12, f.cog as int);
    write_spec(b10, 128, 9, f.heading as int)
}

/// Every cell of `bits` holds `0` or `1`.
pub open spec fn binary(bits: Seq<u8>) -> bool {
    forall|j: int| 0 <= j < bits.len() ==> #[trigger] bits[j] <= 1
}

proof fn lemma_write_spec_binary(bits: Seq<u8>, off: int, len: nat, v: int)
    requires
        binary(bits),
    ensures
        binary(write_spec(bits, off, len, v)),
        write_spec(bits, off, len, v).len() == bits.len(),
{
}

pub proof fn lemma_report_bits_binary(f: PositionFix)
    ensures
        binary(report_bits(f)),
        report_bits(f).len() == 168,
{
    let b0 = Seq::new(168, |j: int| 0u8);
    let b1 = write_spec(b0, 0, 6, 1);
    let b2 = write_spec(b1, 6, 2, 0);
    let b3 = write_spec(b2, 8, 30, f.mmsi as int);
    let b4 = write_spec(b3, 38, 4, 0);
    let b5 = write_spec(b4, 42, 8, as_unsigned64(-128));
    let b6 = write_spec(b5, 50, 10, f.sog as int);
    let b7 = write_spec(b6, 60, 1, 1);
    let b8 = write_spec(b7, 61, 28, as_unsigned64(f.lon as int));
    let b9 = write_spec(b8, 89, 27, as_unsigned64(f.lat as int));
    let b10 = write_spec(b9, 116, 12, f.cog as int);
    lemma_write_spec_binary(b0, 0, 6, 1);
    lemma_write_spec_binary(b1, 6, 2, 0);
    lemma_write_spec_binary(b2, 8, 30, f.mmsi as int);
    lemma_write_spec_binary(b3, 38, 4, 0);
    lemma_write_spec_binary(b4, 42, 8, as_unsigned64(-128));
    lemma_write_spec_binary(b5, 50, 10, f.sog as int);
    lemma_write_spec_binary(b6, 60, 1, 1);
    lemma_write_spec_binary(b7, 61, 28, as_unsigned64(f.lon as int));
    lemma_write_spec_binary(b8, 89, 27, as_unsigned64(f.lat as int));
    lemma_write_spec_binary(b9, 116, 12, f.cog as int);
    lemma_write_spec_binary(b10, 128, 9, f.heading as int);
}

proof fn lemma_or_six(c0: u8, c1: u8, c2: u8, c3: u8, c4: u8, c5: u8)
    by (bit_vector)
    requires
        c0 <= 1,
        c1 <= 1,
        c2 <= 1,
        c3 <= 1,
        c4 <= 1,
        c5 <= 1,
    ensures
        (((((0u8 | (c0 << 5u8)) | (c1 << 4u8)) | (c2 << 3u8)) | (c3 << 2u8)) | (c4 << 1u8)) | (c5
            << 0u8) == 32 * c0 + 16 * c1 + 8 * c2 + 4 * c3 + 2 * c4 + c5,
{
}

/// A full chunk of six binary cells packs to their big-endian value.
pub proof fn lemma_full_chunk_value(c: Seq<u8>)
    requires
        c.len() == 6,
        binary(c),
    ensures
        chunk_value(c) == 32 * c[0] + 16 * c[1] + 8 * c[2] + 4 * c[3] + 2 * c[4] + c[5],
{
    let c1 = c.drop_last();
    let c2 = c1.drop_last();
    let c3 = c2.drop_last();
    let c4 = c3.drop_last();
    let c5 = c4.drop_last();
    let c6 = c5.drop_last();
    assert(chunk_value(c6) == 0);
    assert(chunk_value(c5) == (0u8 | ((c[0] << 5u8) as u8)));
    assert(chunk_value(c4) == chunk_value(c5) | ((c[1] << 4u8) as u8));
    assert(chunk_value(c3) == chunk_value(c4) | ((c[2] << 3u8) as u8));
    assert(chunk_value(c2) == chunk_value(c3) | ((c[3] << 2u8) as u8));
    assert(chunk_value(c1) == chunk_value(c2) | ((c[4] << 1u8) as u8));
    assert(chunk_value(c) == chunk_value(c1) | ((c[5] << 0u8) as u8));
    assert(c[0] <= 1 && c[1] <= 1 && c[2] <= 1 && c[3] <= 1 && c[4] <= 1 && c[5] <= 1);
    lemma_or_six(c[0], c[1], c[2], c[3], c[4], c[5]);
}

/// Zero cells appended to a chunk of at most six cells leave its packed
/// value unchanged.
pub proof fn lemma_chunk_pad(c: Seq<u8>, k: nat)
    requires
        c.len() + k <= 6,
    ensures
        chunk_value(c + Seq::new(k, |i: int| 0u8)) == chunk_value(c),
    decreases k,
{
    let z = Seq::new(k, |i: int| 0u8);
    if k == 0 {
        assert(c + z =~= c);
    } else {
        let zp = Seq::new((k - 1) as nat, |i: int| 0u8);
        let cz = c + z;
        assert(cz.drop_last() =~= c + zp);
        assert(cz.last() == 0);
        lemma_chunk_pad(c, (k - 1) as nat);
        let v = chunk_value(c + zp);
        let sh = (5 - (cz.len() - 1)) as u8;
        assert(v | ((0u8 << sh) as u8) == v) by (bit_vector);
    }
}

/// A bit buffer of `0`/`1` cells, of any length, can be armoured: every
/// chunk, the short last one included, packs to a value below 64.
pub proof fn lemma_binary_armourable(bits: Seq<u8>)
    requires
        binary(bits),
    ensures
        armourable(bits),
{
    assert forall|k: int| 0 <= k < chunk_count(bits.len()) implies #[trigger] chunk_value(
        chunk(bits, k),
    ) <= 199 by {
        let c = chunk(bits, k);
        let extra = (6 - c.len()) as nat;
        let full = c + Seq::new(extra, |i: int| 0u8);
        assert(full.len() == 6);
        assert(binary(full)) by {
            assert forall|j: int| 0 <= j < full.len() implies #[trigger] full[j] <= 1 by {
                if j < c.len() {
                    assert(c[j] == bits[6 * k + j]);
                }
            }
        }
        lemma_full_chunk_value(full);
        lemma_chunk_pad(c, extra);
    }
}

/// Packs a simulated position report into its 28-character payload.
pub fn encode_payload(f: &PositionFix) -> (s: String)
    ensures
        s@ == armour(report_bits(*f)),
{
    let mut bits: Vec<u8> = vec![0u8; 168];
    assert(bits@ =~= Seq::new(168, |j: int| 0u8));
    write_bits(&mut bits, 0, 6, 1);
    write_bits(&mut bits, 6, 2, 0);
    write_bits(&mut bits, 8, 30, f.mmsi as u64);
    write_bits(&mut bits, 38, 4, 0);
    write_bits_i(&mut bits, 42, 8, -128);
    write_bits(&mut bits, 50, 10, f.sog);
    write_bits(&mut bits, 60, 1, 1);
    write_bits_i(&mut bits, 61, 28, f.lon);
    write_bits_i(&mut bits, 89, 27, f.lat);
    write_bits(&mut bits, 116, 12, f.cog);
    write_bits(&mut bits, 128, 9, f.heading);
    assert(bits@ == report_bits(*f));
    proof {
        lemma_report_bits_binary(*f);
        lemma_binary_armourable(bits@);
    }
    bits_to_payload(&bits)
}


/// The bytes of an ASCII character sequence.
pub open spec fn ascii_bytes(cs: Seq<char>) -> Seq<u8> {
    cs.map_values(|c: char| c as u8)
}

/// `"AIVDM,1,1,,A,"`.
pub open spec fn aivdm_head() -> Seq<char> {
    seq!['A', 'I', 'V', 'D', 'M', ',', '1', ',', '1', ',', ',', 'A', ',']
}

/// The checksummed part of a simulated sentence: `AIVDM,1,1,,A,{payload},0`.
pub open spec fn sentence_body(payload: Seq<char>) -> Seq<char> {
    aivdm_head() + payload + seq![',', '0']
}

/// The full sentence the simulator sends for `payload`:
/// `!{body}*{checksum:02X}\r\n`.
pub open spec fn aivdm_sentence(payload: Seq<char>) -> Seq<char> {
    let body = sentence_body(payload);
    seq!['!'] + body + seq!['*'] + hex2(nmea_checksum_of(ascii_bytes(body))) + seq!['\r', '\n']
}

proof fn lemma_armour_ascii(bits: Seq<u8>)
    requires
        binary(bits),
        bits.len() % 6 == 0,
    ensures
        forall|i: int| 0 <= i < armour(bits).len() ==> (#[trigger] armour(bits)[i]) as u32 <= 119,
{
    assert forall|i: int| 0 <= i < armour(bits).len() implies (#[trigger] armour(bits)[i]) as u32
        <= 119 by {
        let c = chunk(bits, i);
        assert(c.len() == 6);
        assert(binary(c)) by {
            assert forall|j: int| 0 <= j < c.len() implies #[trigger] c[j] <= 1 by {
                assert(c[j] == bits[6 * i + j]);
            }
        }
        lemma_full_chunk_value(c);
    }
}

/// Encodes a simulated position report as a complete AIVDM sentence with
/// its checksum and line ending.
pub fn to_aivdm(f: &PositionFix) -> (s: String)
    ensures
        s@ == aivdm_sentence(armour(report_bits(*f))),
{
    let payload = encode_payload(f);
    let pc = crate::text::str_chars(payload.as_str());
    let mut body: Vec<char> = Vec::new();
    let head = ['A', 'I', 'V', 'D', 'M', ',', '1', ',', '1', ',', ',', 'A', ','];
    let mut i: usize = 0;
    while i < 13
        invariant
            i <= 13,
            head@ == aivdm_head(),
            body@ == aivdm_head().take(i as int),
        decreases 13 - i,
    {
        body.push(head[i]);
        i = i + 1;
        assert(body@ =~= aivdm_head().take(i as int));
    }
    assert(aivdm_head().take(13) =~= aivdm_head());
    push_all(&mut body, &pc);
    body.push(',');
    body.push('0');
    let ghost payload_seq = armour(report_bits(*f));
    assert(body@ =~= sentence_body(payload_seq));
    let body_s = string_from_chars(&body);
    let body_str = body_s.as_str();
    proof {
        lemma_report_bits_binary(*f);
        lemma_armour_ascii(report_bits(*f));
        assert(vstd::utf8::is_ascii_chars(body_s@)) by {
            assert forall|k: int| 0 <= k < body_s@.len() implies '\0' <= #[trigger] body_s@[k]
                <= '\u{7f}' by {
                if 13 <= k < 13 + payload_seq.len() {
                    assert(body_s@[k] == payload_seq[k - 13]);
                }
            }
        }
        vstd::utf8::is_ascii_chars_encode_utf8(body_s@);
        assert(body_str.spec_bytes() =~= ascii_bytes(body@));
    }
    let ck = nmea_checksum(body_str);
    let mut out: Vec<char> = Vec::new();
    out.push('!');
    push_all(&mut out, &body);
    out.push('*');
    out.push(hex_digit_char(ck / 16));
    out.push(hex_digit_char(ck % 16));
    out.push('\r');
    out.push('\n');
    assert(out@ =~= aivdm_sentence(payload_seq));
    string_from_chars(&out)
}

} // verus!
