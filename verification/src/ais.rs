//! Decoding of AIVDM/AIVDO payloads: the 6-bit ASCII armouring and the
//! position report layouts of message types 1, 2, 3 (Class A) and 18
//! (Class B).
use vstd::prelude::*;
use crate::bits::{bit_at, field, signed_field, read_u32, read_u8, read_u16, read_i32, read_i8};
use crate::text::str_chars;

verus! {

/// Raw fields of an AIS position report, in the units the message carries
/// them.
#[derive(Debug, Clone, Copy, PartialEq, Eq)]
pub struct AisPositionReport {
    pub mmsi: u32,
    pub msg_type: u8,
    pub nav_status: u8,
    /// Rate-of-turn indicator as sent; `None` when the report marks it as
    /// not available (-128).
    pub rot: Option<i8>,
    /// Speed over ground, tenths of a knot.
    pub sog: u16,
    /// Longitude, 1/10000 arc-minute (degrees times 600000).
    pub lon: i32,
    /// Latitude, 1/10000 arc-minute (degrees times 600000).
    pub lat: i32,
    /// Course over ground, tenths of a degree.
    pub cog: u16,
    /// True heading in degrees; `None` when not available (511).
    pub heading: Option<u16>,
    pub position_acc: bool,
}

/// The 6-bit value that the armouring character `c` carries: its low eight
/// bits, minus 48 (wrapping), minus 8 more above 40.
pub open spec fn sixbit(c: char) -> int {
    let b = (c as u32 as int) % 256;
    let v = if b >= 48 { b - 48 } else { b - 48 + 256 };
    if v > 40 { v - 8 } else { v }
}

/// The six bits (most significant first) of the value carried by `c`.
pub open spec fn char_bits(c: char) -> Seq<bool> {
    let v = sixbit(c);
    seq![
        (v / 32) % 2 == 1,
        (v / 16) % 2 == 1,
        (v / 8) % 2 == 1,
        (v / 4) % 2 == 1,
        (v / 2) % 2 == 1,
        v % 2 == 1,
    ]
}

/// The bit string of an armoured payload, before fill bits are dropped.
pub open spec fn raw_bits(cs: Seq<char>) -> Seq<bool>
    decreases cs.len(),
{
    if cs.len() == 0 {
        Seq::empty()
    } else {
        raw_bits(cs.drop_last()) + char_bits(cs.last())
    }
}

/// The bit string of an armoured payload with `fill_bits` trailing bits
/// removed.
pub open spec fn payload_bits(cs: Seq<char>, fill_bits: u8) -> Seq<bool> {
    let raw = raw_bits(cs);
    if raw.len() >= fill_bits {
        raw.take(raw.len() - fill_bits)
    } else {
        Seq::empty()
    }
}

pub proof fn lemma_raw_bits_len(cs: Seq<char>)
    ensures
        raw_bits(cs).len() == 6 * cs.len(),
    decreases cs.len(),
{
    if cs.len() > 0 {
        lemma_raw_bits_len(cs.drop_last());
    }
}

/// Exec counterpart of `sixbit`.
pub fn char_sixbit(c: char) -> (v: u8)
    ensures
        v == sixbit(c),
{
    let mut val: u8 = (c as u32 % 256) as u8;
    val = val.wrapping_sub(48);
    if val > 40 {
        val = val.wrapping_sub(8);
    }
    val
}

/// Appends `char_bits(c)` to `bits`.
pub fn push_char_bits(bits: &mut Vec<bool>, c: char)
    ensures
        final(bits)@ == old(bits)@ + char_bits(c),
{
    let val = char_sixbit(c);
    bits.push(val / 32 % 2 == 1);
    bits.push(val / 16 % 2 == 1);
    bits.push(val / 8 % 2 == 1);
    bits.push(val / 4 % 2 == 1);
    bits.push(val / 2 % 2 == 1);
    bits.push(val % 2 == 1);
    assert(bits@ =~= old(bits)@ + char_bits(c));
}

/// `payload_bits` of a vector of characters.
pub fn bits_from_chars(cs: &Vec<char>, fill_bits: u8) -> (bits: Vec<bool>)
    ensures
        bits@ == payload_bits(cs@, fill_bits),
{
    let mut bits: Vec<bool> = Vec::new();
    let mut i: usize = 0;
    while i < cs.len()
        invariant
            i <= cs.len(),
            bits@ == raw_bits(cs@.take(i as int)),
        decreases cs.len() - i,
    {
        push_char_bits(&mut bits, cs[i]);
        assert(cs@.take(i + 1).drop_last() =~= cs@.take(i as int));
        assert(bits@ =~= raw_bits(cs@.take(i + 1)));
        i = i + 1;
    }
    assert(cs@.take(cs.len() as int) =~= cs@);
    proof {
        lemma_raw_bits_len(cs@);
    }
    let n = bits.len();
    let keep = n.saturating_sub(fill_bits as usize);
    bits.truncate(keep);
    assert(bits@ =~= payload_bits(cs@, fill_bits));
    bits
}

/// Unpacks an armoured payload into its bit string, dropping `fill_bits`
/// trailing bits.
pub fn payload_to_bits(payload: &str, fill_bits: u8) -> (bits: Vec<bool>)
    ensures
        bits@ == payload_bits(payload@, fill_bits),
{
    let cs = str_chars(payload);
    bits_from_chars(&cs, fill_bits)
}

/// The heading field: 511 means "not available".
pub open spec fn heading_of(h: u16) -> Option<u16> {
    if h == 511 {
        None
    } else {
        Some(h)
    }
}

/// The position report that the bit string `bits` holds, if it is long
/// enough and of message type 1, 2, 3 or 18.
pub open spec fn decode_bits(bits: Seq<bool>) -> Option<AisPositionReport> {
    if bits.len() < 168 {
        None
    } else {
        let msg_type = field(bits, 0, 6) as u8;
        if !(msg_type == 1 || msg_type == 2 || msg_type == 3 || msg_type == 18) {
            None
        } else {
            let mmsi = field(bits, 8, 30) as u32;
            if msg_type == 18 {
                Some(
                    AisPositionReport {
                        mmsi,
                        msg_type,
                        nav_status: 0,
                        rot: Some(0i8),
                        sog: field(bits, 46, 10) as u16,
                        lon: signed_field(bits, 57, 28) as i32,
                        lat: signed_field(bits, 85, 27) as i32,
                        cog: field(bits, 112, 12) as u16,
                        heading: heading_of(field(bits, 124, 9) as u16),
                        position_acc: bits[56],
                    },
                )
            } else {
                let rot_raw = signed_field(bits, 42, 8) as i8;
                Some(
                    AisPositionReport {
                        mmsi,
                        msg_type,
                        nav_status: field(bits, 38, 4) as u8,
                        rot: if rot_raw == -128 {
                            None
                        } else {
                            Some(rot_raw)
                        },
                        sog: field(bits, 50, 10) as u16,
                        lon: signed_field(bits, 61, 28) as i32,
                        lat: signed_field(bits, 89, 27) as i32,
                        cog: field(bits, 116, 12) as u16,
                        heading: heading_of(field(bits, 128, 9) as u16),
                        position_acc: bits[60],
                    },
                )
            }
        }
    }
}

/// The position report held by the armoured payload `cs`.
pub open spec fn decode_payload(cs: Seq<char>, fill_bits: u8) -> Option<AisPositionReport> {
    decode_bits(payload_bits(cs, fill_bits))
}

proof fn lemma_field_small(bits: Seq<bool>, off: int, len: nat)
    requires
        len == 4 || len == 6 || len == 9 || len == 10 || len == 12 || len == 30,
    ensures
        len == 4 ==> field(bits, off, len) < 16,
        len == 6 ==> field(bits, off, len) < 64,
        len == 9 ==> field(bits, off, len) < 512,
        len == 10 ==> field(bits, off, len) < 1024,
        len == 12 ==> field(bits, off, len) < 4096,
        len == 30 ==> field(bits, off, len) < 0x4000_0000,
{
    crate::bits::lemma_field_bound(bits, off, len);
    reveal_with_fuel(crate::bits::p2, 31);
}

/// Decodes the bit string of a position report.
pub fn decode_bit_string(bits: &Vec<bool>) -> (r: Option<AisPositionReport>)
    ensures
        r == decode_bits(bits@),
{
    if bits.len() < 168 {
        return None;
    }
    let b = bits.as_slice();
    proof {
        lemma_field_small(bits@, 0, 6);
        lemma_field_small(bits@, 8, 30);
        lemma_field_small(bits@, 38, 4);
        lemma_field_small(bits@, 46, 10);
        lemma_field_small(bits@, 50, 10);
        lemma_field_small(bits@, 112, 12);
        lemma_field_small(bits@, 116, 12);
        lemma_field_small(bits@, 124, 9);
        lemma_field_small(bits@, 128, 9);
    }
    let msg_type = read_u8(b, 0, 6);
    if !(msg_type == 1 || msg_type == 2 || msg_type == 3 || msg_type == 18) {
        return None;
    }
    let mmsi = read_u32(b, 8, 30);
    if msg_type == 18 {
        let sog = read_u16(b, 46, 10);
        let position_acc = bits[56];
        let lon = read_i32(b, 57, 28);
        let lat = read_i32(b, 85, 27);
        let cog = read_u16(b, 112, 12);
        let heading = read_u16(b, 124, 9);
        return Some(
            AisPositionReport {
                mmsi,
                msg_type,
                nav_status: 0,
                rot: Some(0),
                sog,
                lon,
                lat,
                cog,
                heading: if heading == 511 {
                    None
                } else {
                    Some(heading)
                },
                position_acc,
            },
        );
    }
    let nav_status = read_u8(b, 38, 4);
    let rot_raw = read_i8(b, 42, 8);
    let rot = if rot_raw == -128 {
        None
    } else {
        Some(rot_raw)
    };
    let sog = read_u16(b, 50, 10);
    let position_acc = bits[60];
    let lon = read_i32(b, 61, 28);
    let lat = read_i32(b, 89, 27);
    let cog = read_u16(b, 116, 12);
    let heading = read_u16(b, 128, 9);
    Some(
        AisPositionReport {
            mmsi,
            msg_type,
            nav_status,
            rot,
            sog,
            lon,
            lat,
            cog,
            heading: if heading == 511 {
                None
            } else {
                Some(heading)
            },
            position_acc,
        },
    )
}

/// Decodes an armoured payload held as characters.
pub fn decode_position_chars(payload: &Vec<char>, fill_bits: u8) -> (r: Option<
    AisPositionReport,
>)
    ensures
        r == decode_payload(payload@, fill_bits),
{
    let bits = bits_from_chars(payload, fill_bits);
    decode_bit_string(&bits)
}

/// Decodes an AIVDM payload into a position report. Returns `None` when the
/// payload is shorter than 168 bits or is not a position report (message
/// types 1, 2, 3 and 18).
pub fn decode_position(payload: &str, fill_bits: u8) -> (r: Option<AisPositionReport>)
    ensures
        r == decode_payload(payload@, fill_bits),
{
    let cs = str_chars(payload);
    decode_position_chars(&cs, fill_bits)
}

/// A `len`-bit two's-complement field lies in `[-2^(len-1), 2^(len-1))`.
proof fn lemma_signed_small(bits: Seq<bool>, off: int, len: nat)
    requires
        len == 8 || len == 27 || len == 28,
    ensures
        len == 8 ==> -128 <= signed_field(bits, off, len) < 128,
        len == 27 ==> -0x400_0000 <= signed_field(bits, off, len) < 0x400_0000,
        len == 28 ==> -0x800_0000 <= signed_field(bits, off, len) < 0x800_0000,
{
    crate::bits::lemma_field_bound(bits, off, len);
    crate::bits::lemma_p2_values();
}

/// What a bit string of at least 168 bits decodes to, read off the AIS
/// layouts: exactly message types 1, 2, 3 and 18 give a report, whose type
/// and MMSI (bits 8..38) are those of the string. Class A (types 1, 2, 3)
/// takes the navigational status from bits 38..42, the rate of turn from
/// bits 42..50 (-128: not available), speed 50..60, accuracy bit 60,
/// longitude 61..89, latitude 89..116 (both two's complement), course
/// 116..128 and heading 128..137 (511: not available). Class B (type 18)
/// has no status or rate of turn (0 and 0) and takes speed 46..56, accuracy
/// bit 56, longitude 57..85, latitude 85..112, course 112..124 and heading
/// 124..133. A shorter string gives no report.
pub proof fn law_decode_position_layout(bits: Seq<bool>)
    ensures
        bits.len() < 168 ==> decode_bits(bits) is None,
        bits.len() >= 168 ==> (decode_bits(bits) is Some <==> (field(bits, 0, 6) == 1 || field(
            bits,
            0,
            6,
        ) == 2 || field(bits, 0, 6) == 3 || field(bits, 0, 6) == 18)),
        decode_bits(bits) matches Some(r) ==> {
            &&& r.msg_type == field(bits, 0, 6)
            &&& r.mmsi == field(bits, 8, 30)
            &&& r.msg_type != 18 ==> {
                &&& r.nav_status == field(bits, 38, 4)
                &&& (signed_field(bits, 42, 8) == -128 ==> r.rot is None)
                &&& (signed_field(bits, 42, 8) != -128 ==> (r.rot is Some && r.rot->0
                    == signed_field(bits, 42, 8)))
                &&& r.sog == field(bits, 50, 10)
                &&& r.position_acc == bits[60]
                &&& r.lon == signed_field(bits, 61, 28)
                &&& r.lat == signed_field(bits, 89, 27)
                &&& r.cog == field(bits, 116, 12)
                &&& (field(bits, 128, 9) == 511 ==> r.heading is None)
                &&& (field(bits, 128, 9) != 511 ==> (r.heading is Some && r.heading->0 == field(bits, 128, 9)))
            }
            &&& r.msg_type == 18 ==> {
                &&& r.nav_status == 0
                &&& r.rot == Some(0i8)
                &&& r.sog == field(bits, 46, 10)
                &&& r.position_acc == bits[56]
                &&& r.lon == signed_field(bits, 57, 28)
                &&& r.lat == signed_field(bits, 85, 27)
                &&& r.cog == field(bits, 112, 12)
                &&& (field(bits, 124, 9) == 511 ==> r.heading is None)
                &&& (field(bits, 124, 9) != 511 ==> (r.heading is Some && r.heading->0 == field(bits, 124, 9)))
            }
        },
{
    lemma_field_small(bits, 0, 6);
    lemma_field_small(bits, 8, 30);
    lemma_field_small(bits, 38, 4);
    lemma_field_small(bits, 46, 10);
    lemma_field_small(bits, 50, 10);
    lemma_field_small(bits, 112, 12);
    lemma_field_small(bits, 116, 12);
    lemma_field_small(bits, 124, 9);
    lemma_field_small(bits, 128, 9);
    lemma_signed_small(bits, 42, 8);
    lemma_signed_small(bits, 57, 28);
    lemma_signed_small(bits, 61, 28);
    lemma_signed_small(bits, 85, 27);
    lemma_signed_small(bits, 89, 27);
}

} // verus!
