//! The key layout of the ghost-log store. The track partition keys a frame
//! by `{mmsi:010}/{timestamp_utc_ns:020}/{frame_id:020}`, so that frames are
//! never overwritten (a frame with the timestamp of an earlier one is a new
//! entry); the latest partition keys a vessel state by `{mmsi:010}`.
use vstd::prelude::*;
use crate::text::{
    dec_digits, fmt_signed, fmt_unsigned, parse_u32, parse_unsigned, push_signed_padded,
    push_unsigned_padded, str_chars, string_from_chars, trim, trim_chars,
};

verus! {

/// Key of a vessel in the latest-state partition.
pub open spec fn latest_key_of(mmsi: u32) -> Seq<char> {
    fmt_unsigned(mmsi as nat, 10)
}

/// Key of a frame in the track partition.
pub open spec fn track_key_of(mmsi: u32, ts: i64, frame_id: u64) -> Seq<char> {
    fmt_unsigned(mmsi as nat, 10) + seq!['/'] + fmt_signed(ts as int, 20) + seq!['/']
        + fmt_unsigned(frame_id as nat, 20)
}

/// The latest-state key of a vessel: its MMSI, zero-padded to ten digits.
pub fn latest_key(mmsi: u32) -> (k: String)
    ensures
        k@ == latest_key_of(mmsi),
{
    let mut out: Vec<char> = Vec::new();
    push_unsigned_padded(&mut out, mmsi as u64, 10);
    assert(out@ =~= latest_key_of(mmsi));
    string_from_chars(&out)
}

/// The track key of a frame: the ten-digit MMSI, `/`, the timestamp
/// zero-padded to twenty characters (sign first when negative), `/`, and
/// the frame number zero-padded to twenty digits.
pub fn track_key(mmsi: u32, ts: i64, frame_id: u64) -> (k: String)
    ensures
        k@ == track_key_of(mmsi, ts, frame_id),
{
    let mut out: Vec<char> = Vec::new();
    push_unsigned_padded(&mut out, mmsi as u64, 10);
    out.push('/');
    push_signed_padded(&mut out, ts, 20);
    out.push('/');
    push_unsigned_padded(&mut out, frame_id, 20);
    assert(out@ =~= track_key_of(mmsi, ts, frame_id));
    string_from_chars(&out)
}

/// The MMSI that a latest-state key names: the key trimmed and parsed as a
/// `u32`.
pub open spec fn key_mmsi(key: Seq<char>) -> Option<u32> {
    match parse_unsigned(trim(key), u32::MAX as nat) {
        Some(v) => Some(v as u32),
        None => None,
    }
}

/// Reads the MMSI back from a latest-state key.
pub fn parse_latest_key(key: &str) -> (r: Option<u32>)
    ensures
        r == key_mmsi(key@),
{
    let cs = str_chars(key);
    let t = trim_chars(&cs);
    parse_u32(&t)
}

/// `std::str::from_utf8`: the text that `bytes` encode, `None` when they
/// are not valid UTF-8 (as vstd's `valid_utf8` and `decode_utf8` define it).
#[verifier::external_body]
fn utf8_text(bytes: &[u8]) -> (r: Option<&str>)
    ensures
        r is Some <==> vstd::utf8::valid_utf8(bytes@),
        r matches Some(s) ==> s@ == vstd::utf8::decode_utf8(bytes@),
{
    std::str::from_utf8(bytes).ok()
}

/// The MMSIs named by the keys of the latest-state partition, in key order:
/// `None` when a key is not valid UTF-8, otherwise the keys that parse,
/// skipping the others.
pub open spec fn keys_mmsis(keys: Seq<Seq<u8>>) -> Option<Seq<u32>>
    decreases keys.len(),
{
    if keys.len() == 0 {
        Some(Seq::empty())
    } else {
        match keys_mmsis(keys.drop_last()) {
            None => None,
            Some(ms) => if !vstd::utf8::valid_utf8(keys.last()) {
                None
            } else {
                match key_mmsi(vstd::utf8::decode_utf8(keys.last())) {
                    Some(m) => Some(ms.push(m)),
                    None => Some(ms),
                }
            },
        }
    }
}

/// The byte contents of a list of byte vectors.
pub open spec fn byte_views(keys: Seq<Vec<u8>>) -> Seq<Seq<u8>> {
    keys.map_values(|k: Vec<u8>| k@)
}

/// Lists the vessels of the latest-state partition from its raw keys.
pub fn mmsis_from_keys(keys: &Vec<Vec<u8>>) -> (r: Option<Vec<u32>>)
    ensures
        match keys_mmsis(byte_views(keys@)) {
            Some(ms) => r matches Some(v) && v@ == ms,
            None => r is None,
        },
{
    let mut out: Vec<u32> = Vec::new();
    let mut i: usize = 0;
    while i < keys.len()
        invariant
            i <= keys@.len(),
            keys_mmsis(byte_views(keys@.take(i as int))) == Some(out@),
        decreases keys@.len() - i,
    {
        assert(byte_views(keys@.take(i + 1)).drop_last() =~= byte_views(keys@.take(i as int)));
        assert(byte_views(keys@.take(i + 1)).last() == keys@[i as int]@);
        let text = match utf8_text(keys[i].as_slice()) {
            Some(t) => t,
            None => {
                proof {
                    lemma_keys_mmsis_none(byte_views(keys@), (i + 1) as int);
                    assert(byte_views(keys@).take(i + 1) =~= byte_views(keys@.take(i + 1)));
                }
                return None;
            },
        };
        match parse_latest_key(text) {
            Some(m) => {
                out.push(m);
            },
            None => {},
        }
        i = i + 1;
    }
    assert(keys@.take(keys@.len() as int) =~= keys@);
    Some(out)
}

proof fn lemma_keys_mmsis_none(keys: Seq<Seq<u8>>, k: int)
    requires
        0 <= k <= keys.len(),
        keys_mmsis(keys.take(k)) is None,
    ensures
        keys_mmsis(keys) is None,
    decreases keys.len(),
{
    if k < keys.len() {
        assert(keys.drop_last().take(k) =~= keys.take(k));
        lemma_keys_mmsis_none(keys.drop_last(), k);
    } else {
        assert(keys.take(k) =~= keys);
    }
}


proof fn lemma_pow10_values()
    ensures
        crate::text::pow10(10) == 10_000_000_000,
        crate::text::pow10(19) == 10_000_000_000_000_000_000,
{
    reveal_with_fuel(crate::text::pow10, 20);
}

/// Reading the vessel back from its latest-state key gives the vessel
/// (a write of its state is found again when the store lists its vessels).
pub proof fn law_latest_key_roundtrip(mmsi: u32)
    ensures
        key_mmsi(latest_key_of(mmsi)) == Some(mmsi),
{
    let k = latest_key_of(mmsi);
    crate::text::lemma_fmt_unsigned(mmsi as nat, 10);
    crate::text::lemma_trim_digits(k);
    assert(k[0] != '+') by {
        assert(crate::text::is_digit(k[0]));
    }
}

proof fn lemma_track_key_parts(mmsi: u32, ts: i64, id: u64)
    requires
        ts >= 0,
    ensures
        fmt_unsigned(mmsi as nat, 10).len() == 10,
        crate::text::all_digits(fmt_unsigned(mmsi as nat, 10)),
        crate::text::digits_value(fmt_unsigned(mmsi as nat, 10)) == mmsi,
        fmt_signed(ts as int, 20) == fmt_unsigned(ts as nat, 20),
        fmt_unsigned(ts as nat, 20).len() == 20,
        crate::text::all_digits(fmt_unsigned(ts as nat, 20)),
        crate::text::digits_value(fmt_unsigned(ts as nat, 20)) == ts,
        fmt_unsigned(id as nat, 20).len() == 20,
        crate::text::all_digits(fmt_unsigned(id as nat, 20)),
        crate::text::digits_value(fmt_unsigned(id as nat, 20)) == id,
{
    lemma_pow10_values();
    crate::text::lemma_fmt_unsigned(mmsi as nat, 10);
    crate::text::lemma_fmt_unsigned(ts as nat, 20);
    crate::text::lemma_fmt_unsigned(id as nat, 20);
    assert(ts < crate::text::pow10(20) && id < crate::text::pow10(20)) by {
        reveal_with_fuel(crate::text::pow10, 21);
    }
}

/// `x + "/"` against `y + "/"`, for `x` and `y` of equal length.
proof fn lemma_slash_suffix(x: Seq<char>, y: Seq<char>)
    requires
        x.len() == y.len(),
    ensures
        crate::text::lex_lt(x + seq!['/'], y + seq!['/']) <==> crate::text::lex_lt(x, y),
        (x + seq!['/'] == y + seq!['/']) <==> x == y,
{
    crate::text::lemma_lex_concat(x, seq!['/'], y, seq!['/']);
    let slash = seq!['/'];
    assert(slash.drop_first() =~= Seq::<char>::empty());
    assert(!crate::text::lex_lt(slash.drop_first(), slash.drop_first()));
    assert(!crate::text::lex_lt(slash, slash));
}

/// For timestamps at or after the epoch, track keys sort by vessel, then by
/// time, then by frame number, and two keys are equal only for the same
/// vessel, time and frame number.
pub proof fn law_track_key_order(m1: u32, t1: i64, i1: u64, m2: u32, t2: i64, i2: u64)
    requires
        t1 >= 0,
        t2 >= 0,
    ensures
        crate::text::lex_lt(track_key_of(m1, t1, i1), track_key_of(m2, t2, i2)) <==> (m1 < m2 || (
        m1 == m2 && t1 < t2) || (m1 == m2 && t1 == t2 && i1 < i2)),
        (track_key_of(m1, t1, i1) == track_key_of(m2, t2, i2)) <==> (m1 == m2 && t1 == t2 && i1
            == i2),
{
    lemma_track_key_parts(m1, t1, i1);
    lemma_track_key_parts(m2, t2, i2);
    let a1 = fmt_unsigned(m1 as nat, 10);
    let a2 = fmt_unsigned(m2 as nat, 10);
    let b1 = fmt_unsigned(t1 as nat, 20);
    let b2 = fmt_unsigned(t2 as nat, 20);
    let c1 = fmt_unsigned(i1 as nat, 20);
    let c2 = fmt_unsigned(i2 as nat, 20);
    let h1 = (a1 + seq!['/']) + (b1 + seq!['/']);
    let h2 = (a2 + seq!['/']) + (b2 + seq!['/']);
    assert(track_key_of(m1, t1, i1) =~= h1 + c1);
    assert(track_key_of(m2, t2, i2) =~= h2 + c2);
    crate::text::lemma_lex_concat(h1, c1, h2, c2);
    crate::text::lemma_lex_concat(a1 + seq!['/'], b1 + seq!['/'], a2 + seq!['/'], b2 + seq!['/']);
    lemma_slash_suffix(a1, a2);
    lemma_slash_suffix(b1, b2);
    crate::text::lemma_lex_digits(a1, a2);
    crate::text::lemma_lex_digits(b1, b2);
    crate::text::lemma_lex_digits(c1, c2);
}

/// For timestamps at or after the epoch, the track keys between
/// `track_key_of(mmsi, from, 0)` and `track_key_of(mmsi, to, u64::MAX)`
/// (inclusive) are exactly those of vessel `mmsi` at times from `from` to
/// `to`, whatever their frame numbers: a range query over the track
/// partition returns every frame written for that vessel in that window,
/// and no others.
pub proof fn law_track_range(mmsi: u32, from: i64, to: i64, m: u32, t: i64, i: u64)
    requires
        from >= 0,
        to >= 0,
        t >= 0,
    ensures
        crate::text::lex_le(track_key_of(mmsi, from, 0), track_key_of(m, t, i))
            && crate::text::lex_le(track_key_of(m, t, i), track_key_of(mmsi, to, u64::MAX)) <==> (m
            == mmsi && from <= t <= to),
{
    law_track_key_order(mmsi, from, 0, m, t, i);
    law_track_key_order(m, t, i, mmsi, to, u64::MAX);
}

/// The twenty-character timestamp field of a track key, read back: digits
/// worth `ts` when `ts >= 0`, else `-` followed by nineteen digits worth
/// `-ts`.
proof fn lemma_ts_field(ts: i64)
    ensures
        fmt_signed(ts as int, 20).len() == 20,
        ts >= 0 ==> crate::text::all_digits(fmt_signed(ts as int, 20))
            && crate::text::digits_value(fmt_signed(ts as int, 20)) == ts,
        ts < 0 ==> fmt_signed(ts as int, 20)[0] == '-' && crate::text::all_digits(
            fmt_signed(ts as int, 20).drop_first(),
        ) && crate::text::digits_value(fmt_signed(ts as int, 20).drop_first()) == -ts,
{
    lemma_pow10_values();
    if ts >= 0 {
        crate::text::lemma_fmt_unsigned(ts as nat, 20);
        assert(ts < crate::text::pow10(20)) by {
            reveal_with_fuel(crate::text::pow10, 21);
        }
    } else {
        let n = (-ts) as nat;
        crate::text::lemma_fmt_unsigned(n, 19);
        let f = fmt_signed(ts as int, 20);
        assert(f.drop_first() =~= fmt_unsigned(n, 19));
    }
}

/// Two track keys are equal exactly when they name the same vessel, time
/// and frame number, for every timestamp, before the epoch too: a write
/// never lands on the key of a different frame.
pub proof fn law_track_key_injective(m1: u32, t1: i64, i1: u64, m2: u32, t2: i64, i2: u64)
    ensures
        (track_key_of(m1, t1, i1) == track_key_of(m2, t2, i2)) <==> (m1 == m2 && t1 == t2 && i1
            == i2),
{
    lemma_track_key_parts(m1, 0, i1);
    lemma_track_key_parts(m2, 0, i2);
    lemma_ts_field(t1);
    lemma_ts_field(t2);
    let a1 = fmt_unsigned(m1 as nat, 10);
    let a2 = fmt_unsigned(m2 as nat, 10);
    let b1 = fmt_signed(t1 as int, 20);
    let b2 = fmt_signed(t2 as int, 20);
    let c1 = fmt_unsigned(i1 as nat, 20);
    let c2 = fmt_unsigned(i2 as nat, 20);
    let h1 = (a1 + seq!['/']) + (b1 + seq!['/']);
    let h2 = (a2 + seq!['/']) + (b2 + seq!['/']);
    assert(track_key_of(m1, t1, i1) =~= h1 + c1);
    assert(track_key_of(m2, t2, i2) =~= h2 + c2);
    crate::text::lemma_lex_concat(h1, c1, h2, c2);
    crate::text::lemma_lex_concat(a1 + seq!['/'], b1 + seq!['/'], a2 + seq!['/'], b2 + seq!['/']);
    lemma_slash_suffix(a1, a2);
    lemma_slash_suffix(b1, b2);
    crate::text::lemma_lex_digits(a1, a2);
    crate::text::lemma_lex_digits(c1, c2);
    if b1 == b2 {
        if t1 >= 0 && t2 < 0 {
            assert(crate::text::is_digit(b1[0]));
        } else if t1 < 0 && t2 >= 0 {
            assert(crate::text::is_digit(b2[0]));
        } else if t1 < 0 {
            assert(b1.drop_first() == b2.drop_first());
        }
    }
}

} // verus!
