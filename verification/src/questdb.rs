//! The QuestDB side: how frames are tagged in InfluxDB line protocol, the
//! queries that read them back, and how stored rows are read back into frame
//! types and names.
use vstd::prelude::*;
use crate::frame::{FrameType, SynthModel};
use crate::text::{
    chars_eq, dec_digits, fmt_signed, push_decimal, push_signed_padded, push_str, str_chars,
    string_from_chars,
};

verus! {

/// The `frame_type` tag of a frame type.
pub open spec fn frame_type_tag_of(ft: FrameType) -> Seq<char> {
    match ft {
        FrameType::Real => "real"@,
        FrameType::Synthetic { .. } => "synthetic"@,
        FrameType::GapMarker(_) => "gap_marker"@,
    }
}

/// The `frame_type` tag written for a frame.
pub fn frame_type_tag(ft: &FrameType) -> (s: &'static str)
    ensures
        s@ == frame_type_tag_of(*ft),
{
    match ft {
        FrameType::Real => "real",
        FrameType::Synthetic { .. } => "synthetic",
        FrameType::GapMarker(_) => "gap_marker",
    }
}

/// A character that line protocol does not allow in a tag value.
pub open spec fn tag_unsafe(c: char) -> bool {
    c == ' ' || c == ',' || c == '='
}

/// The vessel-name tag: the name (or `unknown`) with spaces, commas and
/// equals signs replaced by `_`.
pub open spec fn name_tag_of(name: Option<Seq<char>>) -> Seq<char> {
    let n = match name {
        Some(s) => s,
        None => "unknown"@,
    };
    n.map_values(|c: char| if tag_unsafe(c) { '_' } else { c })
}

/// The vessel-name tag of a frame.
pub fn name_tag(name: Option<&str>) -> (t: String)
    ensures
        t@ == name_tag_of(match name {
            Some(s) => Some(s@),
            None => None,
        }),
{
    let n = match name {
        Some(s) => s,
        None => "unknown",
    };
    let cs = str_chars(n);
    let mut out: Vec<char> = Vec::new();
    let mut i: usize = 0;
    while i < cs.len()
        invariant
            i <= cs@.len(),
            out@ == cs@.take(i as int).map_values(|c: char| if tag_unsafe(c) { '_' } else { c }),
        decreases cs@.len() - i,
    {
        let c = cs[i];
        if c == ' ' || c == ',' || c == '=' {
            out.push('_');
        } else {
            out.push(c);
        }
        i = i + 1;
        assert(out@ =~= cs@.take(i as int).map_values(
            |c: char| if tag_unsafe(c) { '_' } else { c },
        ));
    }
    assert(cs@.take(cs@.len() as int) =~= cs@);
    string_from_chars(&out)
}

/// The frame type a stored `frame_type` value reads back as: `synthetic`
/// as a great-circle synthetic frame, `gap_marker` as nothing (gap markers
/// are left out of tracks), anything else as real.
pub open spec fn frame_type_from_tag_of(tag: Seq<char>) -> Option<FrameType> {
    if tag == "synthetic"@ {
        Some(FrameType::Synthetic { model: SynthModel::GreatCircle })
    } else if tag == "gap_marker"@ {
        None
    } else {
        Some(FrameType::Real)
    }
}

/// Reads back a stored `frame_type` value.
pub fn frame_type_from_tag(tag: &str) -> (r: Option<FrameType>)
    ensures
        r == frame_type_from_tag_of(tag@),
{
    let t = str_chars(tag);
    let syn = str_chars("synthetic");
    let gap = str_chars("gap_marker");
    if chars_eq(&t, &syn) {
        Some(FrameType::Synthetic { model: SynthModel::GreatCircle })
    } else if chars_eq(&t, &gap) {
        None
    } else {
        Some(FrameType::Real)
    }
}

/// A stored vessel name as the reader keeps it: non-empty, and, where
/// `drop_unknown` holds, not the placeholder `unknown`.
pub fn stored_name(name: Option<&str>, drop_unknown: bool) -> (r: Option<String>)
    ensures
        r matches Some(s) <==> (name matches Some(n) && n@.len() > 0 && !(drop_unknown && n@
            == "unknown"@)),
        r matches Some(s) ==> name matches Some(n) && s@ == n@,
{
    match name {
        Some(n) => {
            let cs = str_chars(n);
            if cs.len() == 0 {
                return None;
            }
            if drop_unknown {
                let unk = str_chars("unknown");
                if chars_eq(&cs, &unk) {
                    return None;
                }
            }
            Some(string_from_chars(&cs))
        },
        None => None,
    }
}

/// Frames written to QuestDB read back as the same kind of frame: a real
/// frame as real, a synthetic one as synthetic, and gap markers are left
/// out.
pub proof fn law_frame_type_tag_roundtrip(ft: FrameType)
    ensures
        match ft {
            FrameType::Real => frame_type_from_tag_of(frame_type_tag_of(ft)) == Some(FrameType::Real),
            FrameType::Synthetic { .. } => frame_type_from_tag_of(frame_type_tag_of(ft)) == Some(
                FrameType::Synthetic { model: SynthModel::GreatCircle },
            ),
            FrameType::GapMarker(_) => frame_type_from_tag_of(frame_type_tag_of(ft)) is None,
        },
{
    reveal_strlit("real");
    reveal_strlit("synthetic");
    reveal_strlit("gap_marker");
    assert("real"@[0] == 'r');
    assert("synthetic"@[0] == 's');
    assert("gap_marker"@[0] == 'g');
    assert("real"@ != "synthetic"@);
    assert("real"@ != "gap_marker"@);
    assert("gap_marker"@ != "synthetic"@);
}

/// The name tag holds no character that line protocol forbids in a tag
/// value, and has as many characters as the name it stands for.
pub proof fn law_name_tag_safe(name: Option<Seq<char>>)
    ensures
        forall|i: int| 0 <= i < name_tag_of(name).len() ==> !tag_unsafe(#[trigger] name_tag_of(name)[i]),
        name_tag_of(name).len() == (match name {
            Some(s) => s.len(),
            None => 7,
        }),
{
    reveal_strlit("unknown");
}

/// The query for the latest non-gap-marker row of every vessel seen in the
/// last `lookback_hours` hours.
pub open spec fn latest_states_sql_of(lookback_hours: u32) -> Seq<char> {
    "SELECT mmsi, vessel_name, vessel_type, lat, lon, sog, cog, heading, timestamp FROM ghost_frames WHERE timestamp > dateadd('h', -"@
        + dec_digits(lookback_hours as nat)
        + ", now()) AND frame_type != 'gap_marker' LATEST ON timestamp PARTITION BY mmsi"@
}

/// Builds the latest-states query.
pub fn latest_states_sql(lookback_hours: u32) -> (q: String)
    ensures
        q@ == latest_states_sql_of(lookback_hours),
{
    let mut out: Vec<char> = Vec::new();
    push_str(
        &mut out,
        "SELECT mmsi, vessel_name, vessel_type, lat, lon, sog, cog, heading, timestamp FROM ghost_frames WHERE timestamp > dateadd('h', -",
    );
    push_decimal(&mut out, lookback_hours as u64);
    push_str(&mut out, ", now()) AND frame_type != 'gap_marker' LATEST ON timestamp PARTITION BY mmsi");
    assert(out@ =~= latest_states_sql_of(lookback_hours));
    string_from_chars(&out)
}

/// The query for a vessel's rows between two timestamps (inclusive), oldest
/// first, at most 5000 of them.
pub open spec fn track_sql_of(mmsi: u32, from_ns: i64, to_ns: i64) -> Seq<char> {
    "SELECT frame_id, mmsi, vessel_name, vessel_type, lat, lon, sog, cog, heading, rot, timestamp, frame_type, confidence, source_node FROM ghost_frames WHERE mmsi = "@
        + dec_digits(mmsi as nat) + " AND timestamp BETWEEN "@ + fmt_signed(from_ns as int, 0)
        + " AND "@ + fmt_signed(to_ns as int, 0) + " ORDER BY timestamp ASC LIMIT 5000"@
}

/// Builds the track query.
pub fn track_sql(mmsi: u32, from_ns: i64, to_ns: i64) -> (q: String)
    ensures
        q@ == track_sql_of(mmsi, from_ns, to_ns),
{
    let mut out: Vec<char> = Vec::new();
    push_str(
        &mut out,
        "SELECT frame_id, mmsi, vessel_name, vessel_type, lat, lon, sog, cog, heading, rot, timestamp, frame_type, confidence, source_node FROM ghost_frames WHERE mmsi = ",
    );
    push_decimal(&mut out, mmsi as u64);
    push_str(&mut out, " AND timestamp BETWEEN ");
    push_signed_padded(&mut out, from_ns, 0);
    push_str(&mut out, " AND ");
    push_signed_padded(&mut out, to_ns, 0);
    push_str(&mut out, " ORDER BY timestamp ASC LIMIT 5000");
    assert(out@ =~= track_sql_of(mmsi, from_ns, to_ns));
    string_from_chars(&out)
}

} // verus!
