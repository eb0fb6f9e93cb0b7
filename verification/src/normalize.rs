//! Normalisation of incoming AIS traffic into frames: raw NMEA AIVDM/AIVDO
//! sentences (simulator and offline replay) and decoded AISStream messages.
use vstd::prelude::*;
use crate::ais::{AisPositionReport, decode_payload, decode_position_chars};
use crate::clock::now_ns;
use crate::frame::{FrameType, GhostFrame, FULL_CONFIDENCE};
use crate::text::{first_piece, parse_u8, parse_unsigned, split, split_chars, str_chars, trim, trim_chars};

verus! {

/// `s` begins with `p`.
pub open spec fn starts_with(s: Seq<char>, p: Seq<char>) -> bool {
    s.len() >= p.len() && s.take(p.len() as int) == p
}

/// `"!AIVDM"`.
pub open spec fn aivdm_tag() -> Seq<char> {
    seq!['!', 'A', 'I', 'V', 'D', 'M']
}

/// `"!AIVDO"`.
pub open spec fn aivdo_tag() -> Seq<char> {
    seq!['!', 'A', 'I', 'V', 'D', 'O']
}

/// The position report that an NMEA sentence carries, as the ingest path
/// reads it: the trimmed sentence must start with `!AIVDM` or `!AIVDO` and
/// have at least seven comma-separated fields; a fragment count that parses
/// to more than 1 rejects it (one that does not parse counts as 1); the fill
/// bits are the number before `*` in the seventh field (0 when it does not
/// parse); the payload is the sixth field; a report at latitude and
/// longitude zero is dropped.
pub open spec fn sentence_report(s: Seq<char>) -> Option<AisPositionReport> {
    let t = trim(s);
    if !(starts_with(t, aivdm_tag()) || starts_with(t, aivdo_tag())) {
        None
    } else {
        let parts = split(t, ',');
        if parts.len() < 7 {
            None
        } else if (match parse_unsigned(parts[1], 255) {
            Some(v) => v,
            None => 1,
        }) > 1 {
            None
        } else {
            let fill: u8 = match parse_unsigned(split(parts[6], '*')[0], 255) {
                Some(v) => v as u8,
                None => 0,
            };
            match decode_payload(parts[5], fill) {
                Some(r) => if r.lat == 0 && r.lon == 0 {
                    None
                } else {
                    Some(r)
                },
                None => None,
            }
        }
    }
}

/// The frame built from a decoded report: a real frame with full
/// confidence, stamped `now` both as source and ingestion time.
pub open spec fn frame_from_report(r: AisPositionReport, frame_id: u64, now: i64) -> GhostFrame {
    GhostFrame {
        frame_id,
        mmsi: r.mmsi,
        vessel_name: None,
        vessel_type: 0,
        lat: r.lat,
        lon: r.lon,
        altitude: 0,
        position_acc: r.position_acc,
        sog: r.sog,
        cog: r.cog,
        heading: r.heading,
        rot: match r.rot {
            Some(x) => Some(x as i16),
            None => None,
        },
        timestamp_utc_ns: now,
        ingested_at_ns: now,
        frame_type: FrameType::Real,
        confidence: 1000,
        source_node_id: 0,
    }
}

/// The frame that `sentence_to_frame_at` yields.
pub open spec fn sentence_frame(s: Seq<char>, frame_id: u64, now: i64) -> Option<GhostFrame> {
    match sentence_report(s) {
        Some(r) => Some(frame_from_report(r, frame_id, now)),
        None => None,
    }
}

/// Parses an NMEA sentence held as characters into its position report.
pub fn parse_sentence(s: &Vec<char>) -> (r: Option<AisPositionReport>)
    ensures
        r == sentence_report(s@),
{
    let t = trim_chars(s);
    let tagged = t.len() >= 6 && t[0] == '!' && t[1] == 'A' && t[2] == 'I' && t[3] == 'V' && t[4]
        == 'D' && (t[5] == 'M' || t[5] == 'O');
    proof {
        if t@.len() >= 6 {
            if t@[5] == 'M' {
                assert(tagged == (t@.take(6) =~= aivdm_tag()));
            }
            if t@[5] == 'O' {
                assert(tagged == (t@.take(6) =~= aivdo_tag()));
            }
            if !tagged {
                assert(t@.take(6)[5] == t@[5]);
                if t@.take(6) == aivdm_tag() {
                    assert(t@.take(6)[0] == '!' && t@.take(6)[1] == 'A' && t@.take(6)[2] == 'I'
                        && t@.take(6)[3] == 'V' && t@.take(6)[4] == 'D' && t@.take(6)[5] == 'M');
                }
                if t@.take(6) == aivdo_tag() {
                    assert(t@.take(6)[0] == '!' && t@.take(6)[1] == 'A' && t@.take(6)[2] == 'I'
                        && t@.take(6)[3] == 'V' && t@.take(6)[4] == 'D' && t@.take(6)[5] == 'O');
                }
            }
        }
    }
    if !tagged {
        return None;
    }
    let parts = split_chars(&t, ',');
    if parts.len() < 7 {
        return None;
    }
    let total: u8 = match parse_u8(&parts[1]) {
        Some(v) => v,
        None => 1,
    };
    if total > 1 {
        return None;
    }
    let fill_text = first_piece(&parts[6], '*');
    let fill_bits: u8 = match parse_u8(&fill_text) {
        Some(v) => v,
        None => 0,
    };
    let report = match decode_position_chars(&parts[5], fill_bits) {
        Some(r) => r,
        None => return None,
    };
    if report.lat == 0 && report.lon == 0 {
        return None;
    }
    Some(report)
}

/// Builds a real frame from a decoded report.
pub fn frame_from_position(r: &AisPositionReport, frame_id: u64, now: i64) -> (f: GhostFrame)
    ensures
        f == frame_from_report(*r, frame_id, now),
{
    GhostFrame {
        frame_id,
        mmsi: r.mmsi,
        vessel_name: None,
        vessel_type: 0,
        lat: r.lat,
        lon: r.lon,
        altitude: 0,
        position_acc: r.position_acc,
        sog: r.sog,
        cog: r.cog,
        heading: r.heading,
        rot: match r.rot {
            Some(x) => Some(x as i16),
            None => None,
        },
        timestamp_utc_ns: now,
        ingested_at_ns: now,
        frame_type: FrameType::Real,
        confidence: FULL_CONFIDENCE,
        source_node_id: 0,
    }
}

/// Parses a raw NMEA AIVDM/AIVDO sentence into a frame stamped `now`.
pub fn sentence_to_frame_at(sentence: &str, frame_id: u64, now: i64) -> (f: Option<GhostFrame>)
    ensures
        f == sentence_frame(sentence@, frame_id, now),
{
    let cs = str_chars(sentence);
    match parse_sentence(&cs) {
        Some(r) => Some(frame_from_position(&r, frame_id, now)),
        None => None,
    }
}

/// Parses a raw NMEA AIVDM/AIVDO sentence into a frame stamped with the
/// current time.
pub fn sentence_to_frame(sentence: &str, frame_id: u64) -> (f: Option<GhostFrame>)
    ensures
        f is Some <==> sentence_report(sentence@) is Some,
        f matches Some(fr) ==> exists|t: i64| fr == frame_from_report(
            sentence_report(sentence@)->0,
            frame_id,
            t,
        ),
{
    let now = now_ns();
    sentence_to_frame_at(sentence, frame_id, now)
}


/// A decoded AISStream position message, in transmitted units.
#[derive(Debug, Clone, PartialEq, Eq)]
pub struct AisStreamMsg {
    pub mmsi: u32,
    pub ship_name: Option<String>,
    /// Latitude, 1/10000 arc-minute.
    pub lat: i32,
    /// Longitude, 1/10000 arc-minute.
    pub lon: i32,
    /// Speed over ground, tenths of a knot.
    pub sog: u16,
    /// Course over ground, tenths of a degree.
    pub cog: u16,
    pub true_heading: Option<u16>,
    pub rate_of_turn: Option<i16>,
}

/// The heading, unless it is the "not available" value 511.
pub open spec fn known_heading(h: Option<u16>) -> Option<u16> {
    match h {
        Some(v) => if v != 511 {
            Some(v)
        } else {
            None
        },
        None => None,
    }
}

/// The rate of turn, unless it is the "not available" value -128.
pub open spec fn known_rot(r: Option<i16>) -> Option<i16> {
    match r {
        Some(v) => if v != -128 {
            Some(v)
        } else {
            None
        },
        None => None,
    }
}

/// The frame that the ingest service builds from an AISStream message.
pub open spec fn stream_frame(m: AisStreamMsg, frame_id: u64, now: i64) -> GhostFrame {
    GhostFrame {
        frame_id,
        mmsi: m.mmsi,
        vessel_name: m.ship_name,
        vessel_type: 0,
        lat: m.lat,
        lon: m.lon,
        altitude: 0,
        position_acc: false,
        sog: m.sog,
        cog: m.cog,
        heading: known_heading(m.true_heading),
        rot: known_rot(m.rate_of_turn),
        timestamp_utc_ns: now,
        ingested_at_ns: now,
        frame_type: FrameType::Real,
        confidence: 1000,
        source_node_id: 0,
    }
}

/// Builds the real frame for an AISStream message, stamped `now`; the
/// "not available" heading (511) and rate of turn (-128) are dropped.
pub fn aisstream_to_frame_at(msg: AisStreamMsg, frame_id: u64, now: i64) -> (f: GhostFrame)
    ensures
        f == stream_frame(msg, frame_id, now),
{
    let heading = match msg.true_heading {
        Some(h) => if h != 511 {
            Some(h)
        } else {
            None
        },
        None => None,
    };
    let rot = match msg.rate_of_turn {
        Some(r) => if r != -128 {
            Some(r)
        } else {
            None
        },
        None => None,
    };
    GhostFrame {
        frame_id,
        mmsi: msg.mmsi,
        vessel_name: msg.ship_name,
        vessel_type: 0,
        lat: msg.lat,
        lon: msg.lon,
        altitude: 0,
        position_acc: false,
        sog: msg.sog,
        cog: msg.cog,
        heading,
        rot,
        timestamp_utc_ns: now,
        ingested_at_ns: now,
        frame_type: FrameType::Real,
        confidence: FULL_CONFIDENCE,
        source_node_id: 0,
    }
}

/// Builds the real frame for an AISStream message, stamped with the current
/// time. Always yields a frame.
pub fn aisstream_to_frame(msg: AisStreamMsg, frame_id: u64) -> (f: Option<GhostFrame>)
    ensures
        f matches Some(fr) && exists|t: i64| fr == stream_frame(msg, frame_id, t),
{
    let now = now_ns();
    Some(aisstream_to_frame_at(msg, frame_id, now))
}

/// The vessel state and the frame that the API's live feed records for an
/// AISStream message received at `now` (heading and rate of turn are kept
/// as received).
pub open spec fn live_record(m: AisStreamMsg, frame_id: u64, now: i64) -> (
    crate::frame::VesselState,
    GhostFrame,
) {
    (
        crate::frame::VesselState {
            mmsi: m.mmsi,
            vessel_name: m.ship_name,
            vessel_type: 0,
            lat: m.lat,
            lon: m.lon,
            sog: m.sog,
            cog: m.cog,
            heading: m.true_heading,
            last_seen_ns: now,
            is_dark: false,
            confidence: 1000,
        },
        GhostFrame {
            frame_id,
            mmsi: m.mmsi,
            vessel_name: m.ship_name,
            vessel_type: 0,
            lat: m.lat,
            lon: m.lon,
            altitude: 0,
            position_acc: false,
            sog: m.sog,
            cog: m.cog,
            heading: m.true_heading,
            rot: m.rate_of_turn,
            timestamp_utc_ns: now,
            ingested_at_ns: now,
            frame_type: FrameType::Real,
            confidence: 1000,
            source_node_id: 0,
        },
    )
}

/// The state and frame the live feed records for a message.
pub fn live_record_of(msg: AisStreamMsg, frame_id: u64, now: i64) -> (r: (
    crate::frame::VesselState,
    GhostFrame,
))
    ensures
        r == live_record(msg, frame_id, now),
{
    let state = crate::frame::VesselState {
        mmsi: msg.mmsi,
        vessel_name: crate::frame::clone_name(&msg.ship_name),
        vessel_type: 0,
        lat: msg.lat,
        lon: msg.lon,
        sog: msg.sog,
        cog: msg.cog,
        heading: msg.true_heading,
        last_seen_ns: now,
        is_dark: false,
        confidence: FULL_CONFIDENCE,
    };
    let frame = GhostFrame {
        frame_id,
        mmsi: msg.mmsi,
        vessel_name: msg.ship_name,
        vessel_type: 0,
        lat: msg.lat,
        lon: msg.lon,
        altitude: 0,
        position_acc: false,
        sog: msg.sog,
        cog: msg.cog,
        heading: msg.true_heading,
        rot: msg.rate_of_turn,
        timestamp_utc_ns: now,
        ingested_at_ns: now,
        frame_type: FrameType::Real,
        confidence: FULL_CONFIDENCE,
        source_node_id: 0,
    };
    (state, frame)
}

/// Keeps a ship name only when it holds more than whitespace.
pub fn nonblank_name(name: Option<String>) -> (r: Option<String>)
    ensures
        r == (if name matches Some(s) && trim(s@).len() > 0 { name } else { None }),
{
    match name {
        Some(s) => {
            let cs = str_chars(s.as_str());
            let t = trim_chars(&cs);
            if t.len() > 0 {
                Some(s)
            } else {
                None
            }
        },
        None => None,
    }
}

/// The state the API's live feed keeps for a vessel is the state the
/// ghost-log derives from the frame it writes for the same message, so a
/// cold start restores what the live map held.
pub proof fn law_live_state_matches_frame(m: AisStreamMsg, frame_id: u64, now: i64)
    ensures
        live_record(m, frame_id, now).0 == crate::frame::state_of(live_record(m, frame_id, now).1),
{
}

/// Every frame the ingestion layer makes from received traffic (an NMEA
/// report, an AISStream message, or the API's live feed) is a real frame
/// with full confidence, stamped with its receipt time as both source and
/// ingestion time.
pub proof fn law_ingested_frames_are_real(
    r: AisPositionReport,
    m: AisStreamMsg,
    frame_id: u64,
    now: i64,
)
    ensures
        ({
            let a = frame_from_report(r, frame_id, now);
            &&& a.frame_type == FrameType::Real
            &&& a.confidence == FULL_CONFIDENCE
            &&& a.timestamp_utc_ns == now && a.ingested_at_ns == now
        }),
        ({
            let b = stream_frame(m, frame_id, now);
            &&& b.frame_type == FrameType::Real
            &&& b.confidence == FULL_CONFIDENCE
            &&& b.timestamp_utc_ns == now && b.ingested_at_ns == now
        }),
        ({
            let c = live_record(m, frame_id, now).1;
            &&& c.frame_type == FrameType::Real
            &&& c.confidence == FULL_CONFIDENCE
            &&& c.timestamp_utc_ns == now && c.ingested_at_ns == now
        }),
{
}

/// The frame built from a decoded report carries the report unchanged: the
/// given frame number, the report's MMSI, position, accuracy flag, speed,
/// course, heading and rate of turn (the same value, widened), no name or
/// type, altitude 0, and is a real frame of full confidence from node 0,
/// stamped `now` as source and ingestion time.
pub proof fn law_report_frame_fields(r: AisPositionReport, frame_id: u64, now: i64)
    ensures
        ({
            let f = frame_from_report(r, frame_id, now);
            &&& f.frame_id == frame_id
            &&& f.mmsi == r.mmsi
            &&& f.vessel_name is None
            &&& f.vessel_type == 0
            &&& f.lat == r.lat
            &&& f.lon == r.lon
            &&& f.altitude == 0
            &&& f.position_acc == r.position_acc
            &&& f.sog == r.sog
            &&& f.cog == r.cog
            &&& f.heading == r.heading
            &&& (r.rot is None ==> f.rot is None)
            &&& (r.rot is Some ==> f.rot is Some && f.rot->0 == r.rot->0)
            &&& f.timestamp_utc_ns == now
            &&& f.ingested_at_ns == now
            &&& f.frame_type == FrameType::Real
            &&& f.confidence == 1000
            &&& f.source_node_id == 0
        }),
{
}

/// The frame the ingest service builds from an AISStream message carries
/// the message's own identity, name, position and kinematics; a heading of
/// 511 and a rate of turn of -128 ("not available") become `None`, any
/// other value is kept as it is; the position is not marked accurate.
pub proof fn law_stream_frame_fields(m: AisStreamMsg, frame_id: u64, now: i64)
    ensures
        ({
            let f = stream_frame(m, frame_id, now);
            &&& f.frame_id == frame_id
            &&& f.mmsi == m.mmsi
            &&& f.vessel_name == m.ship_name
            &&& f.vessel_type == 0
            &&& f.lat == m.lat
            &&& f.lon == m.lon
            &&& f.altitude == 0
            &&& !f.position_acc
            &&& f.sog == m.sog
            &&& f.cog == m.cog
            &&& (m.true_heading is None || m.true_heading == Some(511u16) ==> f.heading is None)
            &&& (m.true_heading is Some && m.true_heading->0 != 511 ==> f.heading == m.true_heading)
            &&& (m.rate_of_turn is None || m.rate_of_turn == Some(-128i16) ==> f.rot is None)
            &&& (m.rate_of_turn is Some && m.rate_of_turn->0 != -128 ==> f.rot == m.rate_of_turn)
            &&& f.timestamp_utc_ns == now
            &&& f.ingested_at_ns == now
            &&& f.frame_type == FrameType::Real
            &&& f.confidence == 1000
            &&& f.source_node_id == 0
        }),
{
}

/// What the API's live feed records for a message: a state and a frame that
/// both carry the message's identity, name, position, speed, course and
/// heading as received (the frame also its rate of turn), stamped `now`;
/// the state is not dark and has full confidence.
pub proof fn law_live_record_fields(m: AisStreamMsg, frame_id: u64, now: i64)
    ensures
        ({
            let (st, f) = live_record(m, frame_id, now);
            &&& st.mmsi == m.mmsi && f.mmsi == m.mmsi
            &&& st.vessel_name == m.ship_name && f.vessel_name == m.ship_name
            &&& st.lat == m.lat && f.lat == m.lat
            &&& st.lon == m.lon && f.lon == m.lon
            &&& st.sog == m.sog && f.sog == m.sog
            &&& st.cog == m.cog && f.cog == m.cog
            &&& st.heading == m.true_heading && f.heading == m.true_heading
            &&& f.rot == m.rate_of_turn
            &&& st.vessel_type == 0 && f.vessel_type == 0
            &&& st.last_seen_ns == now
            &&& !st.is_dark
            &&& st.confidence == 1000
            &&& f.frame_id == frame_id
            &&& f.altitude == 0 && !f.position_acc
            &&& f.timestamp_utc_ns == now && f.ingested_at_ns == now
            &&& f.frame_type == FrameType::Real
            &&& f.confidence == 1000
            &&& f.source_node_id == 0
        }),
{
}

/// A sentence the ingest path accepts is, once trimmed, an `!AIVDM` or
/// `!AIVDO` sentence of at least seven fields, and its report is a position
/// report (type 1, 2, 3 or 18) away from latitude and longitude zero.
pub proof fn law_accepted_sentence(s: Seq<char>)
    ensures
        sentence_report(s) matches Some(r) ==> {
            &&& starts_with(trim(s), aivdm_tag()) || starts_with(trim(s), aivdo_tag())
            &&& split(trim(s), ',').len() >= 7
            &&& !(r.lat == 0 && r.lon == 0)
            &&& r.msg_type == 1 || r.msg_type == 2 || r.msg_type == 3 || r.msg_type == 18
        },
{
    let t = trim(s);
    if sentence_report(s) is Some {
        let parts = split(t, ',');
        let fill: u8 = match parse_unsigned(split(parts[6], '*')[0], 255) {
            Some(v) => v as u8,
            None => 0,
        };
        crate::ais::law_decode_position_layout(crate::ais::payload_bits(parts[5], fill));
    }
}

} // verus!
