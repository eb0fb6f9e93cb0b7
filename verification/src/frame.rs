//! The frame schema. Every telemetry unit, real or synthetic, is a
//! `GhostFrame`; `VesselState` is the compact latest-known state of a
//! vessel. Positions and kinematics are held in the fixed-point units that
//! AIS transmits.
use vstd::prelude::*;

verus! {

/// Motion model that produced a synthetic frame.
#[derive(Debug, Clone, Copy, PartialEq, Eq)]
pub enum SynthModel {
    KalmanConstantVelocity,
    KalmanConstantAcceleration,
    GreatCircle,
}

/// Dark-activity data carried by a gap-marker frame.
#[derive(Debug, Clone, Copy, PartialEq, Eq)]
pub struct GapData {
    pub gap_start_ns: i64,
    pub gap_end_ns: Option<i64>,
    /// Last known latitude, 1/10000 arc-minute.
    pub last_lat: i32,
    /// Last known longitude, 1/10000 arc-minute.
    pub last_lon: i32,
    /// Last known speed over ground, tenths of a knot.
    pub last_sog: u16,
    /// Last known course over ground, tenths of a degree.
    pub last_cog: u16,
    pub coverage_area_id: u32,
    pub dark_event_id: u64,
}

/// Classification of a frame.
#[derive(Debug, Clone, Copy, PartialEq, Eq)]
pub enum FrameType {
    Real,
    Synthetic { model: SynthModel },
    GapMarker(GapData),
}

/// One unit of telemetry.
#[derive(Debug, Clone, PartialEq, Eq)]
pub struct GhostFrame {
    pub frame_id: u64,
    pub mmsi: u32,
    pub vessel_name: Option<String>,
    pub vessel_type: u8,
    /// Latitude (WGS84), 1/10000 arc-minute.
    pub lat: i32,
    /// Longitude (WGS84), 1/10000 arc-minute.
    pub lon: i32,
    /// Altitude above sea level, metres.
    pub altitude: i32,
    pub position_acc: bool,
    /// Speed over ground, tenths of a knot.
    pub sog: u16,
    /// Course over ground, tenths of a degree.
    pub cog: u16,
    /// True heading in degrees, when known.
    pub heading: Option<u16>,
    /// Rate-of-turn indicator as transmitted, when known.
    pub rot: Option<i16>,
    pub timestamp_utc_ns: i64,
    pub ingested_at_ns: i64,
    pub frame_type: FrameType,
    /// Confidence in thousandths (1000 for a real frame).
    pub confidence: u16,
    pub source_node_id: u64,
}

/// Full confidence, in thousandths.
pub const FULL_CONFIDENCE: u16 = 1000;

impl GhostFrame {
    /// The frame marks the start of a dark event.
    pub fn is_dark(&self) -> (b: bool)
        ensures
            b == (self.frame_type is GapMarker),
    {
        match self.frame_type {
            FrameType::GapMarker(_) => true,
            _ => false,
        }
    }

    /// The frame comes straight from a transponder.
    pub fn is_real(&self) -> (b: bool)
        ensures
            b == (self.frame_type is Real),
    {
        match self.frame_type {
            FrameType::Real => true,
            _ => false,
        }
    }
}

/// Latest known state of a vessel.
#[derive(Debug, Clone, PartialEq, Eq)]
pub struct VesselState {
    pub mmsi: u32,
    pub vessel_name: Option<String>,
    pub vessel_type: u8,
    /// Latitude, 1/10000 arc-minute.
    pub lat: i32,
    /// Longitude, 1/10000 arc-minute.
    pub lon: i32,
    /// Speed over ground, tenths of a knot.
    pub sog: u16,
    /// Course over ground, tenths of a degree.
    pub cog: u16,
    /// True heading in degrees, when known.
    pub heading: Option<u16>,
    pub last_seen_ns: i64,
    pub is_dark: bool,
    /// Confidence in thousandths.
    pub confidence: u16,
}

/// The vessel state that a frame yields.
pub open spec fn state_of(f: GhostFrame) -> VesselState {
    VesselState {
        mmsi: f.mmsi,
        vessel_name: f.vessel_name,
        vessel_type: f.vessel_type,
        lat: f.lat,
        lon: f.lon,
        sog: f.sog,
        cog: f.cog,
        heading: f.heading,
        last_seen_ns: f.timestamp_utc_ns,
        is_dark: f.frame_type is GapMarker,
        confidence: f.confidence,
    }
}

/// A copy of an optional name.
pub fn clone_name(n: &Option<String>) -> (r: Option<String>)
    ensures
        r == *n,
{
    match n {
        Some(s) => Some(s.clone()),
        None => None,
    }
}

impl VesselState {
    /// The state a frame yields: its identity, position and kinematics, its
    /// source timestamp as the time last seen, and whether it is dark.
    pub fn from_frame(f: &GhostFrame) -> (s: VesselState)
        ensures
            s == state_of(*f),
    {
        VesselState {
            mmsi: f.mmsi,
            vessel_name: clone_name(&f.vessel_name),
            vessel_type: f.vessel_type,
            lat: f.lat,
            lon: f.lon,
            sog: f.sog,
            cog: f.cog,
            heading: f.heading,
            last_seen_ns: f.timestamp_utc_ns,
            is_dark: f.is_dark(),
            confidence: f.confidence,
        }
    }
}


impl<'a> From<&'a GhostFrame> for VesselState {
    fn from(f: &'a GhostFrame) -> (s: VesselState) {
        VesselState::from_frame(f)
    }
}

impl<'a> vstd::std_specs::convert::FromSpecImpl<&'a GhostFrame> for VesselState {
    open spec fn obeys_from_spec() -> bool {
        true
    }

    open spec fn from_spec(f: &'a GhostFrame) -> VesselState {
        state_of(*f)
    }
}

/// The state a frame yields keeps the frame's identity, name, type,
/// position, speed, course, heading and confidence, takes its source
/// timestamp as the time last seen, and is dark exactly for a gap marker.
pub proof fn law_state_of_fields(f: GhostFrame)
    ensures
        ({
            let st = state_of(f);
            &&& st.mmsi == f.mmsi
            &&& st.vessel_name == f.vessel_name
            &&& st.vessel_type == f.vessel_type
            &&& st.lat == f.lat
            &&& st.lon == f.lon
            &&& st.sog == f.sog
            &&& st.cog == f.cog
            &&& st.heading == f.heading
            &&& st.last_seen_ns == f.timestamp_utc_ns
            &&& (st.is_dark <==> f.frame_type is GapMarker)
            &&& st.confidence == f.confidence
        }),
{
}

} // verus!
