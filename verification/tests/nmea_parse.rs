use maritime_mesh::normalize::{
    aisstream_to_frame, aisstream_to_frame_at, live_record_of, nonblank_name, parse_sentence,
    sentence_to_frame_at, AisStreamMsg,
};
use maritime_mesh::frame::{FrameType, VesselState};

const REF: &str = "!AIVDM,1,1,,B,177KQJ5000G?tO`K>RA1wUbN0TKH,0*5C";

fn chars(s: &str) -> Vec<char> {
    s.chars().collect()
}

#[test]
fn reference_sentence_parses() {
    let f = sentence_to_frame_at(REF, 3, 99).unwrap();
    assert_eq!(f.mmsi, 477553000);
    assert_eq!(f.cog, 510);
    assert_eq!(f.heading, Some(181));
    assert_eq!(f.rot, Some(0));
    assert_eq!(f.frame_id, 3);
    assert_eq!(f.timestamp_utc_ns, 99);
}

#[test]
fn surrounding_whitespace_is_trimmed() {
    let s = format!("  \t{REF}\r\n");
    assert!(sentence_to_frame_at(&s, 0, 0).is_some());
    let s = format!("\u{3000}{REF}\u{2003}");
    assert!(sentence_to_frame_at(&s, 0, 0).is_some());
}

#[test]
fn aivdo_is_accepted_other_talkers_are_not() {
    let s = REF.replacen("AIVDM", "AIVDO", 1);
    assert!(sentence_to_frame_at(&s, 0, 0).is_some());
    let s = REF.replacen("!AIVDM", "$GPGGA", 1);
    assert!(sentence_to_frame_at(&s, 0, 0).is_none());
    assert!(sentence_to_frame_at("", 0, 0).is_none());
}

#[test]
fn too_few_fields_is_rejected() {
    assert!(sentence_to_frame_at("!AIVDM,1,1,,B,177KQJ5000G?tO`K>RA1wUbN0TKH", 0, 0).is_none());
}

#[test]
fn multi_fragment_is_rejected() {
    let s = REF.replacen(",1,1,", ",2,1,", 1);
    assert!(sentence_to_frame_at(&s, 0, 0).is_none());
    // an unparsable count counts as 1
    let s = REF.replacen(",1,1,", ",x,1,", 1);
    assert!(sentence_to_frame_at(&s, 0, 0).is_some());
    let s = REF.replacen(",1,1,", ",+1,1,", 1);
    assert!(sentence_to_frame_at(&s, 0, 0).is_some());
    let s = REF.replacen(",1,1,", ",0,1,", 1);
    assert!(sentence_to_frame_at(&s, 0, 0).is_some());
}

#[test]
fn fill_bits_are_honoured() {
    // dropping six bits leaves too few for a report
    let s = REF.replacen(",0*5C", ",6*5C", 1);
    assert!(sentence_to_frame_at(&s, 0, 0).is_none());
    // an unparsable fill counts as 0
    let s = REF.replacen(",0*5C", ",z*5C", 1);
    assert!(sentence_to_frame_at(&s, 0, 0).is_some());
    let s = REF.replacen(",0*5C", ",300", 1);
    assert!(sentence_to_frame_at(&s, 0, 0).is_some());
}

#[test]
fn parse_sentence_on_chars() {
    let r = parse_sentence(&chars(REF)).unwrap();
    assert_eq!(r.mmsi, 477553000);
    assert!(parse_sentence(&chars("!AIVDM")).is_none());
}

fn msg() -> AisStreamMsg {
    AisStreamMsg {
        mmsi: 244_000_001,
        ship_name: Some("NORDIC STAR".to_string()),
        lat: 31_000_000,
        lon: 2_400_000,
        sog: 101,
        cog: 1800,
        true_heading: Some(511),
        rate_of_turn: Some(-128),
    }
}

#[test]
fn stream_frame_drops_unavailable_values() {
    let f = aisstream_to_frame_at(msg(), 9, 1234);
    assert_eq!(f.heading, None);
    assert_eq!(f.rot, None);
    assert_eq!(f.vessel_name.as_deref(), Some("NORDIC STAR"));
    assert_eq!(f.frame_type, FrameType::Real);
    assert_eq!(f.confidence, 1000);
    assert!(!f.position_acc);
    assert_eq!(f.timestamp_utc_ns, 1234);
    let m = AisStreamMsg { true_heading: Some(90), rate_of_turn: Some(-5), ..msg() };
    let f = aisstream_to_frame_at(m, 9, 1234);
    assert_eq!(f.heading, Some(90));
    assert_eq!(f.rot, Some(-5));
    assert!(aisstream_to_frame(msg(), 1).is_some());
}

#[test]
fn live_record_keeps_values_as_received() {
    let (state, frame) = live_record_of(msg(), 5, 77);
    assert_eq!(state.heading, Some(511));
    assert_eq!(frame.rot, Some(-128));
    assert_eq!(state.last_seen_ns, 77);
    assert!(!state.is_dark);
    assert_eq!(frame.frame_id, 5);
    assert_eq!(state.vessel_name, frame.vessel_name);
}

#[test]
fn ingested_frames_are_real_with_full_confidence() {
    let a = sentence_to_frame_at(REF, 1, 42).unwrap();
    let b = aisstream_to_frame_at(msg(), 1, 42);
    let (_, c) = live_record_of(msg(), 1, 42);
    for f in [a, b, c] {
        assert_eq!(f.frame_type, FrameType::Real);
        assert_eq!(f.confidence, 1000);
        assert_eq!(f.timestamp_utc_ns, 42);
        assert_eq!(f.ingested_at_ns, 42);
    }
}

#[test]
fn live_state_is_the_state_of_the_written_frame() {
    let (state, frame) = live_record_of(msg(), 9, 1_700_000_000_000_000_000);
    assert_eq!(VesselState::from(&frame), state);
}

#[test]
fn blank_names_are_dropped() {
    assert_eq!(nonblank_name(Some("  ".to_string())), None);
    assert_eq!(nonblank_name(Some(String::new())), None);
    assert_eq!(nonblank_name(None), None);
    assert_eq!(nonblank_name(Some(" A ".to_string())), Some(" A ".to_string()));
}
