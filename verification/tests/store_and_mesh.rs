use maritime_mesh::frame::{FrameType, GapData, GhostFrame, SynthModel, VesselState};
use maritime_mesh::mesh::{frame_key, frames_wildcard};
use maritime_mesh::store_keys::{latest_key, mmsis_from_keys, parse_latest_key, track_key};

#[test]
fn key_layout() {
    assert_eq!(latest_key(367001234), "0367001234");
    assert_eq!(latest_key(0), "0000000000");
    assert_eq!(latest_key(u32::MAX), "4294967295");
    assert_eq!(
        track_key(42, 1_700_000_000_000_000_000, 7),
        "0000000042/01700000000000000000/00000000000000000007"
    );
    assert_eq!(track_key(42, 0, 0), "0000000042/00000000000000000000/00000000000000000000");
    assert_eq!(track_key(42, -5, 1), "0000000042/-0000000000000000005/00000000000000000001");
    assert_eq!(
        track_key(1, i64::MIN, u64::MAX),
        "0000000001/-9223372036854775808/18446744073709551615"
    );
    assert_eq!(track_key(1, i64::MAX, 3), "0000000001/09223372036854775807/00000000000000000003");
}

#[test]
fn latest_key_reads_back() {
    for m in [0u32, 7, 367001234, u32::MAX] {
        assert_eq!(parse_latest_key(&latest_key(m)), Some(m));
    }
    assert_eq!(parse_latest_key(" 12 "), Some(12));
    assert_eq!(parse_latest_key("+12"), Some(12));
    assert_eq!(parse_latest_key("-12"), None);
    assert_eq!(parse_latest_key("4294967296"), None);
    assert_eq!(parse_latest_key(""), None);
}

#[test]
fn track_keys_sort_by_vessel_then_time() {
    let a = track_key(5, 1_000, 9);
    let b = track_key(5, 20_000, 0);
    let c = track_key(6, 0, 0);
    assert!(a < b && b < c);
    assert!(track_key(5, 999, u64::MAX) < a);
    // before the epoch the layout no longer sorts by time
    assert!(track_key(5, -1, 0) < track_key(5, -5, 0));
}

#[test]
fn frames_with_equal_timestamps_get_distinct_keys() {
    let first = track_key(5, 1_000, 1);
    let second = track_key(5, 1_000, 2);
    assert_ne!(first, second);
    assert!(first < second);
    // both fall in the range a track query over [1_000, 1_000] reads
    let (lo, hi) = (track_key(5, 1_000, 0), track_key(5, 1_000, u64::MAX));
    assert!(lo <= first && second <= hi);
    assert!(track_key(4, 1_000, 1) < lo && hi < track_key(5, 1_001, 0));
}

#[test]
fn track_keys_differ_for_different_frames_before_the_epoch_too() {
    let times = [i64::MIN, -10, -5, -1, 0, 1, 5, i64::MAX];
    for &a in &times {
        for &b in &times {
            assert_eq!(track_key(9, a, 3) == track_key(9, b, 3), a == b);
        }
    }
    assert_ne!(track_key(9, -1, 3), track_key(9, -1, 4));
    assert_ne!(track_key(9, -1, 3), track_key(10, -1, 3));
    assert_eq!(track_key(9, -7, 3), track_key(9, -7, 3));
}

#[test]
fn vessel_listing_from_keys() {
    let keys = vec![b"0000000042".to_vec(), b"not-a-number".to_vec(), b"0000000007".to_vec()];
    assert_eq!(mmsis_from_keys(&keys), Some(vec![42, 7]));
    let keys = vec![b"0000000042".to_vec(), vec![0xff, 0xfe]];
    assert_eq!(mmsis_from_keys(&keys), None);
    assert_eq!(mmsis_from_keys(&vec![]), Some(vec![]));
}

#[test]
fn mesh_keys() {
    assert_eq!(frame_key(0), "maritime/frames/0");
    assert_eq!(frame_key(17), "maritime/frames/17");
    assert_eq!(frame_key(u64::MAX), "maritime/frames/18446744073709551615");
    assert_eq!(frames_wildcard(), "maritime/frames/**");
    assert!(frame_key(3).starts_with(&frames_wildcard()[..16]));
}

fn frame(ft: FrameType) -> GhostFrame {
    GhostFrame {
        frame_id: 1,
        mmsi: 99,
        vessel_name: Some("X".to_string()),
        vessel_type: 70,
        lat: 1,
        lon: 2,
        altitude: 0,
        position_acc: true,
        sog: 3,
        cog: 4,
        heading: Some(5),
        rot: None,
        timestamp_utc_ns: 1000,
        ingested_at_ns: 2000,
        frame_type: ft,
        confidence: 900,
        source_node_id: 8,
    }
}

#[test]
fn frame_classification_and_state() {
    let gap = GapData {
        gap_start_ns: 1,
        gap_end_ns: None,
        last_lat: 0,
        last_lon: 0,
        last_sog: 0,
        last_cog: 0,
        coverage_area_id: 3,
        dark_event_id: 4,
    };
    let real = frame(FrameType::Real);
    let synth = frame(FrameType::Synthetic { model: SynthModel::KalmanConstantVelocity });
    let dark = frame(FrameType::GapMarker(gap));
    assert!(real.is_real() && !real.is_dark());
    assert!(!synth.is_real() && !synth.is_dark());
    assert!(dark.is_dark() && !dark.is_real());
    let s = VesselState::from(&dark);
    assert_eq!(
        s,
        VesselState {
            mmsi: 99,
            vessel_name: Some("X".to_string()),
            vessel_type: 70,
            lat: 1,
            lon: 2,
            sog: 3,
            cog: 4,
            heading: Some(5),
            last_seen_ns: 1000,
            is_dark: true,
            confidence: 900,
        }
    );
    assert!(!VesselState::from_frame(&real).is_dark);
}
