use maritime_mesh::frame::{FrameType, GapData, SynthModel};
use maritime_mesh::gfw::{
    count_unmatched, dark_confidence, detections_path, first_matching_ssvid, gap_events_path,
    gfw_url, response_has_body, vessel_search_path, DarkConfidence, DetectionSource,
};
use maritime_mesh::questdb::{
    frame_type_from_tag, frame_type_tag, latest_states_sql, name_tag, stored_name, track_sql,
};
use maritime_mesh::routes::{
    fishing_dataset, next_retry_ms, presence_dataset, tile_url, TileParams, TrackParams, DAY_NS,
};

#[test]
fn confidence_levels() {
    assert_eq!(dark_confidence(false, false, 9), DarkConfidence::NoEvent);
    assert_eq!(dark_confidence(true, true, 0), DarkConfidence::Low);
    assert_eq!(dark_confidence(true, false, 0), DarkConfidence::Medium);
    assert_eq!(dark_confidence(true, true, 2), DarkConfidence::High);
    assert_eq!(dark_confidence(true, false, 1).as_str(), "high");
    assert_eq!(DarkConfidence::NoEvent.as_str(), "none");
    assert_eq!(DarkConfidence::Low.as_str(), "low");
    assert_eq!(DarkConfidence::Medium.as_str(), "medium");
}

#[test]
fn unmatched_detections_are_counted() {
    assert_eq!(count_unmatched(&vec![true, false, false, true]), 2);
    assert_eq!(count_unmatched(&vec![]), 0);
}

#[test]
fn gfw_paths() {
    assert_eq!(
        gap_events_path("abc", "2024-01-01", "2024-01-08"),
        "/v3/events?types=GAP&vessels[0]=abc&startDate=2024-01-01&endDate=2024-01-08&datasets[0]=public-global-gaps-events:latest&limit=100"
    );
    assert_eq!(
        vessel_search_path(227006760),
        "/v3/vessels/search?query=227006760&datasets[0]=public-global-vessel-identity:latest&includes[0]=OWNERSHIP&includes[1]=AUTHORIZATIONS"
    );
    assert_eq!(gfw_url("/x"), "https://gateway.api.globalfishingwatch.org/x");
    assert_eq!(
        detections_path(DetectionSource::Sar.dataset(), "a", "b", "{\"t\":[1.5, -2]}"),
        "/v3/vessel-detections?datasets[0]=sar-detections:latest&startDate=a&endDate=b&geometry=%7B%22t%22%3A%5B1.5%2C%20-2%5D%7D&limit=200"
    );
    assert_eq!(DetectionSource::Viirs.dataset(), "viirs-band-detections:latest");
}

#[test]
fn only_ok_responses_carry_data() {
    assert!(response_has_body(200));
    assert!(!response_has_body(401));
    assert!(!response_has_body(403));
    assert!(!response_has_body(404));
    assert!(!response_has_body(500));
}

#[test]
fn search_picks_first_exact_mmsi() {
    let ids = vec!["2270067600".to_string(), "227006760".to_string(), "227006760".to_string()];
    assert_eq!(first_matching_ssvid(&ids, 227006760), Some(1));
    assert_eq!(first_matching_ssvid(&ids, 1), None);
    assert_eq!(first_matching_ssvid(&vec!["".to_string()], 0), None);
}

#[test]
fn track_window_defaults_to_last_day() {
    let now = 10 * DAY_NS;
    assert_eq!(TrackParams { from_ns: None, to_ns: None }.window(now), (9 * DAY_NS, now));
    assert_eq!(TrackParams { from_ns: Some(5), to_ns: None }.window(now), (5, now));
    assert_eq!(TrackParams { from_ns: None, to_ns: Some(6) }.window(now), (9 * DAY_NS, 6));
}

#[test]
fn tiles() {
    let p = TileParams { date_range: None };
    assert_eq!(p.date_range_or("2024-01-01", "2024-01-31"), "2024-01-01,2024-01-31");
    let p = TileParams { date_range: Some("x,y".to_string()) };
    assert_eq!(p.date_range_or("a", "b"), "x,y");
    assert_eq!(
        tile_url(presence_dataset(), 3, 4, 5, "a,b"),
        "https://gateway.api.globalfishingwatch.org/v3/4wings/tile/heatmap/3/4/5?datasets[0]=public-global-presence:latest&date-range=a,b&temporal-aggregation=true&format=PNG"
    );
    assert_eq!(fishing_dataset(), "public-global-fishing-effort:latest");
}

#[test]
fn retry_backoff() {
    assert_eq!(next_retry_ms(3_000), 6_000);
    assert_eq!(next_retry_ms(12_000), 24_000);
    assert_eq!(next_retry_ms(24_000), 30_000);
    assert_eq!(next_retry_ms(30_000), 30_000);
    assert_eq!(next_retry_ms(0), 0);
}

#[test]
fn line_protocol_tags() {
    assert_eq!(frame_type_tag(&FrameType::Real), "real");
    assert_eq!(frame_type_tag(&FrameType::Synthetic { model: SynthModel::GreatCircle }), "synthetic");
    let gap = GapData {
        gap_start_ns: 0,
        gap_end_ns: Some(1),
        last_lat: 0,
        last_lon: 0,
        last_sog: 0,
        last_cog: 0,
        coverage_area_id: 0,
        dark_event_id: 0,
    };
    assert_eq!(frame_type_tag(&FrameType::GapMarker(gap)), "gap_marker");
    assert_eq!(name_tag(Some("EVER GIVEN, A=1")), "EVER_GIVEN__A_1");
    assert_eq!(name_tag(None), "unknown");
}

#[test]
fn stored_rows_read_back() {
    assert_eq!(frame_type_from_tag("real"), Some(FrameType::Real));
    assert_eq!(frame_type_from_tag("whatever"), Some(FrameType::Real));
    assert_eq!(
        frame_type_from_tag("synthetic"),
        Some(FrameType::Synthetic { model: SynthModel::GreatCircle })
    );
    assert_eq!(frame_type_from_tag("gap_marker"), None);
    assert_eq!(stored_name(Some("unknown"), true), None);
    assert_eq!(stored_name(Some("unknown"), false), Some("unknown".to_string()));
    assert_eq!(stored_name(Some(""), false), None);
    assert_eq!(stored_name(Some("BOAT"), true), Some("BOAT".to_string()));
    assert_eq!(stored_name(None, false), None);
}

#[test]
fn questdb_queries() {
    let lookback_hours = 6u32;
    assert_eq!(
        latest_states_sql(lookback_hours),
        format!(
            "SELECT mmsi, vessel_name, vessel_type, lat, lon, sog, cog, heading, timestamp \
             FROM ghost_frames \
             WHERE timestamp > dateadd('h', -{lookback_hours}, now()) \
             AND frame_type != 'gap_marker' \
             LATEST ON timestamp PARTITION BY mmsi"
        )
    );
    let (mmsi, from_ns, to_ns) = (367001234u32, -5i64, 1_700_000_000_000_000_000i64);
    assert_eq!(
        track_sql(mmsi, from_ns, to_ns),
        format!(
            "SELECT frame_id, mmsi, vessel_name, vessel_type, lat, lon, \
             sog, cog, heading, rot, timestamp, frame_type, confidence, source_node \
             FROM ghost_frames \
             WHERE mmsi = {mmsi} \
             AND timestamp BETWEEN {from_ns} AND {to_ns} \
             ORDER BY timestamp ASC \
             LIMIT 5000"
        )
    );
    assert!(track_sql(0, i64::MIN, i64::MAX).contains("BETWEEN -9223372036854775808 AND 9223372036854775807"));
}
