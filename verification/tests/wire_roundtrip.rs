use maritime_mesh::ais::decode_position;
use maritime_mesh::encode::{encode_payload, to_aivdm, write_bits, write_bits_i, bits_to_payload, nmea_checksum, PositionFix};
use maritime_mesh::frame::FrameType;
use maritime_mesh::normalize::{sentence_to_frame, sentence_to_frame_at};

fn fix() -> PositionFix {
    PositionFix { mmsi: 200_000_007, sog: 125, lon: 1_234_567, lat: 30_600_000, cog: 2345, heading: 234 }
}

#[test]
fn simulated_sentence_shape() {
    let s = to_aivdm(&fix());
    assert!(s.starts_with("!AIVDM,1,1,,A,"));
    assert!(s.ends_with("\r\n"));
    let star = s.find('*').unwrap();
    let body = &s[1..star];
    let ck = format!("{:02X}", nmea_checksum(body));
    assert_eq!(&s[star + 1..star + 3], ck.as_str());
    assert_eq!(encode_payload(&fix()).len(), 28);
}

#[test]
fn encoded_payload_decodes_to_fix() {
    let p = encode_payload(&fix());
    let r = decode_position(&p, 0).unwrap();
    assert_eq!(r.msg_type, 1);
    assert_eq!(r.mmsi, 200_000_007);
    assert_eq!(r.nav_status, 0);
    assert_eq!(r.rot, None);
    assert_eq!(r.sog, 125);
    assert!(r.position_acc);
    assert_eq!(r.lon, 1_234_567);
    assert_eq!(r.lat, 30_600_000);
    assert_eq!(r.cog, 2345);
    assert_eq!(r.heading, Some(234));
}

#[test]
fn negative_coordinates_roundtrip() {
    let f = PositionFix { lon: -73_407_499, lat: -28_549_700, ..fix() };
    let r = decode_position(&encode_payload(&f), 0).unwrap();
    assert_eq!(r.lon, -73_407_499);
    assert_eq!(r.lat, -28_549_700);
}

#[test]
fn out_of_range_fields_keep_low_bits() {
    let f = PositionFix { mmsi: u32::MAX, sog: 1024 + 5, lon: 1 << 27, lat: 0, cog: 4096, heading: 511, ..fix() };
    let r = decode_position(&encode_payload(&f), 0).unwrap();
    assert_eq!(r.mmsi, (u32::MAX as u64 % (1 << 30)) as u32);
    assert_eq!(r.sog, 5);
    assert_eq!(r.lon, -(1 << 27));
    assert_eq!(r.cog, 0);
    assert_eq!(r.heading, None);
}

#[test]
fn simulated_sentence_parses_back() {
    let s = to_aivdm(&fix());
    let f = sentence_to_frame_at(&s, 42, 1_700_000_000_000_000_000).unwrap();
    assert_eq!(f.frame_id, 42);
    assert_eq!(f.mmsi, 200_000_007);
    assert_eq!(f.lat, 30_600_000);
    assert_eq!(f.lon, 1_234_567);
    assert_eq!(f.sog, 125);
    assert_eq!(f.cog, 2345);
    assert_eq!(f.heading, Some(234));
    assert_eq!(f.rot, None);
    assert!(f.position_acc);
    assert_eq!(f.frame_type, FrameType::Real);
    assert_eq!(f.confidence, 1000);
    assert_eq!(f.timestamp_utc_ns, 1_700_000_000_000_000_000);
    assert_eq!(f.ingested_at_ns, 1_700_000_000_000_000_000);
    assert!(f.vessel_name.is_none());
    let g = sentence_to_frame(&s, 7).unwrap();
    assert_eq!(g.mmsi, f.mmsi);
    assert_eq!(g.timestamp_utc_ns, g.ingested_at_ns);
}

#[test]
fn zero_position_is_dropped() {
    let s = to_aivdm(&PositionFix { lat: 0, lon: 0, ..fix() });
    assert!(sentence_to_frame_at(&s, 1, 0).is_none());
    let s = to_aivdm(&PositionFix { lat: 1 << 27, lon: 1 << 28, ..fix() });
    assert!(sentence_to_frame_at(&s, 1, 0).is_none());
}

#[test]
fn write_bits_places_msb_first() {
    let mut b = vec![0u8; 10];
    write_bits(&mut b, 2, 4, 0b1011);
    assert_eq!(b, vec![0, 0, 1, 0, 1, 1, 0, 0, 0, 0]);
    let mut b = vec![0u8; 8];
    write_bits_i(&mut b, 0, 8, -128);
    assert_eq!(b, vec![1, 0, 0, 0, 0, 0, 0, 0]);
    let mut b = vec![0u8; 4];
    write_bits_i(&mut b, 0, 4, -1);
    assert_eq!(b, vec![1, 1, 1, 1]);
}

#[test]
fn bits_to_payload_armours() {
    assert_eq!(bits_to_payload(&vec![0, 0, 0, 0, 0, 1]), "1");
    assert_eq!(bits_to_payload(&vec![1, 0, 1, 0, 0, 0]), "`");
    assert_eq!(bits_to_payload(&vec![1, 1, 1, 1, 1, 1]), "w");
    // a short last chunk is packed from the top
    assert_eq!(bits_to_payload(&vec![0, 0, 0, 0, 0, 0, 1]), "0P");
    assert_eq!(bits_to_payload(&vec![]), "");
}
