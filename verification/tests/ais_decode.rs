use maritime_mesh::ais::{decode_position, payload_to_bits, AisPositionReport};
use maritime_mesh::bits::{read_i32, read_i8, read_u16, read_u32, read_u8};
use maritime_mesh::encode::nmea_checksum;

const PAYLOAD: &str = "177KQJ5000G?tO`K>RA1wUbN0TKH";

#[test]
fn checksum_of_reference_sentence() {
    assert_eq!(nmea_checksum("AIVDM,1,1,,B,177KQJ5000G?tO`K>RA1wUbN0TKH,0"), 0x5C);
}

#[test]
fn checksum_stops_at_star() {
    assert_eq!(nmea_checksum("AB*CD"), b'A' ^ b'B');
    assert_eq!(nmea_checksum("*"), 0);
    assert_eq!(nmea_checksum(""), 0);
}

#[test]
fn decodes_reference_class_a_report() {
    let r = decode_position(PAYLOAD, 0).expect("position report");
    assert_eq!(r.msg_type, 1);
    assert_eq!(r.mmsi, 477553000);
    assert_eq!(r.nav_status, 5);
    assert_eq!(r.rot, Some(0));
    assert_eq!(r.sog, 0);
    assert_eq!(r.cog, 510);
    assert_eq!(r.heading, Some(181));
    assert!(!r.position_acc);
    let lon = r.lon as f64 / 600_000.0;
    let lat = r.lat as f64 / 600_000.0;
    assert!((lon - -122.345832).abs() < 1e-5, "lon {lon}");
    assert!((lat - 47.582833).abs() < 1e-5, "lat {lat}");
}

#[test]
fn payload_bits_six_per_char() {
    let bits = payload_to_bits(PAYLOAD, 0);
    assert_eq!(bits.len(), 168);
    // '1' carries 1: 000001
    assert_eq!(&bits[0..6], &[false, false, false, false, false, true]);
    let bits = payload_to_bits(PAYLOAD, 4);
    assert_eq!(bits.len(), 164);
    let bits = payload_to_bits("0", 9);
    assert!(bits.is_empty());
}

#[test]
fn armouring_skips_eight_after_w() {
    // 'W' carries 39, '`' carries 40, 'w' carries 63.
    assert_eq!(payload_to_bits("W", 0), vec![true, false, false, true, true, true]);
    assert_eq!(payload_to_bits("`", 0), vec![true, false, true, false, false, false]);
    assert_eq!(payload_to_bits("w", 0), vec![true; 6]);
}

#[test]
fn short_payload_is_rejected() {
    assert_eq!(decode_position("177KQJ5000G?tO`K>RA1wUbN0TK", 0), None);
    assert_eq!(decode_position(PAYLOAD, 1), None);
}

#[test]
fn non_position_message_is_rejected() {
    // message type 5 (static data) in the first six bits
    let p = format!("5{}", &PAYLOAD[1..]);
    assert_eq!(decode_position(&p, 0), None);
}

#[test]
fn bit_fields_read_big_endian() {
    let bits = vec![true, false, true, true, false, false, false, true];
    assert_eq!(read_u32(&bits, 0, 4), 0b1011);
    assert_eq!(read_u32(&bits, 4, 4), 0b0001);
    assert_eq!(read_u8(&bits, 0, 8), 0b1011_0001);
    assert_eq!(read_u16(&bits, 2, 3), 0b110);
    // past the end reads as zero
    assert_eq!(read_u32(&bits, 6, 4), 0b0100);
    assert_eq!(read_i32(&bits, 0, 4), -5);
    assert_eq!(read_i32(&bits, 4, 4), 1);
    assert_eq!(read_i8(&bits, 0, 8), -79);
    let ones = vec![true; 32];
    assert_eq!(read_u32(&ones, 0, 32), u32::MAX);
    assert_eq!(read_i32(&ones, 0, 32), -1);
    assert_eq!(read_u8(&ones, 0, 12), 0xff);
}

#[test]
fn class_b_report_fields() {
    let mut bits = vec![0u8; 168];
    let put = |bits: &mut Vec<u8>, off: usize, len: usize, v: u64| {
        for i in 0..len {
            bits[off + i] = ((v >> (len - 1 - i)) & 1) as u8;
        }
    };
    put(&mut bits, 0, 6, 18);
    put(&mut bits, 8, 30, 123456789);
    put(&mut bits, 46, 10, 123);
    put(&mut bits, 56, 1, 1);
    put(&mut bits, 57, 28, (-600_000i64 as u64) & ((1 << 28) - 1));
    put(&mut bits, 85, 27, 1_200_000);
    put(&mut bits, 112, 12, 2700);
    put(&mut bits, 124, 9, 511);
    let payload = maritime_mesh::encode::bits_to_payload(&bits);
    let r = decode_position(&payload, 0).unwrap();
    assert_eq!(
        r,
        AisPositionReport {
            mmsi: 123456789,
            msg_type: 18,
            nav_status: 0,
            rot: Some(0),
            sog: 123,
            lon: -600_000,
            lat: 1_200_000,
            cog: 2700,
            heading: None,
            position_acc: true,
        }
    );
}

#[test]
fn armouring_any_bit_string_unpacks_to_it() {
    for len in [0usize, 1, 5, 6, 7, 11, 12, 13, 168] {
        let bits: Vec<u8> = (0..len).map(|i| ((i * 7 + i / 3) % 2) as u8).collect();
        let payload = maritime_mesh::encode::bits_to_payload(&bits);
        let fill = ((6 - len % 6) % 6) as u8;
        let back = payload_to_bits(&payload, fill);
        let want: Vec<bool> = bits.iter().map(|&b| b == 1).collect();
        assert_eq!(back, want, "length {len}");
    }
}
