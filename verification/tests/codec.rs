use datalogts::date::UtcDate;
use datalogts::errors::RelayError;
use datalogts::frame::{decode_frame, encode_frame, heartbeat_frame};

fn date(year: u16, month: u8, day: u8) -> UtcDate {
    UtcDate { year, month, day }
}

fn enc(api: &[u8], app: &[u8], env: &[u8], data: &[u8], d: &UtcDate) -> Result<Vec<u8>, RelayError> {
    encode_frame(&app.to_vec(), &env.to_vec(), &api.to_vec(), &data.to_vec(), d)
}

#[test]
fn heartbeat_literal() {
    let hb = heartbeat_frame();
    assert_eq!(hb, vec![0xf0u8, 0x00, 0x00, 0x00, 0x07, 0x00, 0xfe]);
}

#[test]
fn heartbeat_is_stable() {
    assert_eq!(heartbeat_frame(), heartbeat_frame());
}

#[test]
fn encode_exact_bytes() {
    let d = date(2024, 1, 5);
    let frame = enc(b"a", b"b", b"c", b"XY", &d).unwrap();
    let mut expected: Vec<u8> = vec![0xf0, 0x00, 0x00, 0x00, 0x36, 0x01, 0x03];
    expected.push(b'b');
    expected.extend_from_slice(&[0u8; 11]);
    expected.push(b'c');
    expected.extend_from_slice(&[0u8; 11]);
    expected.push(b'a');
    expected.extend_from_slice(&[0u8; 11]);
    expected.extend_from_slice(b"20240105");
    expected.extend_from_slice(b"XY");
    expected.push(0xfe);
    assert_eq!(frame, expected);
    assert_eq!(frame.len(), 54);
}

#[test]
fn length_field_matches_length() {
    let d = date(2026, 10, 12);
    let frame = enc(b"api0", b"app0", b"env0", b"payload bytes", &d).unwrap();
    let n = frame.len() as u32;
    assert_eq!(frame[1], (n >> 24) as u8);
    assert_eq!(frame[2], (n >> 16) as u8);
    assert_eq!(frame[3], (n >> 8) as u8);
    assert_eq!(frame[4], n as u8);
}

#[test]
fn encode_rejects_long_api() {
    let d = date(2024, 1, 5);
    let r = enc(b"thirteen-byte", b"app", b"env", b"x", &d);
    assert_eq!(r, Err(RelayError::FieldTooLong));
}

#[test]
fn encode_rejects_long_app() {
    let d = date(2024, 1, 5);
    let r = enc(b"api", b"thirteen-byte", b"env", b"x", &d);
    assert_eq!(r, Err(RelayError::FieldTooLong));
}

#[test]
fn encode_rejects_long_env() {
    let d = date(2024, 1, 5);
    let r = enc(b"api", b"app", b"thirteen-byte", b"x", &d);
    assert_eq!(r, Err(RelayError::FieldTooLong));
}

#[test]
fn encode_accepts_twelve_bytes() {
    let d = date(2024, 1, 5);
    let r = enc(b"twelve-bytes", b"twelve-bytes", b"twelve-bytes", b"", &d);
    assert!(r.is_ok());
    assert_eq!(r.unwrap().len(), 52);
}

#[test]
fn round_trip_recovers_fields() {
    let d = date(2025, 12, 31);
    let frame = enc(b"serviceapi", b"myapp", b"prod", b"some opaque data", &d).unwrap();
    let got = decode_frame(&frame).unwrap();
    assert_eq!(got.api, b"serviceapi".to_vec());
    assert_eq!(got.app, b"myapp".to_vec());
    assert_eq!(got.env, b"prod".to_vec());
    assert_eq!(got.date, b"20251231".to_vec());
    assert_eq!(got.data, b"some opaque data".to_vec());
}

#[test]
fn round_trip_empty_payload() {
    let d = date(1999, 9, 9);
    let frame = enc(b"a", b"b", b"c", b"", &d).unwrap();
    let got = decode_frame(&frame).unwrap();
    assert_eq!(got.data, Vec::<u8>::new());
    assert_eq!(got.date, b"19990909".to_vec());
}

#[test]
fn decode_rejects_bad_markers() {
    let d = date(2024, 1, 5);
    let mut frame = enc(b"a", b"b", b"c", b"XY", &d).unwrap();
    frame[0] = 0x00;
    assert!(decode_frame(&frame).is_none());
    let mut frame2 = enc(b"a", b"b", b"c", b"XY", &d).unwrap();
    let last = frame2.len() - 1;
    frame2[last] = 0x00;
    assert!(decode_frame(&frame2).is_none());
}

#[test]
fn decode_rejects_bad_length_field() {
    let d = date(2024, 1, 5);
    let mut frame = enc(b"a", b"b", b"c", b"XY", &d).unwrap();
    frame[4] = frame[4].wrapping_add(1);
    assert!(decode_frame(&frame).is_none());
}

#[test]
fn decode_rejects_short_input() {
    assert!(decode_frame(&heartbeat_frame()).is_none());
    assert!(decode_frame(&Vec::new()).is_none());
}

#[test]
fn same_day_same_date_field() {
    let d = date(2024, 7, 1);
    let f1 = enc(b"one", b"alpha", b"dev", b"first", &d).unwrap();
    let f2 = enc(b"two", b"beta", b"prod", b"second and longer", &d).unwrap();
    assert_eq!(&f1[43..51], &f2[43..51]);
    assert_eq!(&f1[43..51], b"20240701");
}

#[test]
fn day_boundary_changes_date_field() {
    let f1 = enc(b"a", b"b", b"c", b"x", &date(2024, 6, 30)).unwrap();
    let f2 = enc(b"a", b"b", b"c", b"x", &date(2024, 7, 1)).unwrap();
    assert_ne!(&f1[43..51], &f2[43..51]);
    assert_eq!(&f1[43..51], b"20240630");
    assert_eq!(&f2[43..51], b"20240701");
}

#[test]
fn date_field_zero_padded() {
    let frame = enc(b"a", b"b", b"c", b"", &date(987, 3, 4)).unwrap();
    assert_eq!(&frame[43..51], b"09870304");
}
