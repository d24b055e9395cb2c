use apns_mock::frame::NotificationReadError;
use apns_mock::hex::U8Vec;
use apns_mock::json::is_parse_safe;
use apns_mock::notifications::{Notification, NotificationReader};
use rustc_serialize::json::Json;

fn item(id: u8, value: &[u8]) -> Vec<u8> {
    let mut out = vec![id, (value.len() / 256) as u8, (value.len() % 256) as u8];
    out.extend_from_slice(value);
    out
}

fn frame(command: u8, items: &[Vec<u8>]) -> Vec<u8> {
    let body: Vec<u8> = items.iter().flat_map(|i| i.iter().copied()).collect();
    let mut out = vec![command];
    out.extend_from_slice(&(body.len() as u32).to_be_bytes());
    out.extend_from_slice(&body);
    out
}

fn all_items(token: &[u8], payload: &str, identifier: u32, expiration: u32, priority: u8) -> Vec<Vec<u8>> {
    vec![
        item(1, token),
        item(2, payload.as_bytes()),
        item(3, &identifier.to_be_bytes()),
        item(4, &expiration.to_be_bytes()),
        item(5, &[priority]),
    ]
}

fn decode(bytes: Vec<u8>) -> Result<Notification, NotificationReadError> {
    NotificationReader::new(bytes).read_notification()
}

#[test]
fn hex_renders_two_lowercase_digits_per_byte() {
    assert_eq!(U8Vec(vec![0x01, 0x02, 0xab, 0xff, 0x00]).to_hex(), "0102abff00");
    assert_eq!(U8Vec(vec![]).to_hex(), "");
}

#[test]
fn end_to_end_frame_decodes_to_its_fields() {
    let payload = "{\"aps\":{\"alert\":\"hi\"}}";
    let bytes = frame(2, &all_items(&[0x01, 0x02], payload, 42, 1000, 10));
    let n = decode(bytes).ok().expect("frame decodes");
    assert_eq!(n.device_token(), "0102");
    assert!(*n.payload() == Json::from_str(payload).unwrap());
    assert_eq!(n.identifier(), 42);
    assert_eq!(n.expiration_date(), 1000);
    assert_eq!(n.priority(), 10);
}

#[test]
fn round_trip_consumes_exactly_the_frame() {
    let payload = "[1, 2, {\"k\": null}]";
    let mut bytes = frame(7, &all_items(&[0xde, 0xad, 0xbe, 0xef], payload, 0xffff_ffff, 0, 255));
    let frame_len = bytes.len();
    bytes.extend_from_slice(&[9, 9, 9]);
    let mut reader = NotificationReader::new(bytes);
    let n = reader.read_notification().ok().expect("frame decodes");
    assert_eq!(n.device_token(), "deadbeef");
    assert!(*n.payload() == Json::from_str(payload).unwrap());
    assert_eq!(n.identifier(), 0xffff_ffff);
    assert_eq!(n.expiration_date(), 0);
    assert_eq!(n.priority(), 255);
    assert_eq!(reader.pending(), 3);
    assert!(frame_len > 3);
}

#[test]
fn each_missing_field_is_named() {
    let expected = [
        NotificationReadError::NotificationReadMissingDeviceToken,
        NotificationReadError::NotificationReadMissingPayload,
        NotificationReadError::NotificationReadMissingIdentifier,
        NotificationReadError::NotificationReadMissingExpiration,
        NotificationReadError::NotificationReadMissingPriority,
    ];
    for omit in 0..5 {
        let mut items = all_items(&[0xaa], "{}", 1, 2, 3);
        items.remove(omit);
        let r = decode(frame(2, &items));
        assert_eq!(r.err(), Some(expected[omit]));
    }
}

#[test]
fn unknown_item_id_is_a_decode_error() {
    let mut items = all_items(&[0xaa], "{}", 1, 2, 3);
    items.insert(1, item(9, &[0, 0]));
    let r = decode(frame(2, &items));
    assert_eq!(r.err(), Some(NotificationReadError::NotificationReadUnknownItem(9)));
}

#[test]
fn payload_that_is_not_json_is_a_processing_error() {
    let r = decode(frame(2, &all_items(&[0xaa], "{not json", 1, 2, 3)));
    assert_eq!(r.err(), Some(NotificationReadError::NotificationReadProcessingError));
    let mut items = all_items(&[0xaa], "{}", 1, 2, 3);
    items[1] = item(2, &[0x22, 0xff, 0xfe, 0x22]);
    let r = decode(frame(2, &items));
    assert_eq!(r.err(), Some(NotificationReadError::NotificationReadProcessingError));
}

#[test]
fn truncated_frame_waits_for_more_bytes() {
    let bytes = frame(2, &all_items(&[0x01, 0x02], "{}", 42, 1000, 10));
    let (head, tail) = bytes.split_at(bytes.len() - 2);
    let mut reader = NotificationReader::new(head.to_vec());
    let r = reader.read_notification();
    assert_eq!(r.err(), Some(NotificationReadError::NotificationReadEndOfFile));
    assert_eq!(reader.pending(), head.len());
    reader.push_bytes(tail);
    let n = reader.read_notification().ok().expect("completed frame decodes");
    assert_eq!(n.identifier(), 42);
    assert_eq!(reader.pending(), 0);
}

#[test]
fn short_header_is_end_of_file() {
    assert_eq!(decode(vec![]).err(), Some(NotificationReadError::NotificationReadEndOfFile));
    assert_eq!(decode(vec![2, 0, 0, 0]).err(), Some(NotificationReadError::NotificationReadEndOfFile));
}

#[test]
fn zero_frame_length_reads_no_items() {
    let mut bytes = vec![2, 0, 0, 0, 0];
    bytes.extend_from_slice(&item(1, &[0xaa]));
    let r = decode(bytes);
    assert_eq!(r.err(), Some(NotificationReadError::NotificationReadMissingDeviceToken));
}

#[test]
fn fixed_size_items_ignore_their_declared_length() {
    let mut items = all_items(&[0xaa], "{}", 0, 0, 0);
    items[2] = vec![3, 0, 9, 0, 0, 1, 0];
    items[4] = vec![5, 0, 0, 7];
    let n = decode(frame(2, &items)).ok().expect("frame decodes");
    assert_eq!(n.identifier(), 256);
    assert_eq!(n.priority(), 7);
}

#[test]
fn later_item_replaces_earlier_one() {
    let mut items = all_items(&[0xaa], "{}", 1, 2, 3);
    items.push(item(3, &77u32.to_be_bytes()));
    let n = decode(frame(2, &items)).ok().expect("frame decodes");
    assert_eq!(n.identifier(), 77);
}

#[test]
fn read_available_decodes_every_complete_frame() {
    let mut bytes = frame(2, &all_items(&[0x01], "1", 1, 0, 0));
    bytes.extend(frame(2, &all_items(&[0x02], "2", 2, 0, 0)));
    let third = frame(2, &all_items(&[0x03], "3", 3, 0, 0));
    bytes.extend_from_slice(&third[..4]);
    let mut reader = NotificationReader::new(bytes);
    let (ns, stop) = reader.read_available();
    assert_eq!(ns.len(), 2);
    assert_eq!(ns[0].device_token(), "01");
    assert_eq!(ns[1].device_token(), "02");
    assert_eq!(stop, NotificationReadError::NotificationReadEndOfFile);
    assert_eq!(reader.pending(), 4);
}

#[test]
fn cloned_notification_keeps_its_fields() {
    let n = decode(frame(2, &all_items(&[0x0f], "{\"a\":1}", 5, 6, 7))).ok().unwrap();
    let c = n.clone();
    assert_eq!(c.device_token(), "0f");
    assert!(c.payload() == n.payload());
    assert_eq!((c.identifier(), c.expiration_date(), c.priority()), (5, 6, 7));
}

#[test]
fn parse_safety_counts_brackets_outside_strings() {
    let deep = |n: usize| format!("{}{}", "[".repeat(n), "]".repeat(n));
    assert!(is_parse_safe(deep(128).as_bytes()));
    assert!(!is_parse_safe(deep(129).as_bytes()));
    assert!(is_parse_safe(format!("[\"{}\"]", "[".repeat(200)).as_bytes()));
    assert!(is_parse_safe(b"[\"\\\"[[[\"]"));
    assert!(is_parse_safe(b""));
}

#[test]
fn parse_safety_refuses_trailing_commas_in_objects() {
    assert!(!is_parse_safe(b"[{\"k\":{\"a\":1,},5]"));
    assert!(!is_parse_safe(b"{\"a\":1, \n\t}"));
    assert!(is_parse_safe(b"{\"a\":\",}\",\"b\":2}"));
    assert!(is_parse_safe(b"[1,2]"));
    let r = decode(frame(2, &all_items(&[0xaa], "[{\"k\":{\"a\":1,},5]", 1, 2, 3)));
    assert_eq!(r.err(), Some(NotificationReadError::NotificationReadProcessingError));
}

#[test]
fn parse_safety_refuses_long_exponents() {
    let exponent = |digits: usize| format!("[1e{}5]", "0".repeat(digits - 1));
    assert!(is_parse_safe(exponent(19).as_bytes()));
    assert!(!is_parse_safe(exponent(20).as_bytes()));
    assert!(!is_parse_safe(b"1E+99999999999999999999"));
    assert!(is_parse_safe(b"[\"e99999999999999999999\", 123456789012345678901]"));
    let n = decode(frame(2, &all_items(&[0xaa], &exponent(19), 1, 2, 3))).ok().expect("19 exponent digits decode");
    assert!(*n.payload() == Json::from_str(&exponent(19)).unwrap());
    let r = decode(frame(2, &all_items(&[0xaa], "1e99999999999999999999", 1, 2, 3)));
    assert_eq!(r.err(), Some(NotificationReadError::NotificationReadProcessingError));
}

#[test]
fn parse_safety_refuses_long_inputs() {
    let long = vec![b' '; 65536];
    assert!(!is_parse_safe(&long));
    assert!(is_parse_safe(&long[1..]));
}

#[test]
fn reader_keeps_only_unread_bytes_across_frames() {
    let mut reader = NotificationReader::new(vec![]);
    for id in 0..50u32 {
        let bytes = frame(2, &all_items(&[0x01], "{}", id, 0, 0));
        reader.push_bytes(&bytes);
        let n = reader.read_notification().ok().expect("frame decodes");
        assert_eq!(n.identifier(), id);
        assert_eq!(reader.pending(), 0);
    }
}

#[test]
fn payload_nested_too_deep_is_a_processing_error() {
    let deep = format!("{}{}", "[".repeat(129), "]".repeat(129));
    let r = decode(frame(2, &all_items(&[0xaa], &deep, 1, 2, 3)));
    assert_eq!(r.err(), Some(NotificationReadError::NotificationReadProcessingError));
    let unclosed = "[".repeat(60000);
    let r = decode(frame(2, &all_items(&[0xaa], &unclosed, 1, 2, 3)));
    assert_eq!(r.err(), Some(NotificationReadError::NotificationReadProcessingError));
    let at_bound = format!("{}{}", "[".repeat(128), "]".repeat(128));
    let n = decode(frame(2, &all_items(&[0xaa], &at_bound, 1, 2, 3))).ok().expect("bounded nesting decodes");
    assert!(*n.payload() == Json::from_str(&at_bound).unwrap());
}

#[test]
fn items_in_any_order_decode_the_same() {
    let payload = "{\"aps\":{\"alert\":\"hi\"}}";
    let mut items = all_items(&[0x01, 0x02], payload, 42, 1000, 10);
    items.reverse();
    let n = decode(frame(2, &items)).ok().expect("frame decodes");
    assert_eq!(n.device_token(), "0102");
    assert!(*n.payload() == Json::from_str(payload).unwrap());
    assert_eq!((n.identifier(), n.expiration_date(), n.priority()), (42, 1000, 10));
    let mut items = all_items(&[0x01], "{}", 1, 2, 3);
    items.remove(0);
    items.reverse();
    assert_eq!(decode(frame(2, &items)).err(), Some(NotificationReadError::NotificationReadMissingDeviceToken));
}
