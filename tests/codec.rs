use workshop_node::codec::{decode_announcement, decode_record, encode_announcement, ContentAnnouncement, DecodeError};
use workshop_node::varint::{decode_varint, encode_varint};

const LOCAL: [u8; 8] = [4, 127, 0, 0, 1, 6, 15, 161];

fn announcement(name: &str, addresses: Vec<Vec<u8>>) -> ContentAnnouncement {
    ContentAnnouncement { name: name.to_string(), addresses }
}

#[test]
fn varint_encodes_least_significant_group_first() {
    let mut out = Vec::new();
    encode_varint(300, &mut out);
    assert_eq!(out, vec![0xAC, 0x02]);
    let mut small = vec![9];
    encode_varint(5, &mut small);
    assert_eq!(small, vec![9, 5]);
    let mut max = Vec::new();
    encode_varint(u64::MAX, &mut max);
    assert_eq!(max.len(), 10);
    assert_eq!(decode_varint(&max, 0), Some((u64::MAX, 10)));
}

#[test]
fn varint_decodes_at_position() {
    assert_eq!(decode_varint(&[7, 0xAC, 0x02, 1], 1), Some((300, 3)));
    assert_eq!(decode_varint(&[0], 0), Some((0, 1)));
}

#[test]
fn varint_rejects_truncated_overlong_and_oversized() {
    assert_eq!(decode_varint(&[0x80], 0), None);
    assert_eq!(decode_varint(&[], 0), None);
    assert_eq!(decode_varint(&[0x80, 0x00], 0), None);
    let too_big = [0xFF, 0xFF, 0xFF, 0xFF, 0xFF, 0xFF, 0xFF, 0xFF, 0xFF, 0x02];
    assert_eq!(decode_varint(&too_big, 0), None);
    let eleven = [0x80, 0x80, 0x80, 0x80, 0x80, 0x80, 0x80, 0x80, 0x80, 0x80, 0x01];
    assert_eq!(decode_varint(&eleven, 0), None);
}

#[test]
fn encoding_has_exact_bytes() {
    let a = announcement("hello.txt", vec![LOCAL.to_vec()]);
    let mut expected = vec![21u8, 0x0A, 9];
    expected.extend_from_slice(b"hello.txt");
    expected.extend_from_slice(&[0x12, 8]);
    expected.extend_from_slice(&LOCAL);
    assert_eq!(encode_announcement(&a), Some(expected));
}

#[test]
fn empty_name_and_no_addresses_encode_to_empty_record() {
    let a = announcement("", vec![]);
    assert_eq!(encode_announcement(&a), Some(vec![0]));
    let d = decode_announcement(&[0]).unwrap();
    assert_eq!(d.name, "");
    assert!(d.addresses.is_empty());
}

#[test]
fn round_trip_with_several_address_counts() {
    for n in 0..4usize {
        let addrs: Vec<Vec<u8>> = (0..n).map(|i| vec![4, 10, 0, 0, i as u8, 6, 0, 80]).collect();
        let a = announcement("a.txt", addrs.clone());
        let bytes = encode_announcement(&a).unwrap();
        let d = decode_announcement(&bytes).unwrap();
        assert_eq!(d.name, "a.txt");
        assert_eq!(d.addresses, addrs);
    }
    let a = announcement("ünïcode", vec![vec![], LOCAL.to_vec()]);
    let d = decode_announcement(&encode_announcement(&a).unwrap()).unwrap();
    assert_eq!(d.name, "ünïcode");
    assert_eq!(d.addresses, vec![vec![], LOCAL.to_vec()]);
}

#[test]
fn trailing_bytes_after_frame_are_ignored() {
    let mut bytes = encode_announcement(&announcement("x", vec![])).unwrap();
    bytes.extend_from_slice(&[1, 2, 3]);
    assert_eq!(decode_announcement(&bytes).unwrap().name, "x");
}

#[test]
fn fields_in_any_order_and_last_name_wins() {
    let record = [0x12, 1, 7, 0x0A, 1, b'a', 0x0A, 1, b'b'];
    let d = decode_record(&record).unwrap();
    assert_eq!(d.name, "b");
    assert_eq!(d.addresses, vec![vec![7]]);
}

#[test]
fn truncated_frames_are_frame_errors() {
    let bytes = encode_announcement(&announcement("hello.txt", vec![LOCAL.to_vec()])).unwrap();
    for len in 0..bytes.len() {
        assert_eq!(decode_announcement(&bytes[..len]).unwrap_err(), DecodeError::Frame);
    }
}

#[test]
fn corrupted_records_are_record_errors() {
    assert_eq!(decode_announcement(&[2, 0x08, 1]).unwrap_err(), DecodeError::Record);
    assert_eq!(decode_announcement(&[3, 0x0A, 1, 0xFF]).unwrap_err(), DecodeError::Record);
    assert_eq!(decode_announcement(&[2, 0x0A, 5]).unwrap_err(), DecodeError::Record);
    assert_eq!(decode_announcement(&[1, 0x12]).unwrap_err(), DecodeError::Record);
    assert_eq!(decode_announcement(&[0x80]).unwrap_err(), DecodeError::Frame);
}
