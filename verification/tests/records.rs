use publichat::msg::{packet_to_storage, storage_to_packet, StorageRecord};
use publichat::wire::{u24_to_be, u64_from_be, u64_to_be};
use publichat::{CYPHER_SIZE, MSG_IN_SIZE, MSG_ST_SIZE, SIGNATURE_SIZE};

#[test]
fn be64_known_value() {
    let bytes = u64_to_be(0x0102_0304_0506_0708);
    assert_eq!(bytes, vec![1, 2, 3, 4, 5, 6, 7, 8]);
    assert_eq!(u64_from_be(&bytes), 0x0102_0304_0506_0708);
}

#[test]
fn be64_round_trip_extremes() {
    for v in [0u64, 1, 0xff, 0x1_0000, u64::MAX] {
        assert_eq!(u64_from_be(&u64_to_be(v)), v);
    }
}

#[test]
fn be24_known_value() {
    assert_eq!(u24_to_be(0xABCDEF), vec![0xAB, 0xCD, 0xEF]);
    assert_eq!(u24_to_be(5), vec![0, 0, 5]);
}

#[test]
fn record_round_trip() {
    let rec = StorageRecord {
        server_time: 1_700_000_000_123,
        cypher: (0..CYPHER_SIZE).map(|i| (i % 251) as u8).collect(),
        signature: (0..SIGNATURE_SIZE).map(|i| (255 - i) as u8).collect(),
    };
    let bytes = rec.to_bytes();
    assert_eq!(bytes.len(), MSG_ST_SIZE);
    let back = StorageRecord::from_bytes(&bytes);
    assert_eq!(back.server_time, rec.server_time);
    assert_eq!(back.cypher, rec.cypher);
    assert_eq!(back.signature, rec.signature);
}

#[test]
fn packet_to_storage_layout() {
    let src: Vec<u8> = (0..MSG_IN_SIZE).map(|i| (i % 241) as u8).collect();
    let mut dest: Vec<u8> = Vec::new();
    let chat_id = packet_to_storage(&src, &mut dest, 0x1122_3344_5566_7788);
    assert_eq!(chat_id, src[..32].to_vec());
    assert_eq!(dest.len(), MSG_ST_SIZE);
    assert_eq!(&dest[..8], &[0x11, 0x22, 0x33, 0x44, 0x55, 0x66, 0x77, 0x88]);
    // cypher and signature travel unchanged behind the fresh timestamp
    assert_eq!(&dest[8..], &src[32..]);
}

#[test]
fn storage_to_packet_is_identity() {
    let src: Vec<u8> = (0..MSG_ST_SIZE).map(|i| (i % 17) as u8).collect();
    assert_eq!(storage_to_packet(&src), src);
}
