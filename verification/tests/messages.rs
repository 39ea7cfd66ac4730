use ed25519_dalek::{Keypair, PublicKey, SecretKey, Signer};
use publichat::client::Message;
use publichat::crypt::{apply, hash};
use publichat::msg::StorageRecord;
use publichat::{Error, CYPHER_PAD_MSG_SIZE, CYPHER_SIZE, SIGNATURE_SIZE};

fn keypair() -> Keypair {
    let secret = SecretKey::from_bytes(&[42u8; 32]).unwrap();
    let public = PublicKey::from(&secret);
    Keypair { secret, public }
}

#[test]
fn hash_is_sha3_256() {
    // the SHA3-256 digest of the empty string, from FIPS 202
    let expected: Vec<u8> = vec![
        0xa7, 0xff, 0xc6, 0xf8, 0xbf, 0x1e, 0xd7, 0x66, 0x51, 0xc1, 0x47, 0x56, 0xa0, 0x61,
        0xd6, 0x62, 0xf5, 0x80, 0xff, 0x4d, 0xe4, 0x3b, 0x49, 0xfa, 0x82, 0xd8, 0x0a, 0x4b,
        0x80, 0xf8, 0x43, 0x4a,
    ];
    assert_eq!(hash(&Vec::new()), expected);
}

#[test]
fn cipher_scrambles_and_round_trips() {
    let key = vec![0x21u8; 32];
    let original = vec![0x5Au8; CYPHER_SIZE];
    let mut buf = original.clone();
    apply(&key, &mut buf);
    assert_ne!(buf, original); // the keystream really is applied
    apply(&key, &mut buf);
    assert_eq!(buf, original); // a second application undoes it
}

#[test]
fn signed_message_round_trip_is_verified() {
    let key = hash(&b"my room".to_vec());
    let pair = keypair();
    let pub_key = pair.public.as_bytes().to_vec();
    let time = 1_700_000_000_000u64;
    let cypher = Message::make_cypher(&b"hello there".to_vec(), &key, &pub_key, time).unwrap();
    let signature = pair.sign(&hash(&cypher)).to_bytes().to_vec();
    let rec = StorageRecord { server_time: time + 500, cypher, signature };
    let msg = Message::new(&rec.to_bytes(), &key).unwrap();
    assert_eq!(msg.text, b"hello there".to_vec());
    assert_eq!(msg.client_time, time);
    assert_eq!(msg.server_time, time + 500);
    assert_eq!(msg.pub_key, pub_key);
    assert!(msg.verified);
}

#[test]
fn unsigned_message_decodes_but_is_unverified() {
    let key = hash(&b"my room".to_vec());
    let pair = keypair();
    let pub_key = pair.public.as_bytes().to_vec();
    let time = 1_700_000_000_000u64;
    let cypher = Message::make_cypher(&b"hi".to_vec(), &key, &pub_key, time).unwrap();
    let rec =
        StorageRecord { server_time: time, cypher, signature: vec![0u8; SIGNATURE_SIZE] };
    let msg = Message::new(&rec.to_bytes(), &key).unwrap();
    assert_eq!(msg.text, b"hi".to_vec());
    assert!(!msg.verified);
}

#[test]
fn stale_timestamp_is_unverified() {
    let key = hash(&b"my room".to_vec());
    let pair = keypair();
    let pub_key = pair.public.as_bytes().to_vec();
    let time = 1_700_000_000_000u64;
    let cypher = Message::make_cypher(&b"old news".to_vec(), &key, &pub_key, time).unwrap();
    let signature = pair.sign(&hash(&cypher)).to_bytes().to_vec();
    // the server stamped it 11 seconds later: outside the tolerance
    let rec = StorageRecord { server_time: time + 11_000, cypher, signature };
    let msg = Message::new(&rec.to_bytes(), &key).unwrap();
    assert_eq!(msg.text, b"old news".to_vec());
    assert!(!msg.verified);
}

#[test]
fn oversized_text_is_rejected() {
    let key = hash(&b"my room".to_vec());
    let pub_key = keypair().public.as_bytes().to_vec();
    let long = vec![b'a'; CYPHER_PAD_MSG_SIZE];
    let r = Message::make_cypher(&long, &key, &pub_key, 0);
    assert_eq!(r.unwrap_err(), Error::MsgTooLong);
    // one byte shorter still leaves room for the pad indicator
    let fits = vec![b'a'; CYPHER_PAD_MSG_SIZE - 1];
    assert!(Message::make_cypher(&fits, &key, &pub_key, 0).is_ok());
}

#[test]
fn missing_pad_indicator_is_rejected() {
    // a chat key whose first byte we control
    let mut key = vec![0x42u8; 32];
    key[1] = 7;
    let mut plain = Vec::new();
    plain.extend_from_slice(&key[..4]);
    plain.extend_from_slice(&[0u8; 8]);
    plain.extend_from_slice(&[9u8; 32]);
    // the whole padded area avoids the indicator byte 0x42
    plain.extend_from_slice(&vec![0x43u8; CYPHER_SIZE - 44]);
    apply(&key, &mut plain); // encrypt
    let rec =
        StorageRecord { server_time: 0, cypher: plain, signature: vec![0u8; SIGNATURE_SIZE] };
    let err = Message::new(&rec.to_bytes(), &key).unwrap_err();
    assert_eq!(err, Error::PadMissing);
}

#[test]
fn malformed_utf8_text_is_rejected() {
    let key = vec![0x42u8; 32];
    let mut plain = Vec::new();
    plain.extend_from_slice(&key[..4]);
    plain.extend_from_slice(&[0u8; 8]);
    plain.extend_from_slice(&[9u8; 32]);
    // text = two stray continuation-ish bytes, then the indicator, then filler
    plain.extend_from_slice(&[0xFF, 0xFE, 0x42]);
    plain.extend_from_slice(&vec![0x43u8; CYPHER_SIZE - 44 - 3]);
    apply(&key, &mut plain);
    let rec =
        StorageRecord { server_time: 0, cypher: plain, signature: vec![0u8; SIGNATURE_SIZE] };
    let err = Message::new(&rec.to_bytes(), &key).unwrap_err();
    assert_eq!(err, Error::BadUtf8);
}

#[test]
fn unparseable_signature_is_rejected() {
    let key = hash(&b"my room".to_vec());
    let pub_key = keypair().public.as_bytes().to_vec();
    let cypher = Message::make_cypher(&b"x".to_vec(), &key, &pub_key, 0).unwrap();
    // the top three bits of the last signature byte must be clear
    let mut signature = vec![0u8; SIGNATURE_SIZE];
    signature[SIGNATURE_SIZE - 1] = 0xE0;
    let rec = StorageRecord { server_time: 0, cypher, signature };
    let err = Message::new(&rec.to_bytes(), &key).unwrap_err();
    assert_eq!(err, Error::BadKeyOrSig);
}

#[test]
fn text_may_contain_the_indicator_byte() {
    // the pad indicator is the last occurrence, so indicator bytes inside
    // the text survive; an ASCII indicator keeps the text valid UTF-8
    let key = vec![0x41u8; 32];
    let pub_key = keypair().public.as_bytes().to_vec();
    let ind = key[0];
    let text = vec![b'a', ind, b'b'];
    let cypher = Message::make_cypher(&text, &key, &pub_key, 0).unwrap();
    let rec =
        StorageRecord { server_time: 0, cypher, signature: vec![0u8; SIGNATURE_SIZE] };
    let msg = Message::new(&rec.to_bytes(), &key).unwrap();
    assert_eq!(msg.text, text);
}
