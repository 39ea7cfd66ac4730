use ed25519_dalek::{PublicKey, SecretKey};
use publichat::client::{ClientRequest, ClientWindow, Message};
use publichat::msg::StorageRecord;
use publichat::SIGNATURE_SIZE;

fn chat_key() -> Vec<u8> {
    publichat::crypt::hash(&b"room".to_vec())
}

fn chat_id(key: &Vec<u8>) -> Vec<u8> {
    publichat::crypt::hash(key)
}

fn pub_key_bytes() -> Vec<u8> {
    let secret = SecretKey::from_bytes(&[7u8; 32]).unwrap();
    PublicKey::from(&secret).as_bytes().to_vec()
}

fn make_record(text: &str, key: &Vec<u8>, time: u64) -> Vec<u8> {
    let cypher =
        Message::make_cypher(&text.as_bytes().to_vec(), key, &pub_key_bytes(), time).unwrap();
    let rec = StorageRecord { server_time: time, cypher, signature: vec![0u8; SIGNATURE_SIZE] };
    rec.to_bytes()
}

fn records(first_id: u32, count: u32, key: &Vec<u8>) -> Vec<Vec<u8>> {
    (0..count).map(|i| make_record(&format!("m{}", first_id + i), key, 1000)).collect()
}

fn window(key: &Vec<u8>) -> ClientWindow {
    ClientWindow::new(key.clone(), chat_id(key))
}

fn token(key: &Vec<u8>) -> u8 {
    chat_id(key)[0]
}

#[test]
fn baseline_accepts_first_batch_unconditionally() {
    let key = chat_key();
    let mut w = window(&key);
    let batch = records(5, 5, &key);
    let applied = w.apply_batch(token(&key), 5, 5, true, &batch);
    assert!(applied);
    assert_eq!(w.min_id, 5);
    assert_eq!(w.max_id, 9);
    assert_eq!(w.queue.len(), 5);
    for (i, slot) in w.queue.iter().enumerate() {
        let m = slot.as_ref().expect("record should decode");
        assert_eq!(m.text, format!("m{}", 5 + i).into_bytes());
    }
}

#[test]
fn overlap_append_keeps_only_the_new_suffix() {
    let key = chat_key();
    let mut w = window(&key);
    let baseline = records(5, 5, &key);
    assert!(w.apply_batch(token(&key), 5, 5, true, &baseline));
    // covers ids 7-12: only 10, 11, 12 are new
    let batch = records(7, 6, &key);
    let applied = w.apply_batch(token(&key), 7, 6, true, &batch);
    assert!(applied);
    assert_eq!(w.min_id, 5);
    assert_eq!(w.max_id, 12);
    assert_eq!(w.queue.len(), 8);
    let texts: Vec<Vec<u8>> =
        w.queue.iter().map(|s| s.as_ref().unwrap().text.clone()).collect();
    let expected: Vec<Vec<u8>> =
        (5..=12).map(|i| format!("m{i}").into_bytes()).collect();
    assert_eq!(texts, expected);
}

#[test]
fn gap_ahead_is_rejected() {
    let key = chat_key();
    let mut w = window(&key);
    assert!(w.apply_batch(token(&key), 5, 5, true, &records(5, 5, &key)));
    let applied = w.apply_batch(token(&key), 20, 3, true, &records(20, 3, &key));
    assert!(!applied);
    assert_eq!((w.min_id, w.max_id, w.queue.len()), (5, 9, 5));
}

#[test]
fn contained_batch_is_rejected() {
    let key = chat_key();
    let mut w = window(&key);
    assert!(w.apply_batch(token(&key), 5, 8, true, &records(5, 8, &key)));
    assert_eq!((w.min_id, w.max_id), (5, 12));
    let applied = w.apply_batch(token(&key), 8, 2, true, &records(8, 2, &key));
    assert!(!applied);
    assert_eq!((w.min_id, w.max_id, w.queue.len()), (5, 12, 8));
}

#[test]
fn stale_forward_batch_is_rejected() {
    let key = chat_key();
    let mut w = window(&key);
    assert!(w.apply_batch(token(&key), 5, 5, true, &records(5, 5, &key)));
    // ids 4-8 point forward but end below the window's top
    let applied = w.apply_batch(token(&key), 4, 5, true, &records(4, 5, &key));
    assert!(!applied);
    assert_eq!((w.min_id, w.max_id, w.queue.len()), (5, 9, 5));
}

#[test]
fn straddling_batch_is_rejected() {
    let key = chat_key();
    let mut w = window(&key);
    assert!(w.apply_batch(token(&key), 5, 5, true, &records(5, 5, &key)));
    // ids 4-10 overflow the window on both sides
    let applied = w.apply_batch(token(&key), 4, 7, true, &records(4, 7, &key));
    assert!(!applied);
    assert_eq!((w.min_id, w.max_id, w.queue.len()), (5, 9, 5));
}

#[test]
fn wrong_room_token_is_rejected() {
    let key = chat_key();
    let mut w = window(&key);
    let applied = w.apply_batch(token(&key).wrapping_add(1), 5, 5, true, &records(5, 5, &key));
    assert!(!applied);
    assert_eq!(w.queue.len(), 0);
}

#[test]
fn backward_batch_prepends_below_the_window() {
    let key = chat_key();
    let mut w = window(&key);
    assert!(w.apply_batch(token(&key), 5, 5, true, &records(5, 5, &key)));
    // ids 2-4 touch the window's bottom from below
    let applied = w.apply_batch(token(&key), 2, 3, false, &records(2, 3, &key));
    assert!(applied);
    assert_eq!(w.min_id, 2);
    assert_eq!(w.max_id, 9);
    assert_eq!(w.queue.len(), 8);
    let texts: Vec<Vec<u8>> =
        w.queue.iter().map(|s| s.as_ref().unwrap().text.clone()).collect();
    let expected: Vec<Vec<u8>> = (2..=9).map(|i| format!("m{i}").into_bytes()).collect();
    assert_eq!(texts, expected);
}

#[test]
fn backward_batch_above_the_bottom_is_rejected() {
    let key = chat_key();
    let mut w = window(&key);
    assert!(w.apply_batch(token(&key), 5, 5, true, &records(5, 5, &key)));
    // points backward but would extend the top: dropped as inconsistent
    let applied = w.apply_batch(token(&key), 7, 5, false, &records(7, 5, &key));
    assert!(!applied);
    assert_eq!((w.min_id, w.max_id, w.queue.len()), (5, 9, 5));
}

#[test]
fn empty_batch_is_rejected() {
    let key = chat_key();
    let mut w = window(&key);
    let applied = w.apply_batch(token(&key), 5, 0, true, &Vec::new());
    assert!(!applied);
    assert_eq!(w.queue.len(), 0);
}

#[test]
fn decode_failure_keeps_bookkeeping_intact() {
    let key = chat_key();
    let mut w = window(&key);
    let mut batch = records(5, 3, &key);
    // an unparseable signature (top bits of the final byte set) fails the
    // middle record's decode without corrupting the window
    let len = batch[1].len();
    batch[1][len - 1] = 0xE0;
    let applied = w.apply_batch(token(&key), 5, 3, true, &batch);
    assert!(applied);
    assert_eq!((w.min_id, w.max_id, w.queue.len()), (5, 7, 3));
    assert!(w.queue[0].is_some());
    assert!(w.queue[1].is_none());
    assert!(w.queue[2].is_some());
}

#[test]
fn next_request_fetches_then_queries() {
    let key = chat_key();
    let mut w = window(&key);
    assert_eq!(w.next_request(), ClientRequest::Fetch);
    assert!(w.apply_batch(token(&key), 5, 5, true, &records(5, 5, &key)));
    assert_eq!(w.next_request(), ClientRequest::Query { id: 9, count: 50, forward: true });
}
