use publichat::db::ChatLog;
use publichat::MSG_ST_SIZE;

fn record(tag: u8) -> Vec<u8> {
    let mut r = vec![0u8; MSG_ST_SIZE];
    r[0] = tag;
    r
}

fn log_of(n: u8) -> ChatLog {
    let mut log = ChatLog::new();
    for i in 0..n {
        log.push(record(i));
    }
    log
}

#[test]
fn fetch_after_push_returns_everything() {
    // K = 7 records pushed, N = 25 asked for: all 7 come back from id 0
    let log = log_of(7);
    let (count, first_id, msgs) = log.fetch(25);
    assert_eq!(count, 7);
    assert_eq!(first_id, 0);
    assert_eq!(msgs.len(), 7);
    for (i, m) in msgs.iter().enumerate() {
        assert_eq!(m[0], i as u8);
    }
}

#[test]
fn fetch_returns_the_tail() {
    let log = log_of(10);
    let (count, first_id, msgs) = log.fetch(4);
    assert_eq!(count, 4);
    assert_eq!(first_id, 6);
    assert_eq!(msgs[0][0], 6);
    assert_eq!(msgs[3][0], 9);
}

#[test]
fn fetch_empty_log() {
    let log = ChatLog::new();
    let (count, first_id, msgs) = log.fetch(25);
    assert_eq!((count, first_id, msgs.len()), (0, 0, 0));
}

#[test]
fn forward_query_mid_log() {
    // ids 0-9; query(id=3, count=4, forward) returns ids [4,5,6,7]
    let log = log_of(10);
    let (count, first_id, msgs) = log.query(3, 4, true);
    assert_eq!(count, 4);
    assert_eq!(first_id, 4);
    let ids: Vec<u8> = msgs.iter().map(|m| m[0]).collect();
    assert_eq!(ids, vec![4, 5, 6, 7]);
}

#[test]
fn backward_query_clamped_at_zero() {
    // query(id=2, count=5, backward) returns ids [0,1]
    let log = log_of(10);
    let (count, first_id, msgs) = log.query(2, 5, false);
    assert_eq!(count, 2);
    assert_eq!(first_id, 0);
    let ids: Vec<u8> = msgs.iter().map(|m| m[0]).collect();
    assert_eq!(ids, vec![0, 1]);
}

#[test]
fn forward_query_at_end_is_empty() {
    // query(id=9, count=5, forward) on a 10-record log returns nothing
    let log = log_of(10);
    let (count, first_id, msgs) = log.query(9, 5, true);
    assert_eq!((count, first_id, msgs.len()), (0, 0, 0));
}

#[test]
fn query_count_zero_is_empty() {
    let log = log_of(10);
    let (count, first_id, msgs) = log.query(3, 0, true);
    assert_eq!((count, first_id, msgs.len()), (0, 0, 0));
}

#[test]
fn backward_query_at_zero_is_empty() {
    let log = log_of(10);
    let (count, first_id, msgs) = log.query(0, 5, false);
    assert_eq!((count, first_id, msgs.len()), (0, 0, 0));
}

#[test]
fn query_beyond_length_is_empty() {
    let log = log_of(10);
    let (count, first_id, msgs) = log.query(11, 5, false);
    assert_eq!((count, first_id, msgs.len()), (0, 0, 0));
}

#[test]
fn query_count_clamped_to_fifty() {
    let mut log = ChatLog::new();
    for i in 0..70u8 {
        log.push(record(i));
    }
    let (count, first_id, msgs) = log.query(0, 127, true);
    assert_eq!(count, 50);
    assert_eq!(first_id, 1);
    assert_eq!(msgs.len(), 50);
    assert_eq!(msgs[0][0], 1);
    assert_eq!(msgs[49][0], 50);
}

#[test]
fn backward_query_exact_fit() {
    let log = log_of(10);
    let (count, first_id, msgs) = log.query(7, 3, false);
    assert_eq!(count, 3);
    assert_eq!(first_id, 4);
    let ids: Vec<u8> = msgs.iter().map(|m| m[0]).collect();
    assert_eq!(ids, vec![4, 5, 6]);
}
