use publichat::ws::{
    decode, drain_backlog, ext_len_bytes, parse_header, pong_frame, push_backlog, true_len,
    wrap, FrameHeader,
};

#[test]
fn masked_client_frame_round_trip() {
    // a masked client frame carrying "AB"
    let (b0, b1) = (0x82u8, 0x80u8 | 2);
    let header = parse_header(b0, b1);
    assert_eq!(header, FrameHeader::Data { len7: 2 });
    assert_eq!(ext_len_bytes(2), 0);
    assert_eq!(true_len(2, &Vec::new()), 2);
    let mask = [1u8, 2, 3, 4];
    let mut block = vec![mask[0], mask[1], mask[2], mask[3], b'A' ^ 1, b'B' ^ 2];
    decode(&mut block);
    assert_eq!(&block[4..], b"AB");
    let mut backlog = Vec::new();
    push_backlog(&mut backlog, &block);
    let out = drain_backlog(&mut backlog, 16);
    assert_eq!(out, b"AB".to_vec());
    assert!(backlog.is_empty());

    // the server's reply frame for the same payload: opcode 0x2, FIN=1,
    // unmasked, a single length byte equal to 2
    let reply = wrap(&b"AB".to_vec());
    assert_eq!(reply, vec![0x82, 2, b'A', b'B']);
}

#[test]
fn wrap_two_byte_length_form() {
    let payload = vec![7u8; 300];
    let frame = wrap(&payload);
    assert_eq!(frame[0], 0x82);
    assert_eq!(frame[1], 126);
    assert_eq!((frame[2], frame[3]), (0x01, 0x2C)); // 300 big-endian
    assert_eq!(frame.len(), 4 + 300);
    assert_eq!(&frame[4..], &payload[..]);
}

#[test]
fn wrap_eight_byte_length_form() {
    let payload = vec![7u8; 70_000];
    let frame = wrap(&payload);
    assert_eq!(frame[0], 0x82);
    assert_eq!(frame[1], 127);
    assert_eq!(&frame[2..10], &[0, 0, 0, 0, 0, 1, 0x11, 0x70]); // 70000 big-endian
    assert_eq!(frame.len(), 10 + 70_000);
}

#[test]
fn unmasked_client_frame_is_invalid() {
    assert_eq!(parse_header(0x82, 2), FrameHeader::Invalid);
}

#[test]
fn fragmented_control_frame_is_invalid() {
    // FIN=0 with a control opcode is never defined
    assert_eq!(parse_header(0x09, 0x80 | 5), FrameHeader::Invalid);
}

#[test]
fn fragmented_data_frame_passes_the_header_check() {
    // FIN=0 with a data opcode is defined; reassembly is out of scope
    assert_eq!(parse_header(0x02, 0x80 | 5), FrameHeader::Data { len7: 5 });
}

#[test]
fn ping_and_pong_headers() {
    assert_eq!(parse_header(0x89, 0x80 | 5), FrameHeader::Ping { len: 5 });
    assert_eq!(parse_header(0x8A, 0x80 | 3), FrameHeader::Pong { len7: 3 });
    // a ping longer than 125 bytes is a protocol violation
    assert_eq!(parse_header(0x89, 0x80 | 126), FrameHeader::Invalid);
}

#[test]
fn pong_reply_flips_the_opcode_and_echoes_the_payload() {
    let payload = vec![0xAA, 0xBB, 0xCC];
    let frame = pong_frame(0x89, 0x80 | 3, &payload);
    assert_eq!(frame[0], 0x8A);
    assert_eq!(frame[1], 0x80 | 3);
    assert_eq!(&frame[2..], &payload[..]);
}

#[test]
fn extended_lengths_resolve() {
    assert_eq!(ext_len_bytes(125), 0);
    assert_eq!(ext_len_bytes(126), 2);
    assert_eq!(ext_len_bytes(127), 8);
    assert_eq!(true_len(126, &vec![0x01, 0x2C]), 300);
    assert_eq!(true_len(127, &vec![0, 0, 0, 0, 0, 1, 0x11, 0x70]), 70_000);
}

#[test]
fn backlog_drains_in_order() {
    let mut backlog = vec![1u8, 2, 3, 4, 5];
    let first = drain_backlog(&mut backlog, 3);
    assert_eq!(first, vec![1, 2, 3]);
    assert_eq!(backlog, vec![4, 5]);
    let rest = drain_backlog(&mut backlog, 10);
    assert_eq!(rest, vec![4, 5]);
    assert!(backlog.is_empty());
}

#[test]
fn unmask_cycles_the_key() {
    let mut block = vec![0x10, 0x20, 0x30, 0x40, 0x11, 0x22, 0x33, 0x44, 0x55];
    decode(&mut block);
    assert_eq!(&block[..4], &[0x10, 0x20, 0x30, 0x40]);
    assert_eq!(&block[4..], &[0x01, 0x02, 0x03, 0x04, 0x45]);
}
