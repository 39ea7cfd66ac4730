//! The WebSocket transport codec: framing server payloads, parsing client
//! frame headers, resolving payload lengths, unmasking, answering pings and
//! feeding the decoded-byte backlog that read requests drain.
//!
//! Fragmented payload reassembly is not implemented: every logical message
//! must fit in a single frame.

use vstd::prelude::*;
use crate::wire::{be64_seq, sub_bytes, u16_from_be_seq, u64_from_be_seq, u64_to_be};

verus! {

// ---------------------------------------------------------------------------
// Writing: one unfragmented, unmasked binary frame
// ---------------------------------------------------------------------------

/// The length field of a server frame: one byte up to 125, the marker 126
/// plus a 2-byte big-endian length up to 65535, else the marker 127 plus an
/// 8-byte big-endian length.
pub open spec fn len_field_seq(len: int) -> Seq<u8> {
    if len <= 125 {
        seq![len as u8]
    } else if len <= 0xffff {
        seq![126u8, (len / 256) as u8, (len % 256) as u8]
    } else {
        seq![127u8] + be64_seq(len as u64)
    }
}

/// One server-to-client frame: `FIN=1`, opcode 2 (binary), unmasked, the
/// length field, then the payload.
pub open spec fn frame_seq(data: Seq<u8>) -> Seq<u8> {
    seq![0x82u8] + len_field_seq(data.len() as int) + data
}

/// Wrap a payload in one unfragmented, unmasked binary frame.
pub fn wrap(data: &Vec<u8>) -> (r: Vec<u8>)
    ensures
        r@ == frame_seq(data@),
{
    let mut r: Vec<u8> = Vec::new();
    r.push(0x82);
    let len = data.len();
    if len <= 125 {
        r.push(len as u8);
    } else if len <= 0xffff {
        r.push(126);
        r.push((len / 256) as u8);
        r.push((len % 256) as u8);
    } else {
        r.push(127);
        let len_bytes = u64_to_be(len as u64);
        r.extend_from_slice(len_bytes.as_slice());
    }
    r.extend_from_slice(data.as_slice());
    proof {
        assert(r@ =~= frame_seq(data@));
    }
    r
}

// ---------------------------------------------------------------------------
// Reading: header parsing
// ---------------------------------------------------------------------------

/// What the first two header bytes of a client frame mean.
#[derive(Clone, Copy, PartialEq, Eq, Structural, Debug)]
pub enum FrameHeader {
    /// A data frame; carries the 7-bit length field.
    Data { len7: u8 },
    /// A ping to answer; its payload length is at most 125.
    Ping { len: u8 },
    /// A pong, discarded silently; carries the 7-bit length field.
    Pong { len7: u8 },
    /// A protocol violation: an unmasked frame, a fragmented control frame,
    /// or an oversized ping. Fatal to the connection.
    Invalid,
}

/// The meaning of a client frame header. Clients must mask; a fragment is
/// only defined for opcodes 0 to 2; a ping may not exceed 125 bytes.
pub open spec fn parse_header_spec(b0: u8, b1: u8) -> FrameHeader {
    let fin = b0 & 0x80 > 0;
    let opc = b0 & 0x0f;
    let msk = b1 & 0x80 > 0;
    let len = b1 & 0x7f;
    if !msk {
        FrameHeader::Invalid
    } else if !fin && opc > 0x2 {
        FrameHeader::Invalid
    } else if opc == 0xA {
        FrameHeader::Pong { len7: len }
    } else if opc == 0x9 {
        if len > 125 {
            FrameHeader::Invalid
        } else {
            FrameHeader::Ping { len }
        }
    } else {
        FrameHeader::Data { len7: len }
    }
}

/// Parse the first two bytes of a client frame.
pub fn parse_header(b0: u8, b1: u8) -> (r: FrameHeader)
    ensures
        r == parse_header_spec(b0, b1),
{
    let fin = b0 & 0x80 > 0;
    let opc = b0 & 0x0f;
    let msk = b1 & 0x80 > 0;
    let len = b1 & 0x7f;
    if !msk {
        FrameHeader::Invalid
    } else if !fin && opc > 0x2 {
        FrameHeader::Invalid
    } else if opc == 0xA {
        FrameHeader::Pong { len7: len }
    } else if opc == 0x9 {
        if len > 125 {
            FrameHeader::Invalid
        } else {
            FrameHeader::Ping { len }
        }
    } else {
        FrameHeader::Data { len7: len }
    }
}

// ---------------------------------------------------------------------------
// Reading: length resolution
// ---------------------------------------------------------------------------

/// How many extra length bytes follow a 7-bit length field.
pub open spec fn spec_ext_len_bytes(len7: u8) -> int {
    if len7 <= 125 {
        0
    } else if len7 == 126 {
        2
    } else {
        8
    }
}

pub fn ext_len_bytes(len7: u8) -> (r: usize)
    requires
        len7 <= 127,
    ensures
        r == spec_ext_len_bytes(len7),
{
    if len7 <= 125 {
        0
    } else if len7 == 126 {
        2
    } else {
        8
    }
}

/// The true payload length named by a 7-bit length field and its extension
/// bytes.
pub open spec fn spec_true_len(len7: u8, ext: Seq<u8>) -> int {
    if len7 <= 125 {
        len7 as int
    } else if len7 == 126 {
        u16_from_be_seq(ext) as int
    } else {
        u64_from_be_seq(ext) as int
    }
}

/// Resolve the true payload length. The caller hands over exactly the
/// extension bytes the length field calls for, and a length beyond what
/// this machine can address is ruled out up front.
pub fn true_len(len7: u8, ext: &Vec<u8>) -> (r: usize)
    requires
        len7 <= 127,
        ext@.len() == spec_ext_len_bytes(len7),
        spec_true_len(len7, ext@) <= usize::MAX,
    ensures
        r == spec_true_len(len7, ext@),
{
    if len7 <= 125 {
        len7 as usize
    } else if len7 == 126 {
        let v: u16 = ((ext[0] as u16) << 8u16) | (ext[1] as u16);
        v as usize
    } else {
        let v = crate::wire::u64_from_be(ext);
        v as usize
    }
}

// ---------------------------------------------------------------------------
// Reading: unmasking and the backlog
// ---------------------------------------------------------------------------

/// Unmask a received block in place: the first four bytes are the mask key,
/// every later byte is XORed with the key, cycling.
pub fn decode(data: &mut Vec<u8>)
    requires
        old(data)@.len() >= 4,
    ensures
        final(data)@.len() == old(data)@.len(),
        forall|i: int| 0 <= i < 4 ==> final(data)@[i] == old(data)@[i],
        forall|i: int|
            4 <= i < old(data)@.len() ==> final(data)@[i] == old(data)@[i] ^ old(data)@[(i - 4)
                % 4],
{
    let m0 = data[0];
    let m1 = data[1];
    let m2 = data[2];
    let m3 = data[3];
    let mut i: usize = 4;
    while i < data.len()
        invariant
            4 <= i <= data@.len(),
            data@.len() == old(data)@.len(),
            m0 == old(data)@[0],
            m1 == old(data)@[1],
            m2 == old(data)@[2],
            m3 == old(data)@[3],
            forall|k: int| 0 <= k < 4 ==> data@[k] == old(data)@[k],
            forall|k: int| i <= k < data@.len() ==> data@[k] == old(data)@[k],
            forall|k: int|
                4 <= k < i ==> data@[k] == old(data)@[k] ^ old(data)@[(k - 4) % 4],
        decreases data@.len() - i,
    {
        let j = (i - 4) % 4;
        let m = if j == 0 {
            m0
        } else if j == 1 {
            m1
        } else if j == 2 {
            m2
        } else {
            m3
        };
        let x = data[i] ^ m;
        data[i] = x;
        i = i + 1;
    }
}

/// The pong answering a ping: the ping's header with the opcode bits
/// flipped from 0x9 to 0xA, then the ping's masked payload echoed
/// unchanged.
pub fn pong_frame(b0: u8, b1: u8, payload: &Vec<u8>) -> (r: Vec<u8>)
    ensures
        r@.len() == 2 + payload@.len(),
        r@[0] == b0 ^ 0x03,
        r@[1] == b1,
        r@.subrange(2, r@.len() as int) == payload@,
{
    let mut r: Vec<u8> = Vec::new();
    r.push(b0 ^ 0x03);
    r.push(b1);
    r.extend_from_slice(payload.as_slice());
    proof {
        assert(r@.subrange(2, r@.len() as int) =~= payload@);
    }
    r
}

/// Append an unmasked block's payload (everything after the 4-byte mask
/// key) to the backlog of decoded bytes.
pub fn push_backlog(backlog: &mut Vec<u8>, block: &Vec<u8>)
    requires
        block@.len() >= 4,
    ensures
        final(backlog)@ == old(backlog)@ + block@.subrange(4, block@.len() as int),
{
    let payload = sub_bytes(block, 4, block.len());
    backlog.extend_from_slice(payload.as_slice());
}

/// Hand out up to `max` bytes from the front of the backlog.
pub fn drain_backlog(backlog: &mut Vec<u8>, max: usize) -> (r: Vec<u8>)
    ensures
        ({
            let n = if max <= old(backlog)@.len() {
                max as int
            } else {
                old(backlog)@.len() as int
            };
            r@ == old(backlog)@.subrange(0, n) && final(backlog)@ == old(backlog)@.subrange(
                n,
                old(backlog)@.len() as int,
            )
        }),
{
    let n = if max <= backlog.len() {
        max
    } else {
        backlog.len()
    };
    let r = sub_bytes(backlog, 0, n);
    let rest = sub_bytes(backlog, n, backlog.len());
    *backlog = rest;
    r
}

} // verus!
