//! Fixed-layout binary wire formats: big-endian integer fields, the
//! three-byte framing tags, and the builders for every packet shape that
//! crosses the network.

use vstd::prelude::*;
use crate::{Error, CHAT_ID_SIZE, CYPHER_SIZE, SIGNATURE_SIZE};

verus! {

// ---------------------------------------------------------------------------
// Big-endian integer fields
// ---------------------------------------------------------------------------

/// Byte `i` (0 = most significant) of `v` written big-endian over 8 bytes.
pub open spec fn be64_byte(v: u64, i: int) -> u8 {
    ((v >> ((8 * (7 - i)) as u64)) & 0xff) as u8
}

/// The 8-byte big-endian encoding of `v`.
pub open spec fn be64_seq(v: u64) -> Seq<u8> {
    Seq::new(8, |i: int| be64_byte(v, i))
}

/// The value read big-endian from an 8-byte sequence.
pub open spec fn u64_from_be_seq(s: Seq<u8>) -> u64 {
    ((s[0] as u64) << 56u64) | ((s[1] as u64) << 48u64) | ((s[2] as u64) << 40u64)
        | ((s[3] as u64) << 32u64) | ((s[4] as u64) << 24u64) | ((s[5] as u64) << 16u64)
        | ((s[6] as u64) << 8u64) | (s[7] as u64)
}

/// Byte `i` (0 = most significant) of the 24-bit big-endian encoding of `v`.
pub open spec fn be24_byte(v: u32, i: int) -> u8 {
    ((v >> ((8 * (2 - i)) as u32)) & 0xff) as u8
}

/// The 3-byte big-endian encoding of the low 24 bits of `v`.
pub open spec fn be24_seq(v: u32) -> Seq<u8> {
    Seq::new(3, |i: int| be24_byte(v, i))
}

/// The value read big-endian from a 3-byte sequence.
pub open spec fn u24_from_be_seq(s: Seq<u8>) -> u32 {
    ((s[0] as u32) << 16u32) | ((s[1] as u32) << 8u32) | (s[2] as u32)
}

/// The value read big-endian from a 2-byte sequence.
pub open spec fn u16_from_be_seq(s: Seq<u8>) -> u16 {
    ((s[0] as u16) << 8u16) | (s[1] as u16)
}

pub fn u64_to_be(v: u64) -> (r: Vec<u8>)
    ensures
        r@ == be64_seq(v),
{
    let mut r: Vec<u8> = Vec::new();
    r.push(((v >> 56u64) & 0xff) as u8);
    r.push(((v >> 48u64) & 0xff) as u8);
    r.push(((v >> 40u64) & 0xff) as u8);
    r.push(((v >> 32u64) & 0xff) as u8);
    r.push(((v >> 24u64) & 0xff) as u8);
    r.push(((v >> 16u64) & 0xff) as u8);
    r.push(((v >> 8u64) & 0xff) as u8);
    r.push((v & 0xff) as u8);
    proof {
        assert((((v >> 0u64) & 0xff) as u8) == ((v & 0xff) as u8)) by (bit_vector);
        assert(r@ =~= be64_seq(v));
    }
    r
}

pub fn u64_from_be(s: &Vec<u8>) -> (r: u64)
    requires
        s@.len() == 8,
    ensures
        r == u64_from_be_seq(s@),
{
    ((s[0] as u64) << 56u64) | ((s[1] as u64) << 48u64) | ((s[2] as u64) << 40u64)
        | ((s[3] as u64) << 32u64) | ((s[4] as u64) << 24u64) | ((s[5] as u64) << 16u64)
        | ((s[6] as u64) << 8u64) | (s[7] as u64)
}

pub fn u24_to_be(v: u32) -> (r: Vec<u8>)
    ensures
        r@ == be24_seq(v),
{
    let mut r: Vec<u8> = Vec::new();
    r.push(((v >> 16u32) & 0xff) as u8);
    r.push(((v >> 8u32) & 0xff) as u8);
    r.push((v & 0xff) as u8);
    proof {
        assert((((v >> 0u32) & 0xff) as u8) == ((v & 0xff) as u8)) by (bit_vector);
        assert(r@ =~= be24_seq(v));
    }
    r
}

pub fn u24_from_be(s: &Vec<u8>) -> (r: u32)
    requires
        s@.len() == 3,
    ensures
        r == u24_from_be_seq(s@),
        r <= 0xffffff,
{
    let r = ((s[0] as u32) << 16u32) | ((s[1] as u32) << 8u32) | (s[2] as u32);
    proof {
        let (a, b, c) = (s@[0], s@[1], s@[2]);
        assert(((a as u32) << 16u32) | ((b as u32) << 8u32) | (c as u32) <= 0xffffff)
            by (bit_vector);
    }
    r
}

/// Copy the byte range `[start, end)` of `src` into a fresh buffer.
pub fn sub_bytes(src: &Vec<u8>, start: usize, end: usize) -> (r: Vec<u8>)
    requires
        start <= end,
        end <= src@.len(),
    ensures
        r@ == src@.subrange(start as int, end as int),
{
    vstd::slice::slice_to_vec(vstd::slice::slice_subrange(src.as_slice(), start, end))
}

/// Compare two byte buffers for equality of their contents.
pub fn bytes_eq(a: &Vec<u8>, b: &Vec<u8>) -> (r: bool)
    ensures
        r == (a@ == b@),
{
    if a.len() != b.len() {
        return false;
    }
    let mut i: usize = 0;
    while i < a.len()
        invariant
            i <= a@.len(),
            a@.len() == b@.len(),
            forall|k: int| 0 <= k < i ==> a@[k] == b@[k],
        decreases a@.len() - i,
    {
        if a[i] != b[i] {
            return false;
        }
        i = i + 1;
    }
    proof {
        assert(a@ =~= b@);
    }
    true
}

/// Copy a whole byte buffer.
pub fn clone_bytes(src: &Vec<u8>) -> (r: Vec<u8>)
    ensures
        r@ == src@,
{
    vstd::slice::slice_to_vec(src.as_slice())
}

/// Reading back an 8-byte big-endian encoding recovers the value.
pub proof fn lemma_be64_round_trip(v: u64)
    ensures
        u64_from_be_seq(be64_seq(v)) == v,
{
    let s = be64_seq(v);
    assert(
        ((((v >> 56u64) & 0xff) as u8 as u64) << 56u64)
        | ((((v >> 48u64) & 0xff) as u8 as u64) << 48u64)
        | ((((v >> 40u64) & 0xff) as u8 as u64) << 40u64)
        | ((((v >> 32u64) & 0xff) as u8 as u64) << 32u64)
        | ((((v >> 24u64) & 0xff) as u8 as u64) << 24u64)
        | ((((v >> 16u64) & 0xff) as u8 as u64) << 16u64)
        | ((((v >> 8u64) & 0xff) as u8 as u64) << 8u64)
        | ((((v >> 0u64) & 0xff) as u8) as u64) == v
    ) by (bit_vector);
    assert(s[0] == ((v >> 56u64) & 0xff) as u8);
    assert(s[1] == ((v >> 48u64) & 0xff) as u8);
    assert(s[2] == ((v >> 40u64) & 0xff) as u8);
    assert(s[3] == ((v >> 32u64) & 0xff) as u8);
    assert(s[4] == ((v >> 24u64) & 0xff) as u8);
    assert(s[5] == ((v >> 16u64) & 0xff) as u8);
    assert(s[6] == ((v >> 8u64) & 0xff) as u8);
    assert(s[7] == ((v >> 0u64) & 0xff) as u8);
    assert(u64_from_be_seq(s) == ((s[0] as u64) << 56u64) | ((s[1] as u64) << 48u64)
        | ((s[2] as u64) << 40u64) | ((s[3] as u64) << 32u64) | ((s[4] as u64) << 24u64)
        | ((s[5] as u64) << 16u64) | ((s[6] as u64) << 8u64) | (s[7] as u64));
}

/// Reading back a 3-byte big-endian encoding recovers the low 24 bits.
pub proof fn lemma_be24_round_trip(v: u32)
    requires
        v <= 0xffffff,
    ensures
        u24_from_be_seq(be24_seq(v)) == v,
{
    let s = be24_seq(v);
    assert(
        v <= 0xffffff ==>
        ((((v >> 16u32) & 0xff) as u8 as u32) << 16u32)
        | ((((v >> 8u32) & 0xff) as u8 as u32) << 8u32)
        | ((((v >> 0u32) & 0xff) as u8) as u32) == v
    ) by (bit_vector);
    assert(s[0] == ((v >> 16u32) & 0xff) as u8);
    assert(s[1] == ((v >> 8u32) & 0xff) as u8);
    assert(s[2] == ((v >> 0u32) & 0xff) as u8);
}

// ---------------------------------------------------------------------------
// Framing tags
// ---------------------------------------------------------------------------

/// The five three-byte ASCII sentinels that delimit protocol packets.
#[derive(Clone, Copy, PartialEq, Eq, Structural, Debug)]
pub enum Tag {
    /// "snd": client sends a message.
    Send,
    /// "fch": client asks for the latest messages.
    Fetch,
    /// "qry": client pages through the log from a cursor.
    Query,
    /// "end": trailing sentinel of every client request.
    End,
    /// "msg": server response head.
    Msg,
}

/// The three bytes of each tag.
pub open spec fn tag_seq(t: Tag) -> Seq<u8> {
    match t {
        Tag::Send => seq![115u8, 110u8, 100u8],
        Tag::Fetch => seq![102u8, 99u8, 104u8],
        Tag::Query => seq![113u8, 114u8, 121u8],
        Tag::End => seq![101u8, 110u8, 100u8],
        Tag::Msg => seq![109u8, 115u8, 103u8],
    }
}

pub fn tag_bytes(t: Tag) -> (r: Vec<u8>)
    ensures
        r@ == tag_seq(t),
{
    let mut r: Vec<u8> = Vec::new();
    match t {
        Tag::Send => {
            r.push(115u8);
            r.push(110u8);
            r.push(100u8);
        },
        Tag::Fetch => {
            r.push(102u8);
            r.push(99u8);
            r.push(104u8);
        },
        Tag::Query => {
            r.push(113u8);
            r.push(114u8);
            r.push(121u8);
        },
        Tag::End => {
            r.push(101u8);
            r.push(110u8);
            r.push(100u8);
        },
        Tag::Msg => {
            r.push(109u8);
            r.push(115u8);
            r.push(103u8);
        },
    }
    proof {
        assert(r@ =~= tag_seq(t));
    }
    r
}

/// Recognize a three-byte framing tag; `None` for any other bytes.
pub fn parse_tag(b: &Vec<u8>) -> (r: Option<Tag>)
    requires
        b@.len() == 3,
    ensures
        match r {
            Some(t) => b@ == tag_seq(t),
            None => forall|t: Tag| b@ != tag_seq(t),
        },
{
    let (b0, b1, b2) = (b[0], b[1], b[2]);
    let r = if b0 == 115u8 && b1 == 110u8 && b2 == 100u8 {
        Some(Tag::Send)
    } else if b0 == 102u8 && b1 == 99u8 && b2 == 104u8 {
        Some(Tag::Fetch)
    } else if b0 == 113u8 && b1 == 114u8 && b2 == 121u8 {
        Some(Tag::Query)
    } else if b0 == 101u8 && b1 == 110u8 && b2 == 100u8 {
        Some(Tag::End)
    } else if b0 == 109u8 && b1 == 115u8 && b2 == 103u8 {
        Some(Tag::Msg)
    } else {
        None
    };
    proof {
        match r {
            Some(t) => {
                assert(b@ =~= tag_seq(t));
            },
            None => {
                assert forall|t: Tag| b@ != tag_seq(t) by {
                    assert(b@[0] == b0 && b@[1] == b1 && b@[2] == b2);
                }
            },
        }
    }
    r
}

// ---------------------------------------------------------------------------
// Client request packets
// ---------------------------------------------------------------------------

/// `tag` + `inner` + `"end"`: the frame around every client request body.
pub open spec fn framed_seq(t: Tag, inner: Seq<u8>) -> Seq<u8> {
    tag_seq(t) + inner + tag_seq(Tag::End)
}

/// Wrap a request body in its leading tag and the trailing `"end"` tag.
pub fn pad_buf(t: Tag, inner: &Vec<u8>) -> (r: Vec<u8>)
    ensures
        r@ == framed_seq(t, inner@),
{
    let mut r = tag_bytes(t);
    r.extend_from_slice(inner.as_slice());
    let end = tag_bytes(Tag::End);
    r.extend_from_slice(end.as_slice());
    proof {
        assert(r@ =~= framed_seq(t, inner@));
    }
    r
}

/// The bytes of a send request: `"snd"` + chat id + cypher + signature + `"end"`.
pub open spec fn send_packet_seq(chat_id: Seq<u8>, cypher: Seq<u8>, signature: Seq<u8>) -> Seq<u8> {
    framed_seq(Tag::Send, chat_id + cypher + signature)
}

pub fn send_packet(chat_id: &Vec<u8>, cypher: &Vec<u8>, signature: &Vec<u8>) -> (r: Vec<u8>)
    requires
        chat_id@.len() == CHAT_ID_SIZE,
        cypher@.len() == CYPHER_SIZE,
        signature@.len() == SIGNATURE_SIZE,
    ensures
        r@ == send_packet_seq(chat_id@, cypher@, signature@),
{
    let mut inner: Vec<u8> = Vec::new();
    inner.extend_from_slice(chat_id.as_slice());
    inner.extend_from_slice(cypher.as_slice());
    inner.extend_from_slice(signature.as_slice());
    proof {
        assert(inner@ =~= chat_id@ + cypher@ + signature@);
    }
    pad_buf(Tag::Send, &inner)
}

/// The bytes of a fetch request: `"fch"` + chat id + `"end"`.
pub open spec fn fetch_packet_seq(chat_id: Seq<u8>) -> Seq<u8> {
    framed_seq(Tag::Fetch, chat_id)
}

pub fn fetch_packet(chat_id: &Vec<u8>) -> (r: Vec<u8>)
    requires
        chat_id@.len() == CHAT_ID_SIZE,
    ensures
        r@ == fetch_packet_seq(chat_id@),
{
    pad_buf(Tag::Fetch, chat_id)
}

/// The one-byte query argument: direction flag in bit 7, count in bits 0-6.
pub open spec fn query_args_byte(forward: bool, count: u8) -> u8 {
    if forward {
        count | 0x80
    } else {
        count
    }
}

/// The bytes of a query request:
/// `"qry"` + chat id + args byte + 3-byte cursor id + `"end"`.
pub open spec fn query_packet_seq(chat_id: Seq<u8>, forward: bool, count: u8, id: u32) -> Seq<u8> {
    framed_seq(Tag::Query, chat_id + seq![query_args_byte(forward, count)] + be24_seq(id))
}

/// Build a query request. Rejects a count that does not fit in 7 bits or an
/// id that does not fit in 3 bytes.
pub fn query_packet(chat_id: &Vec<u8>, forward: bool, count: u8, id: u32) -> (r: Result<
    Vec<u8>,
    Error,
>)
    requires
        chat_id@.len() == CHAT_ID_SIZE,
    ensures
        match r {
            Ok(buf) => count <= 0x7f && id <= 0xffffff && buf@ == query_packet_seq(
                chat_id@,
                forward,
                count,
                id,
            ),
            Err(e) => e == Error::QueryTooLarge && (count > 0x7f || id > 0xffffff),
        },
{
    if count > 0x7f || id > 0xffffff {
        return Err(Error::QueryTooLarge);
    }
    let mut inner: Vec<u8> = Vec::new();
    inner.extend_from_slice(chat_id.as_slice());
    inner.push(if forward {
        count | 0x80
    } else {
        count
    });
    let id_bytes = u24_to_be(id);
    inner.extend_from_slice(id_bytes.as_slice());
    proof {
        assert(inner@ =~= chat_id@ + seq![query_args_byte(forward, count)] + be24_seq(id));
    }
    Ok(pad_buf(Tag::Query, &inner))
}

// ---------------------------------------------------------------------------
// Response head packets
// ---------------------------------------------------------------------------

/// The packed count byte of a head: bit 7 = forward flag, bits 0-6 = count.
pub open spec fn head_count_byte(forward: bool, count: u8) -> u8 {
    query_args_byte(forward, count)
}

/// The 8-byte head that prefixes every batch response:
/// `"msg"` + first byte of the chat id + 3-byte first id + packed count byte.
/// Only the low 24 bits of the first id travel.
pub open spec fn head_seq(chat_byte: u8, msg_id: u32, forward: bool, count: u8) -> Seq<u8> {
    tag_seq(Tag::Msg) + seq![chat_byte] + be24_seq(msg_id) + seq![head_count_byte(forward, count)]
}

pub fn build_head(chat_byte: u8, msg_id: u32, forward: bool, count: u8) -> (r: Vec<u8>)
    requires
        count <= 127,
    ensures
        r@ == head_seq(chat_byte, msg_id, forward, count),
        r@.len() == 8,
{
    let mut r = tag_bytes(Tag::Msg);
    r.push(chat_byte);
    let id_bytes = u24_to_be(msg_id);
    r.extend_from_slice(id_bytes.as_slice());
    r.push(if forward {
        count | 0x80
    } else {
        count
    });
    proof {
        assert(r@ =~= head_seq(chat_byte, msg_id, forward, count));
    }
    r
}

/// A head parses back into the fields it was built from: tag, chat byte,
/// first id, count and direction flag all survive the trip.
pub proof fn lemma_head_round_trip(chat_byte: u8, msg_id: u32, forward: bool, count: u8)
    requires
        msg_id <= 0xffffff,
        count <= 127,
    ensures
        head_seq(chat_byte, msg_id, forward, count).len() == 8,
        head_seq(chat_byte, msg_id, forward, count).subrange(0, 3) == tag_seq(Tag::Msg),
        head_seq(chat_byte, msg_id, forward, count)[3] == chat_byte,
        u24_from_be_seq(head_seq(chat_byte, msg_id, forward, count).subrange(4, 7)) == msg_id,
        head_seq(chat_byte, msg_id, forward, count)[7] & 0x7f == count,
        (head_seq(chat_byte, msg_id, forward, count)[7] & 0x80 > 0) == forward,
{
    let h = head_seq(chat_byte, msg_id, forward, count);
    assert(h.subrange(0, 3) =~= tag_seq(Tag::Msg));
    assert(h.subrange(4, 7) =~= be24_seq(msg_id));
    lemma_be24_round_trip(msg_id);
    let c = count;
    assert(c <= 127 ==> ((c | 0x80) & 0x7f == c && (c | 0x80) & 0x80 > 0 && c & 0x7f == c
        && !(c & 0x80 > 0))) by (bit_vector);
}

// ---------------------------------------------------------------------------
// Flattening a batch of records
// ---------------------------------------------------------------------------

/// The records of a batch laid end to end, in order.
pub open spec fn flat_seq(msgs: Seq<Seq<u8>>) -> Seq<u8> {
    msgs.flatten_alt()
}

pub fn flatten_records(msgs: &Vec<Vec<u8>>) -> (r: Vec<u8>)
    ensures
        r@ == flat_seq(msgs@.map_values(|m: Vec<u8>| m@)),
{
    let ghost all = msgs@.map_values(|m: Vec<u8>| m@);
    let mut r: Vec<u8> = Vec::new();
    proof {
        assert(all.take(0) =~= Seq::<Seq<u8>>::empty());
        assert(r@ =~= flat_seq(all.take(0)));
    }
    let mut i: usize = 0;
    while i < msgs.len()
        invariant
            i <= msgs@.len(),
            all == msgs@.map_values(|m: Vec<u8>| m@),
            r@ == flat_seq(all.take(i as int)),
        decreases msgs@.len() - i,
    {
        r.extend_from_slice(msgs[i].as_slice());
        proof {
            let pre = all.take(i as int);
            let cur = all.take(i + 1);
            assert(cur.drop_last() =~= pre);
            assert(cur.last() == all[i as int]);
            assert(cur.flatten_alt() == cur.drop_last().flatten_alt() + cur.last());
        }
        i = i + 1;
    }
    proof {
        assert(all.take(all.len() as int) =~= all);
    }
    r
}

} // verus!
