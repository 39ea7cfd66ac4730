//! The stored record layout: a 512-byte block holding the server timestamp,
//! the opaque cypher and the signature, and the pure conversions between a
//! client send body and a storage block.

use vstd::prelude::*;
use crate::{CHAT_ID_SIZE, CYPHER_SIZE, MSG_IN_SIZE, MSG_ST_SIZE, SIGNATURE_SIZE, TIME_SIZE};
use crate::wire::{
    be64_seq, clone_bytes, lemma_be64_round_trip, sub_bytes, u64_from_be, u64_from_be_seq,
    u64_to_be,
};

verus! {

/// One stored message: immutable once appended to a room's log.
pub struct StorageRecord {
    /// Server receive time, milliseconds since the epoch.
    pub server_time: u64,
    /// The 440-byte opaque ciphertext block.
    pub cypher: Vec<u8>,
    /// The 64-byte signature over the hashed cypher.
    pub signature: Vec<u8>,
}

impl StorageRecord {
    /// Field lengths match the canonical 512-byte layout.
    pub open spec fn wf(&self) -> bool {
        &&& self.cypher@.len() == CYPHER_SIZE
        &&& self.signature@.len() == SIGNATURE_SIZE
    }
}

/// The canonical 512-byte block: big-endian time, then cypher, then signature.
pub open spec fn record_bytes(server_time: u64, cypher: Seq<u8>, signature: Seq<u8>) -> Seq<u8> {
    be64_seq(server_time) + cypher + signature
}

/// The server time read from a 512-byte block.
pub open spec fn record_time_of(b: Seq<u8>) -> u64 {
    u64_from_be_seq(b.subrange(0, TIME_SIZE as int))
}

/// The cypher read from a 512-byte block.
pub open spec fn record_cypher_of(b: Seq<u8>) -> Seq<u8> {
    b.subrange(TIME_SIZE as int, (TIME_SIZE + CYPHER_SIZE) as int)
}

/// The signature read from a 512-byte block.
pub open spec fn record_sig_of(b: Seq<u8>) -> Seq<u8> {
    b.subrange((TIME_SIZE + CYPHER_SIZE) as int, MSG_ST_SIZE as int)
}

impl StorageRecord {
    /// Encode the fields into the canonical 512-byte block.
    pub fn to_bytes(&self) -> (r: Vec<u8>)
        requires
            self.wf(),
        ensures
            r@ == record_bytes(self.server_time, self.cypher@, self.signature@),
            r@.len() == MSG_ST_SIZE,
    {
        let mut r = u64_to_be(self.server_time);
        r.extend_from_slice(self.cypher.as_slice());
        r.extend_from_slice(self.signature.as_slice());
        proof {
            assert(r@ =~= record_bytes(self.server_time, self.cypher@, self.signature@));
        }
        r
    }

    /// Decode a canonical 512-byte block back into its fields.
    pub fn from_bytes(b: &Vec<u8>) -> (r: Self)
        requires
            b@.len() == MSG_ST_SIZE,
        ensures
            r.server_time == record_time_of(b@),
            r.cypher@ == record_cypher_of(b@),
            r.signature@ == record_sig_of(b@),
            r.wf(),
    {
        let time_bytes = sub_bytes(b, 0, TIME_SIZE);
        StorageRecord {
            server_time: u64_from_be(&time_bytes),
            cypher: sub_bytes(b, TIME_SIZE, TIME_SIZE + CYPHER_SIZE),
            signature: sub_bytes(b, TIME_SIZE + CYPHER_SIZE, MSG_ST_SIZE),
        }
    }
}

/// Encoding a record's fields and reading them back yields the identical
/// server time, cypher and signature.
pub proof fn lemma_record_round_trip(server_time: u64, cypher: Seq<u8>, signature: Seq<u8>)
    requires
        cypher.len() == CYPHER_SIZE,
        signature.len() == SIGNATURE_SIZE,
    ensures
        record_time_of(record_bytes(server_time, cypher, signature)) == server_time,
        record_cypher_of(record_bytes(server_time, cypher, signature)) == cypher,
        record_sig_of(record_bytes(server_time, cypher, signature)) == signature,
{
    let b = record_bytes(server_time, cypher, signature);
    assert(b.subrange(0, TIME_SIZE as int) =~= be64_seq(server_time));
    lemma_be64_round_trip(server_time);
    assert(record_cypher_of(b) =~= cypher);
    assert(record_sig_of(b) =~= signature);
}

/// Build the storage block for a send body received at `msg_time`:
/// stamp the time, keep the cypher and signature, and hand back the chat id
/// named in the request.
pub fn packet_to_storage(src: &Vec<u8>, dest: &mut Vec<u8>, msg_time: u64) -> (chat_id: Vec<u8>)
    requires
        src@.len() == MSG_IN_SIZE,
    ensures
        final(dest)@ == record_bytes(
            msg_time,
            src@.subrange(CHAT_ID_SIZE as int, (CHAT_ID_SIZE + CYPHER_SIZE) as int),
            src@.subrange((CHAT_ID_SIZE + CYPHER_SIZE) as int, MSG_IN_SIZE as int),
        ),
        final(dest)@.len() == MSG_ST_SIZE,
        chat_id@ == src@.subrange(0, CHAT_ID_SIZE as int),
{
    let mut buf = u64_to_be(msg_time);
    let body = sub_bytes(src, CHAT_ID_SIZE, MSG_IN_SIZE);
    buf.extend_from_slice(body.as_slice());
    proof {
        assert(buf@ =~= record_bytes(
            msg_time,
            src@.subrange(CHAT_ID_SIZE as int, (CHAT_ID_SIZE + CYPHER_SIZE) as int),
            src@.subrange((CHAT_ID_SIZE + CYPHER_SIZE) as int, MSG_IN_SIZE as int),
        ));
    }
    *dest = buf;
    sub_bytes(src, 0, CHAT_ID_SIZE)
}

/// A storage block already has the outgoing wire layout; copy it unchanged.
pub fn storage_to_packet(src: &Vec<u8>) -> (r: Vec<u8>)
    requires
        src@.len() == MSG_ST_SIZE,
    ensures
        r@ == src@,
{
    clone_bytes(src)
}

} // verus!
