//! An encrypted multi-room chat service core: fixed-layout binary wire
//! formats, a WebSocket frame codec, an append-only per-room message log with
//! cursor pagination, the server-side request dispatcher, and the client-side
//! window reconciler.
//!
//! Cryptography (SHA3, AES-CTR, ed25519) is an outside collaborator reached
//! through a few trusted wrappers; everything else is verified.

use vstd::prelude::*;

pub mod client;
pub mod crypt;
pub mod db;
pub mod msg;
pub mod smrt;
pub mod wire;
pub mod ws;

verus! {

/// Length of one framing tag ("snd", "fch", "qry", "end", "msg").
pub const PADDING_SIZE: usize = 3;

/// Length of an ed25519 signature.
pub const SIGNATURE_SIZE: usize = 64;

/// Length of a SHA3-256 hash; chat ids and chat keys are hashes.
pub const HASH_SIZE: usize = 32;

/// Length of a chat id (the hash of the chat key).
pub const CHAT_ID_SIZE: usize = HASH_SIZE;

/// Length of a big-endian milliseconds-since-epoch timestamp.
pub const TIME_SIZE: usize = 8;

/// Message ids travel as 24-bit big-endian integers.
pub const MSG_ID_SIZE: usize = 3;

/// One query argument block: an args byte plus a 3-byte message id.
pub const QUERY_ARG_SIZE: usize = 1 + MSG_ID_SIZE;

/// Length of the chat-key prefix inside a cypher block.
pub const CYPHER_CHAT_KEY_SIZE: usize = 4;

/// Length of the padded plaintext inside a cypher block.
pub const CYPHER_PAD_MSG_SIZE: usize = 396;

/// Length of one opaque cypher block:
/// chat-key prefix + client time + public key + padded plaintext.
pub const CYPHER_SIZE: usize = CYPHER_CHAT_KEY_SIZE + TIME_SIZE + HASH_SIZE
    + CYPHER_PAD_MSG_SIZE;

/// Length of a client send body: chat id + cypher + signature.
pub const MSG_IN_SIZE: usize = CHAT_ID_SIZE + CYPHER_SIZE + SIGNATURE_SIZE;

/// Length of one stored record: server time + cypher + signature.
pub const MSG_ST_SIZE: usize = TIME_SIZE + CYPHER_SIZE + SIGNATURE_SIZE;

/// Length of one record on the wire; the storage layout travels unchanged.
pub const MSG_OUT_SIZE: usize = MSG_ST_SIZE;

/// Length of the head descriptor that prefixes a batch response.
pub const HED_OUT_SIZE: usize = PADDING_SIZE + 1 + MSG_ID_SIZE + 1;

/// The server never reads more than this many records for one query.
pub const MAX_FETCH_AMOUNT: u8 = 50;

/// How many records a plain fetch returns.
pub const DEFAULT_FETCH_AMOUNT: u8 = 25;

/// Largest allowed distance between server and client timestamps for a
/// message to count as verified, in milliseconds.
pub const VERIFY_TOLERANCE_MS: u64 = 10 * 1000;

/// Every error the library can report.
#[derive(Clone, Copy, PartialEq, Eq, Structural, Debug)]
pub enum Error {
    /// A request body did not end with the `"end"` tag.
    BadEndTag,
    /// A response head did not start with the `"msg"` tag.
    BadHeadTag,
    /// A batch of more than 127 records cannot be described by one head.
    TooManyMessages,
    /// A query count over 127 or an id over 24 bits cannot travel.
    QueryTooLarge,
    /// A plaintext longer than the padded message area cannot be sent.
    MsgTooLong,
    /// No padding indicator was found in a decrypted message.
    PadMissing,
    /// A decrypted message was not valid UTF-8.
    BadUtf8,
    /// A public key or signature could not be parsed.
    BadKeyOrSig,
    /// A room log already holds the largest number of records ids can name.
    StorageFull,
}

} // verus!
