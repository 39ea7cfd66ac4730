//! The server-side request dispatcher: classify a connection, parse one
//! framed request, drive the storage engine, and build the framed response.

use vstd::prelude::*;
use crate::{
    Error, CHAT_ID_SIZE, CYPHER_SIZE, DEFAULT_FETCH_AMOUNT, MSG_IN_SIZE, MSG_ST_SIZE,
    PADDING_SIZE, QUERY_ARG_SIZE, SIGNATURE_SIZE,
};
use crate::db::{fetch_spec, query_spec, ServerState, MAX_LOG_LEN};
use crate::msg::record_bytes;
use crate::wire::{
    build_head, bytes_eq, flat_seq, flatten_records, head_seq, sub_bytes, tag_bytes, tag_seq,
    u24_from_be, u24_from_be_seq, u64_to_be, Tag,
};

verus! {

/// Server configuration, owned for the process lifetime.
pub struct Globals {
    /// Directory that holds one log file per room.
    pub data_dir: String,
    /// The 40 hex characters of the running build's revision.
    pub git_hash: Vec<u8>,
}

// ---------------------------------------------------------------------------
// Connection classification
// ---------------------------------------------------------------------------

/// What the first four bytes of a fresh connection select.
#[derive(Clone, Copy, PartialEq, Eq, Structural, Debug)]
pub enum Protocol {
    /// "GET ": an HTTP request, possibly a WebSocket upgrade.
    Http,
    /// "SMRT": the chat protocol directly over TCP.
    Smrt,
    /// Anything else: the connection is dropped.
    Unknown,
}

/// The bytes `"GET "`.
pub open spec fn http_preamble() -> Seq<u8> {
    seq![71u8, 69u8, 84u8, 32u8]
}

/// The bytes `"SMRT"`.
pub open spec fn smrt_preamble() -> Seq<u8> {
    seq![83u8, 77u8, 82u8, 84u8]
}

/// Classify a connection by its first four bytes.
pub fn classify_connection(first: &Vec<u8>) -> (r: Protocol)
    requires
        first@.len() == 4,
    ensures
        r == Protocol::Http <==> first@ == http_preamble(),
        r == Protocol::Smrt <==> first@ == smrt_preamble(),
{
    let (b0, b1, b2, b3) = (first[0], first[1], first[2], first[3]);
    let r = if b0 == 71u8 && b1 == 69u8 && b2 == 84u8 && b3 == 32u8 {
        Protocol::Http
    } else if b0 == 83u8 && b1 == 77u8 && b2 == 82u8 && b3 == 84u8 {
        Protocol::Smrt
    } else {
        Protocol::Unknown
    };
    proof {
        if first@ == http_preamble() || first@ == smrt_preamble() {
        } else {
            assert(first@ != http_preamble() && first@ != smrt_preamble());
        }
        match r {
            Protocol::Http => {
                assert(first@ =~= http_preamble());
            },
            Protocol::Smrt => {
                assert(first@ =~= smrt_preamble());
            },
            Protocol::Unknown => {},
        }
    }
    r
}

// ---------------------------------------------------------------------------
// Request parsing
// ---------------------------------------------------------------------------

/// Unpack the 4-byte query argument block:
/// (cursor id from the last 3 bytes, count from bits 0-6 of the first byte,
/// forward flag from bit 7).
pub fn query_bytes_to_args(data: &Vec<u8>) -> (r: (u32, u8, bool))
    requires
        data@.len() == QUERY_ARG_SIZE,
    ensures
        r.0 == u24_from_be_seq(data@.subrange(1, 4)),
        r.0 <= 0xffffff,
        r.1 == data@[0] & 0x7f,
        r.1 <= 127,
        r.2 == (data@[0] & 0x80 > 0),
{
    let id_bytes = sub_bytes(data, 1, 4);
    let id = u24_from_be(&id_bytes);
    let args = data[0];
    proof {
        let b = data@[0];
        assert(b & 0x7f <= 127) by (bit_vector);
    }
    (id, args & 0x7f, args & 0x80 > 0)
}

/// One parsed client request.
#[derive(Debug)]
pub enum Request {
    /// Store a message in a room.
    Send { chat_id: Vec<u8>, cypher: Vec<u8>, signature: Vec<u8> },
    /// Ask for the newest records of a room.
    Fetch { chat_id: Vec<u8> },
    /// Page through a room's log from a cursor.
    Query { chat_id: Vec<u8>, msg_id: u32, count: u8, forward: bool },
}

impl Request {
    /// Field sizes and ranges as the wire allows them.
    pub open spec fn wf(&self) -> bool {
        match self {
            Request::Send { chat_id, cypher, signature } => chat_id@.len() == CHAT_ID_SIZE
                && cypher@.len() == CYPHER_SIZE && signature@.len() == SIGNATURE_SIZE,
            Request::Fetch { chat_id } => chat_id@.len() == CHAT_ID_SIZE,
            Request::Query { chat_id, msg_id, count, forward } => chat_id@.len() == CHAT_ID_SIZE
                && *msg_id <= 0xffffff && *count <= 127,
        }
    }
}

/// How many bytes follow a request tag, trailing `"end"` tag included.
pub open spec fn spec_body_len(t: Tag) -> int {
    match t {
        Tag::Send => MSG_IN_SIZE + PADDING_SIZE,
        Tag::Fetch => CHAT_ID_SIZE + PADDING_SIZE,
        Tag::Query => CHAT_ID_SIZE + QUERY_ARG_SIZE + PADDING_SIZE,
        _ => 0,
    }
}

pub fn body_len(t: Tag) -> (r: usize)
    requires
        t == Tag::Send || t == Tag::Fetch || t == Tag::Query,
    ensures
        r == spec_body_len(t),
{
    match t {
        Tag::Send => MSG_IN_SIZE + PADDING_SIZE,
        Tag::Fetch => CHAT_ID_SIZE + PADDING_SIZE,
        _ => CHAT_ID_SIZE + QUERY_ARG_SIZE + PADDING_SIZE,
    }
}

/// What a parsed request holds, over the body bytes that arrived.
pub open spec fn req_matches(t: Tag, body: Seq<u8>, req: Request) -> bool {
    match t {
        Tag::Send => req matches Request::Send { chat_id, cypher, signature } && chat_id@
            == body.subrange(0, CHAT_ID_SIZE as int) && cypher@ == body.subrange(
            CHAT_ID_SIZE as int,
            (CHAT_ID_SIZE + CYPHER_SIZE) as int,
        ) && signature@ == body.subrange((CHAT_ID_SIZE + CYPHER_SIZE) as int, MSG_IN_SIZE as int),
        Tag::Fetch => req matches Request::Fetch { chat_id } && chat_id@ == body.subrange(
            0,
            CHAT_ID_SIZE as int,
        ),
        Tag::Query => req matches Request::Query { chat_id, msg_id, count, forward } && chat_id@
            == body.subrange(0, CHAT_ID_SIZE as int) && msg_id == u24_from_be_seq(body.subrange(
            CHAT_ID_SIZE + 1,
            CHAT_ID_SIZE + 4,
        )) && count == body[CHAT_ID_SIZE as int] & 0x7f && forward == (
        body[CHAT_ID_SIZE as int] & 0x80 > 0),
        _ => false,
    }
}

/// Parse one request body read after its tag. The body must close with the
/// `"end"` tag; anything else is a fatal protocol error.
pub fn parse_request(t: Tag, body: &Vec<u8>) -> (r: Result<Request, Error>)
    requires
        t == Tag::Send || t == Tag::Fetch || t == Tag::Query,
        body@.len() == spec_body_len(t),
    ensures
        match r {
            Ok(req) => {
                &&& body@.subrange(body@.len() - 3, body@.len() as int) == tag_seq(Tag::End)
                &&& req_matches(t, body@, req)
                &&& req.wf()
            },
            Err(e) => e == Error::BadEndTag && body@.subrange(body@.len() - 3, body@.len() as int)
                != tag_seq(Tag::End),
        },
{
    let n = body.len();
    let end = sub_bytes(body, n - 3, n);
    let end_tag = tag_bytes(Tag::End);
    if !bytes_eq(&end, &end_tag) {
        return Err(Error::BadEndTag);
    }
    match t {
        Tag::Send => Ok(Request::Send {
            chat_id: sub_bytes(body, 0, CHAT_ID_SIZE),
            cypher: sub_bytes(body, CHAT_ID_SIZE, CHAT_ID_SIZE + CYPHER_SIZE),
            signature: sub_bytes(body, CHAT_ID_SIZE + CYPHER_SIZE, MSG_IN_SIZE),
        }),
        Tag::Fetch => Ok(Request::Fetch { chat_id: sub_bytes(body, 0, CHAT_ID_SIZE) }),
        _ => {
            let args = sub_bytes(body, CHAT_ID_SIZE, CHAT_ID_SIZE + QUERY_ARG_SIZE);
            let (msg_id, count, forward) = query_bytes_to_args(&args);
            proof {
                assert(args@.subrange(1, 4) =~= body@.subrange(
                    CHAT_ID_SIZE + 1,
                    CHAT_ID_SIZE + 4,
                ));
            }
            Ok(Request::Query {
                chat_id: sub_bytes(body, 0, CHAT_ID_SIZE),
                msg_id,
                count,
                forward,
            })
        },
    }
}

// ---------------------------------------------------------------------------
// Response building
// ---------------------------------------------------------------------------

/// The bytes of one batch response: the 8-byte head, then the records laid
/// end to end.
pub open spec fn response_seq(
    chat_byte: u8,
    msg_id: u32,
    forward: bool,
    count: u8,
    msgs: Seq<Seq<u8>>,
) -> Seq<u8> {
    head_seq(chat_byte, msg_id, forward, count) + flat_seq(msgs)
}

/// Frame a batch of records for the wire. A batch of more than 127 records
/// cannot be described by one head.
pub fn response_packet(
    chat_id: &Vec<u8>,
    msg_id: u32,
    forward: bool,
    count: u8,
    msgs: &Vec<Vec<u8>>,
) -> (r: Result<Vec<u8>, Error>)
    requires
        chat_id@.len() == CHAT_ID_SIZE,
        msgs@.len() == count,
    ensures
        match r {
            Ok(buf) => count <= 127 && buf@ == response_seq(
                chat_id@[0],
                msg_id,
                forward,
                count,
                msgs@.map_values(|m: Vec<u8>| m@),
            ),
            Err(e) => e == Error::TooManyMessages && count > 127,
        },
{
    if count > 127 {
        return Err(Error::TooManyMessages);
    }
    let mut buf = build_head(chat_id[0], msg_id, forward, count);
    let flat = flatten_records(msgs);
    buf.extend_from_slice(flat.as_slice());
    proof {
        assert(buf@ =~= response_seq(
            chat_id@[0],
            msg_id,
            forward,
            count,
            msgs@.map_values(|m: Vec<u8>| m@),
        ));
    }
    Ok(buf)
}

// ---------------------------------------------------------------------------
// Dispatch
// ---------------------------------------------------------------------------

/// Execute one parsed request against the server state at time `now`
/// (milliseconds since the epoch).
///
/// A send stamps the cypher with `now`, stores it in its room and returns no
/// response. A fetch returns the newest records; a query pages from its
/// cursor. The only error is a room grown past what 32-bit ids can name.
pub fn handle(state: &mut ServerState, req: &Request, now: u64) -> (r: Result<
    Option<Vec<u8>>,
    Error,
>)
    requires
        old(state).wf(),
        req.wf(),
    ensures
        final(state).wf(),
        match req {
            Request::Send { chat_id, cypher, signature } => match r {
                Ok(resp) => {
                    &&& resp is None
                    &&& old(state).room_log(chat_id@).len() < MAX_LOG_LEN
                    &&& final(state).room_log(chat_id@) == old(state).room_log(chat_id@).push(
                        record_bytes(now, cypher@, signature@),
                    )
                    &&& forall|other: Seq<u8>|
                        other != chat_id@
                            ==> final(state).room_log(other) == old(state).room_log(other)
                },
                Err(e) => {
                    &&& e == Error::StorageFull
                    &&& old(state).room_log(chat_id@).len() == MAX_LOG_LEN
                    &&& *final(state) == *old(state)
                },
            },
            Request::Fetch { chat_id } => {
                let res = fetch_spec(old(state).room_log(chat_id@), DEFAULT_FETCH_AMOUNT);
                &&& *final(state) == *old(state)
                &&& r matches Ok(Some(buf)) && buf@ == response_seq(
                    chat_id@[0],
                    res.1 as u32,
                    true,
                    res.0 as u8,
                    res.2,
                )
            },
            Request::Query { chat_id, msg_id, count, forward } => {
                let res = query_spec(old(state).room_log(chat_id@), *msg_id, *count, *forward);
                &&& *final(state) == *old(state)
                &&& r matches Ok(Some(buf)) && buf@ == response_seq(
                    chat_id@[0],
                    res.1 as u32,
                    *forward,
                    res.0 as u8,
                    res.2,
                )
            },
        },
{
    match req {
        Request::Send { chat_id, cypher, signature } => {
            let mut rec = u64_to_be(now);
            rec.extend_from_slice(cypher.as_slice());
            rec.extend_from_slice(signature.as_slice());
            proof {
                assert(rec@ =~= record_bytes(now, cypher@, signature@));
            }
            match state.push_record(chat_id, rec) {
                Ok(_) => Ok(None),
                Err(e) => Err(e),
            }
        },
        Request::Fetch { chat_id } => {
            let (n, first, msgs) = state.fetch_room(chat_id, DEFAULT_FETCH_AMOUNT);
            proof {
                let res = fetch_spec(state.room_log(chat_id@), DEFAULT_FETCH_AMOUNT);
                assert(msgs@.map_values(|m: Vec<u8>| m@) =~= res.2);
            }
            match response_packet(chat_id, first, true, n, &msgs) {
                Ok(buf) => Ok(Some(buf)),
                Err(e) => Err(e),
            }
        },
        Request::Query { chat_id, msg_id, count, forward } => {
            let (n, first, msgs) = state.query_room(chat_id, *msg_id, *count, *forward);
            proof {
                let res = query_spec(state.room_log(chat_id@), *msg_id, *count, *forward);
                assert(msgs@.map_values(|m: Vec<u8>| m@) =~= res.2);
            }
            match response_packet(chat_id, first, *forward, n, &msgs) {
                Ok(buf) => Ok(Some(buf)),
                Err(e) => Err(e),
            }
        },
    }
}

} // verus!
