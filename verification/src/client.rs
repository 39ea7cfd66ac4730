//! Client-side logic: decoding one received record into a message, building
//! an outgoing cypher block, parsing response heads, and the window
//! reconciler that turns overlapping result batches into a gap-free view.

use vstd::prelude::*;
use crate::{
    Error, CHAT_ID_SIZE, CYPHER_CHAT_KEY_SIZE, CYPHER_PAD_MSG_SIZE, CYPHER_SIZE, HASH_SIZE,
    HED_OUT_SIZE, MAX_FETCH_AMOUNT, MSG_OUT_SIZE, SIGNATURE_SIZE, TIME_SIZE, VERIFY_TOLERANCE_MS,
};
use crate::crypt::{aes_ctr_of, apply, ed25519_verify_of, hash, random_pad_byte, sha3_of, verify};
use crate::wire::{
    be64_seq, bytes_eq, sub_bytes, tag_seq, u24_from_be, u24_from_be_seq, u64_from_be,
    u64_from_be_seq, u64_to_be, Tag,
};

verus! {

// ---------------------------------------------------------------------------
// UTF-8 validation
// ---------------------------------------------------------------------------

/// A UTF-8 continuation byte.
pub open spec fn is_cont_byte(b: u8) -> bool {
    0x80 <= b <= 0xBF
}

/// Whether a byte string is well-formed UTF-8 (RFC 3629: no overlong forms,
/// no surrogates, nothing above U+10FFFF).
pub open spec fn utf8_ok(s: Seq<u8>) -> bool
    decreases s.len(),
{
    if s.len() == 0 {
        true
    } else {
        let b0 = s[0];
        if b0 < 0x80 {
            utf8_ok(s.skip(1))
        } else if 0xC2 <= b0 && b0 <= 0xDF {
            s.len() >= 2 && is_cont_byte(s[1]) && utf8_ok(s.skip(2))
        } else if b0 == 0xE0 {
            s.len() >= 3 && 0xA0 <= s[1] && s[1] <= 0xBF && is_cont_byte(s[2]) && utf8_ok(
                s.skip(3),
            )
        } else if b0 == 0xED {
            s.len() >= 3 && 0x80 <= s[1] && s[1] <= 0x9F && is_cont_byte(s[2]) && utf8_ok(
                s.skip(3),
            )
        } else if 0xE1 <= b0 && b0 <= 0xEF {
            s.len() >= 3 && is_cont_byte(s[1]) && is_cont_byte(s[2]) && utf8_ok(s.skip(3))
        } else if b0 == 0xF0 {
            s.len() >= 4 && 0x90 <= s[1] && s[1] <= 0xBF && is_cont_byte(s[2]) && is_cont_byte(
                s[3],
            ) && utf8_ok(s.skip(4))
        } else if b0 == 0xF4 {
            s.len() >= 4 && 0x80 <= s[1] && s[1] <= 0x8F && is_cont_byte(s[2]) && is_cont_byte(
                s[3],
            ) && utf8_ok(s.skip(4))
        } else if 0xF1 <= b0 && b0 <= 0xF3 {
            s.len() >= 4 && is_cont_byte(s[1]) && is_cont_byte(s[2]) && is_cont_byte(s[3])
                && utf8_ok(s.skip(4))
        } else {
            false
        }
    }
}

/// Check whether `s` holds well-formed UTF-8.
pub fn validate_utf8(s: &Vec<u8>) -> (r: bool)
    ensures
        r == utf8_ok(s@),
{
    let n = s.len();
    let mut i: usize = 0;
    proof {
        assert(s@.skip(0) =~= s@);
    }
    while i < n
        invariant
            i <= n,
            n == s@.len(),
            utf8_ok(s@) == utf8_ok(s@.skip(i as int)),
        decreases n - i,
    {
        let ghost t = s@.skip(i as int);
        proof {
            assert(t.len() == n - i);
            assert forall|k: int| 0 <= k < t.len() implies t[k] == s@[i + k] by {}
        }
        let b0 = s[i];
        let step: usize;
        if b0 < 0x80 {
            step = 1;
        } else if 0xC2 <= b0 && b0 <= 0xDF {
            if n - i < 2 || !(0x80 <= s[i + 1] && s[i + 1] <= 0xBF) {
                proof {
                    assert(!utf8_ok(t));
                }
                return false;
            }
            step = 2;
        } else if b0 == 0xE0 {
            if n - i < 3 || !(0xA0 <= s[i + 1] && s[i + 1] <= 0xBF) || !(0x80 <= s[i + 2]
                && s[i + 2] <= 0xBF) {
                proof {
                    assert(!utf8_ok(t));
                }
                return false;
            }
            step = 3;
        } else if b0 == 0xED {
            if n - i < 3 || !(0x80 <= s[i + 1] && s[i + 1] <= 0x9F) || !(0x80 <= s[i + 2]
                && s[i + 2] <= 0xBF) {
                proof {
                    assert(!utf8_ok(t));
                }
                return false;
            }
            step = 3;
        } else if 0xE1 <= b0 && b0 <= 0xEF {
            if n - i < 3 || !(0x80 <= s[i + 1] && s[i + 1] <= 0xBF) || !(0x80 <= s[i + 2]
                && s[i + 2] <= 0xBF) {
                proof {
                    assert(!utf8_ok(t));
                }
                return false;
            }
            step = 3;
        } else if b0 == 0xF0 {
            if n - i < 4 || !(0x90 <= s[i + 1] && s[i + 1] <= 0xBF) || !(0x80 <= s[i + 2]
                && s[i + 2] <= 0xBF) || !(0x80 <= s[i + 3] && s[i + 3] <= 0xBF) {
                proof {
                    assert(!utf8_ok(t));
                }
                return false;
            }
            step = 4;
        } else if b0 == 0xF4 {
            if n - i < 4 || !(0x80 <= s[i + 1] && s[i + 1] <= 0x8F) || !(0x80 <= s[i + 2]
                && s[i + 2] <= 0xBF) || !(0x80 <= s[i + 3] && s[i + 3] <= 0xBF) {
                proof {
                    assert(!utf8_ok(t));
                }
                return false;
            }
            step = 4;
        } else if 0xF1 <= b0 && b0 <= 0xF3 {
            if n - i < 4 || !(0x80 <= s[i + 1] && s[i + 1] <= 0xBF) || !(0x80 <= s[i + 2]
                && s[i + 2] <= 0xBF) || !(0x80 <= s[i + 3] && s[i + 3] <= 0xBF) {
                proof {
                    assert(!utf8_ok(t));
                }
                return false;
            }
            step = 4;
        } else {
            proof {
                assert(!utf8_ok(t));
            }
            return false;
        }
        proof {
            assert(t.skip(step as int) =~= s@.skip(i + step));
            assert(utf8_ok(t) == utf8_ok(t.skip(step as int)));
        }
        i = i + step;
    }
    proof {
        assert(s@.skip(n as int) =~= Seq::<u8>::empty());
    }
    true
}

// ---------------------------------------------------------------------------
// Pad indicator search
// ---------------------------------------------------------------------------

/// The index of the last occurrence of `b` in `s`, or -1 if there is none.
pub open spec fn last_index_of(s: Seq<u8>, b: u8) -> int
    decreases s.len(),
{
    if s.len() == 0 {
        -1
    } else if s[s.len() - 1] == b {
        s.len() - 1
    } else {
        last_index_of(s.drop_last(), b)
    }
}

/// Find the last occurrence of `b` in `s`.
pub fn rposition_byte(s: &Vec<u8>, b: u8) -> (r: Option<usize>)
    ensures
        match r {
            Some(i) => i < s@.len() && i == last_index_of(s@, b),
            None => last_index_of(s@, b) == -1,
        },
{
    let mut i: usize = s.len();
    proof {
        assert(s@.take(s@.len() as int) =~= s@);
    }
    while i > 0
        invariant
            i <= s@.len(),
            last_index_of(s@, b) == last_index_of(s@.take(i as int), b),
        decreases i,
    {
        let j = i - 1;
        let ghost cur = s@.take(i as int);
        proof {
            assert(cur.len() == i);
            assert(cur[i - 1] == s@[j as int]);
        }
        if s[j] == b {
            return Some(j);
        }
        proof {
            assert(cur.drop_last() =~= s@.take(j as int));
        }
        i = j;
    }
    proof {
        assert(s@.take(0) =~= Seq::<u8>::empty());
    }
    None
}

// ---------------------------------------------------------------------------
// Cypher block offsets
// ---------------------------------------------------------------------------

/// Where the client timestamp starts inside a decrypted cypher block.
pub const CYPHER_TIME_START: usize = CYPHER_CHAT_KEY_SIZE;

/// Where the sender's public key starts inside a decrypted cypher block.
pub const CYPHER_PUB_KEY_START: usize = CYPHER_CHAT_KEY_SIZE + TIME_SIZE;

/// Where the padded plaintext starts inside a decrypted cypher block.
pub const CYPHER_PAD_MSG_START: usize = CYPHER_CHAT_KEY_SIZE + TIME_SIZE + HASH_SIZE;

// ---------------------------------------------------------------------------
// Decoding one record
// ---------------------------------------------------------------------------

/// The decoded content of one stored record, as the client holds it.
#[derive(Debug)]
pub struct Message {
    /// Server receive time, milliseconds since the epoch.
    pub server_time: u64,
    /// Sender's clock at encoding time, from inside the cypher.
    pub client_time: u64,
    /// The sender's 32-byte public key.
    pub pub_key: Vec<u8>,
    /// The plaintext bytes, well-formed UTF-8.
    pub text: Vec<u8>,
    /// Whether key prefix, timestamps and signature all checked out.
    pub verified: bool,
}

/// The mathematical content of a decoded message.
pub struct MessageView {
    pub server_time: u64,
    pub client_time: u64,
    pub pub_key: Seq<u8>,
    pub text: Seq<u8>,
    pub verified: bool,
}

impl View for Message {
    type V = MessageView;

    open spec fn view(&self) -> MessageView {
        MessageView {
            server_time: self.server_time,
            client_time: self.client_time,
            pub_key: self.pub_key@,
            text: self.text@,
            verified: self.verified,
        }
    }
}

/// The absolute distance between two timestamps.
pub open spec fn time_diff(a: u64, b: u64) -> int {
    if a >= b {
        a - b
    } else {
        b - a
    }
}

/// What decoding a 512-byte record under a chat key yields, or `None` where
/// decoding fails (no pad indicator, malformed UTF-8, or key or signature
/// bytes that cannot be parsed).
pub open spec fn decode_spec(bytes: Seq<u8>, key: Seq<u8>) -> Option<MessageView> {
    let server_time = u64_from_be_seq(bytes.subrange(0, TIME_SIZE as int));
    let cypher = bytes.subrange(TIME_SIZE as int, (TIME_SIZE + CYPHER_SIZE) as int);
    let signature = bytes.subrange((TIME_SIZE + CYPHER_SIZE) as int, MSG_OUT_SIZE as int);
    let plain = aes_ctr_of(key, cypher);
    let padded = plain.subrange(CYPHER_PAD_MSG_START as int, CYPHER_SIZE as int);
    let pad_at = last_index_of(padded, key[0]);
    if pad_at == -1 {
        None
    } else {
        let text = padded.subrange(0, pad_at);
        if !utf8_ok(text) {
            None
        } else {
            match ed25519_verify_of(sha3_of(cypher), plain.subrange(
                CYPHER_PUB_KEY_START as int,
                CYPHER_PAD_MSG_START as int,
            ), signature) {
                None => None,
                Some(sig_ok) => Some(
                    MessageView {
                        server_time,
                        client_time: u64_from_be_seq(plain.subrange(
                            CYPHER_TIME_START as int,
                            CYPHER_PUB_KEY_START as int,
                        )),
                        pub_key: plain.subrange(
                            CYPHER_PUB_KEY_START as int,
                            CYPHER_PAD_MSG_START as int,
                        ),
                        text,
                        verified: plain.subrange(0, CYPHER_CHAT_KEY_SIZE as int) == key.subrange(
                            0,
                            CYPHER_CHAT_KEY_SIZE as int,
                        ) && time_diff(
                            server_time,
                            u64_from_be_seq(plain.subrange(
                                CYPHER_TIME_START as int,
                                CYPHER_PUB_KEY_START as int,
                            )),
                        ) < VERIFY_TOLERANCE_MS && sig_ok,
                    },
                ),
            }
        }
    }
}

/// Which error decoding a record reports, `None` where decoding succeeds.
pub open spec fn decode_err(bytes: Seq<u8>, key: Seq<u8>) -> Option<Error> {
    let cypher = bytes.subrange(TIME_SIZE as int, (TIME_SIZE + CYPHER_SIZE) as int);
    let signature = bytes.subrange((TIME_SIZE + CYPHER_SIZE) as int, MSG_OUT_SIZE as int);
    let plain = aes_ctr_of(key, cypher);
    let padded = plain.subrange(CYPHER_PAD_MSG_START as int, CYPHER_SIZE as int);
    let pad_at = last_index_of(padded, key[0]);
    if pad_at == -1 {
        Some(Error::PadMissing)
    } else if !utf8_ok(padded.subrange(0, pad_at)) {
        Some(Error::BadUtf8)
    } else if ed25519_verify_of(sha3_of(cypher), plain.subrange(
        CYPHER_PUB_KEY_START as int,
        CYPHER_PAD_MSG_START as int,
    ), signature) is None {
        Some(Error::BadKeyOrSig)
    } else {
        None
    }
}

/// Decoding yields a message exactly when it reports no error.
pub proof fn lemma_decode_total(bytes: Seq<u8>, key: Seq<u8>)
    ensures
        (decode_spec(bytes, key) is None) <==> (decode_err(bytes, key) is Some),
{
}

impl Message {
    /// Decode one received record: split off the server time, hash and
    /// decrypt the cypher, find the pad indicator, check the plaintext and
    /// the signature.
    pub fn new(bytes: &Vec<u8>, chat_key: &Vec<u8>) -> (r: Result<Message, Error>)
        requires
            bytes@.len() == MSG_OUT_SIZE,
            chat_key@.len() == HASH_SIZE,
        ensures
            match r {
                Ok(m) => decode_spec(bytes@, chat_key@) == Some(m@) && decode_err(
                    bytes@,
                    chat_key@,
                ) is None,
                Err(e) => decode_err(bytes@, chat_key@) == Some(e),
            },
    {
        let time_bytes = sub_bytes(bytes, 0, TIME_SIZE);
        let server_time = u64_from_be(&time_bytes);
        let mut cypher = sub_bytes(bytes, TIME_SIZE, TIME_SIZE + CYPHER_SIZE);
        let signature = sub_bytes(bytes, TIME_SIZE + CYPHER_SIZE, MSG_OUT_SIZE);

        // hash before decrypting: the signature covers the ciphertext
        let hashed_cypher = hash(&cypher);
        apply(chat_key, &mut cypher);

        let client_time_bytes = sub_bytes(&cypher, CYPHER_TIME_START, CYPHER_PUB_KEY_START);
        let client_time = u64_from_be(&client_time_bytes);
        let pub_key = sub_bytes(&cypher, CYPHER_PUB_KEY_START, CYPHER_PAD_MSG_START);
        let padded = sub_bytes(&cypher, CYPHER_PAD_MSG_START, CYPHER_SIZE);

        let pad_at = match rposition_byte(&padded, chat_key[0]) {
            Some(i) => i,
            None => {
                return Err(Error::PadMissing);
            },
        };
        let text = sub_bytes(&padded, 0, pad_at);
        if !validate_utf8(&text) {
            return Err(Error::BadUtf8);
        }
        let sig_ok = match verify(&hashed_cypher, &pub_key, &signature) {
            Ok(b) => b,
            Err(e) => {
                return Err(e);
            },
        };
        let prefix = sub_bytes(&cypher, 0, CYPHER_CHAT_KEY_SIZE);
        let key_prefix = sub_bytes(chat_key, 0, CYPHER_CHAT_KEY_SIZE);
        let diff = if server_time >= client_time {
            server_time - client_time
        } else {
            client_time - server_time
        };
        let verified = bytes_eq(&prefix, &key_prefix) && diff < VERIFY_TOLERANCE_MS && sig_ok;
        Ok(Message { server_time, client_time, pub_key, text, verified })
    }
}

// ---------------------------------------------------------------------------
// Encoding one outgoing cypher block
// ---------------------------------------------------------------------------

/// A well-formed plaintext cypher block for `text` sent at `time`: the chat
/// key prefix, the big-endian time, the public key, the text, the pad
/// indicator, and filler that never masquerades as the indicator.
pub open spec fn cypher_plain_wf(
    plain: Seq<u8>,
    key: Seq<u8>,
    time: u64,
    pub_key: Seq<u8>,
    text: Seq<u8>,
) -> bool {
    &&& plain.len() == CYPHER_SIZE
    &&& plain.subrange(0, CYPHER_CHAT_KEY_SIZE as int) == key.subrange(
        0,
        CYPHER_CHAT_KEY_SIZE as int,
    )
    &&& plain.subrange(CYPHER_TIME_START as int, CYPHER_PUB_KEY_START as int) == be64_seq(time)
    &&& plain.subrange(CYPHER_PUB_KEY_START as int, CYPHER_PAD_MSG_START as int) == pub_key
    &&& plain.subrange(
        CYPHER_PAD_MSG_START as int,
        CYPHER_PAD_MSG_START + text.len(),
    ) == text
    &&& plain[CYPHER_PAD_MSG_START + text.len()] == key[0]
    &&& forall|i: int|
        CYPHER_PAD_MSG_START + text.len() < i < CYPHER_SIZE ==> plain[i] != key[0]
}

/// When a byte occurs at `j` and nowhere later, the backward search finds
/// exactly `j`.
proof fn lemma_last_index_of_exact(s: Seq<u8>, b: u8, j: int)
    requires
        0 <= j < s.len(),
        s[j] == b,
        forall|i: int| j < i < s.len() ==> s[i] != b,
    ensures
        last_index_of(s, b) == j,
    decreases s.len(),
{
    if j < s.len() - 1 {
        lemma_last_index_of_exact(s.drop_last(), b, j);
    }
}

/// The pad search undoes the encoder's layout: in a well-formed plaintext
/// block the last occurrence of the indicator is the one the encoder
/// placed, so the text comes back byte for byte.
pub proof fn lemma_plain_pad_found(
    plain: Seq<u8>,
    key: Seq<u8>,
    time: u64,
    pub_key: Seq<u8>,
    text: Seq<u8>,
)
    requires
        cypher_plain_wf(plain, key, time, pub_key, text),
        text.len() < CYPHER_PAD_MSG_SIZE,
    ensures
        last_index_of(plain.subrange(CYPHER_PAD_MSG_START as int, CYPHER_SIZE as int), key[0])
            == text.len(),
        plain.subrange(CYPHER_PAD_MSG_START as int, CYPHER_PAD_MSG_START + text.len()) == text,
{
    let padded = plain.subrange(CYPHER_PAD_MSG_START as int, CYPHER_SIZE as int);
    assert(padded[text.len() as int] == plain[CYPHER_PAD_MSG_START + text.len()]);
    assert forall|i: int| text.len() < i < padded.len() implies padded[i] != key[0] by {
        assert(padded[i] == plain[CYPHER_PAD_MSG_START + i]);
    }
    lemma_last_index_of_exact(padded, key[0], text.len() as int);
}

impl Message {
    /// Build the encrypted cypher block for one outgoing message: lay out
    /// the plaintext block, mark the end of the text with the pad indicator,
    /// fill the rest with bytes that can never be mistaken for it, and
    /// encrypt in place.
    pub fn make_cypher(text: &Vec<u8>, chat_key: &Vec<u8>, pub_key: &Vec<u8>, time: u64) -> (r:
        Result<Vec<u8>, Error>)
        requires
            chat_key@.len() == HASH_SIZE,
            pub_key@.len() == HASH_SIZE,
        ensures
            match r {
                Ok(c) => text@.len() < CYPHER_PAD_MSG_SIZE && (exists|plain: Seq<u8>|
                    c@ == aes_ctr_of(chat_key@, plain) && cypher_plain_wf(
                        plain,
                        chat_key@,
                        time,
                        pub_key@,
                        text@,
                    )),
                Err(e) => e == Error::MsgTooLong && text@.len() >= CYPHER_PAD_MSG_SIZE,
            },
    {
        if text.len() > CYPHER_PAD_MSG_SIZE - 1 {
            return Err(Error::MsgTooLong);
        }
        let mut plain = sub_bytes(chat_key, 0, CYPHER_CHAT_KEY_SIZE);
        let time_bytes = u64_to_be(time);
        plain.extend_from_slice(time_bytes.as_slice());
        plain.extend_from_slice(pub_key.as_slice());
        plain.extend_from_slice(text.as_slice());
        let indicator = chat_key[0];
        plain.push(indicator);
        let ghost marked = plain@;
        proof {
            assert(marked.subrange(0, CYPHER_CHAT_KEY_SIZE as int) =~= chat_key@.subrange(
                0,
                CYPHER_CHAT_KEY_SIZE as int,
            ));
            assert(marked.subrange(CYPHER_TIME_START as int, CYPHER_PUB_KEY_START as int)
                =~= be64_seq(time));
            assert(marked.subrange(CYPHER_PUB_KEY_START as int, CYPHER_PAD_MSG_START as int)
                =~= pub_key@);
            assert(marked.subrange(
                CYPHER_PAD_MSG_START as int,
                CYPHER_PAD_MSG_START + text@.len(),
            ) =~= text@);
            assert(marked[CYPHER_PAD_MSG_START + text@.len()] == chat_key@[0]);
        }
        while plain.len() < CYPHER_SIZE
            invariant
                marked.len() <= plain@.len() <= CYPHER_SIZE,
                marked.len() == CYPHER_PAD_MSG_START + text@.len() + 1,
                indicator == chat_key@[0],
                plain@.subrange(0, marked.len() as int) == marked,
                forall|i: int| marked.len() <= i < plain@.len() ==> plain@[i] != indicator,
            decreases CYPHER_SIZE - plain@.len(),
        {
            let d = random_pad_byte();
            let filler = d.wrapping_add(indicator);
            plain.push(filler);
            proof {
                assert(plain@.subrange(0, marked.len() as int) =~= marked);
            }
        }
        let ghost snap = plain@;
        proof {
            assert(snap.subrange(0, CYPHER_CHAT_KEY_SIZE as int) =~= marked.subrange(
                0,
                CYPHER_CHAT_KEY_SIZE as int,
            ));
            assert(snap.subrange(CYPHER_TIME_START as int, CYPHER_PUB_KEY_START as int)
                =~= marked.subrange(CYPHER_TIME_START as int, CYPHER_PUB_KEY_START as int));
            assert(snap.subrange(CYPHER_PUB_KEY_START as int, CYPHER_PAD_MSG_START as int)
                =~= marked.subrange(CYPHER_PUB_KEY_START as int, CYPHER_PAD_MSG_START as int));
            assert(snap.subrange(
                CYPHER_PAD_MSG_START as int,
                CYPHER_PAD_MSG_START + text@.len(),
            ) =~= marked.subrange(
                CYPHER_PAD_MSG_START as int,
                CYPHER_PAD_MSG_START + text@.len(),
            ));
            assert(snap[CYPHER_PAD_MSG_START + text@.len()]
                == marked[CYPHER_PAD_MSG_START + text@.len()]);
            assert(cypher_plain_wf(snap, chat_key@, time, pub_key@, text@));
        }
        apply(chat_key, &mut plain);
        proof {
            assert(plain@ == aes_ctr_of(chat_key@, snap) && cypher_plain_wf(
                snap,
                chat_key@,
                time,
                pub_key@,
                text@,
            ));
        }
        Ok(plain)
    }
}

// ---------------------------------------------------------------------------
// Response heads
// ---------------------------------------------------------------------------

/// Parse the 8-byte head of a batch response into
/// (chat id byte, first message id, count, forward flag).
pub fn parse_header(header: &Vec<u8>) -> (r: Result<(u8, u32, u8, bool), Error>)
    requires
        header@.len() == HED_OUT_SIZE,
    ensures
        match r {
            Ok(t) => {
                &&& header@.subrange(0, 3) == tag_seq(Tag::Msg)
                &&& t.0 == header@[3]
                &&& t.1 == u24_from_be_seq(header@.subrange(4, 7))
                &&& t.1 <= 0xffffff
                &&& t.2 == header@[7] & 0x7f
                &&& t.2 <= 127
                &&& t.3 == (header@[7] & 0x80 > 0)
            },
            Err(e) => e == Error::BadHeadTag && header@.subrange(0, 3) != tag_seq(Tag::Msg),
        },
{
    let pad = sub_bytes(header, 0, 3);
    let msg_tag = crate::wire::tag_bytes(Tag::Msg);
    if !bytes_eq(&pad, &msg_tag) {
        return Err(Error::BadHeadTag);
    }
    let id_bytes = sub_bytes(header, 4, 7);
    let id = u24_from_be(&id_bytes);
    let count_byte = header[7];
    proof {
        let b = header@[7];
        assert(b & 0x7f <= 127) by (bit_vector);
    }
    Ok((header[3], id, count_byte & 0x7f, count_byte & 0x80 > 0))
}

// ---------------------------------------------------------------------------
// The client window
// ---------------------------------------------------------------------------

/// What one queue slot holds at the spec level; `None` is a record whose
/// decode failed, kept so ids and queue positions stay aligned.
pub open spec fn entry_view(e: Option<Message>) -> Option<MessageView> {
    match e {
        Some(m) => Some(m@),
        None => None,
    }
}

/// The client's contiguous view of one room: the decoded records for the
/// inclusive id range `[min_id, max_id]`. `min_id > max_id` means nothing
/// has been fetched yet.
pub struct ClientWindow {
    /// One slot per id in `[min_id, max_id]`, in id order.
    pub queue: Vec<Option<Message>>,
    /// The room key; decodes every record of this room.
    pub chat_key: Vec<u8>,
    /// The room id; its first byte is the wire token.
    pub chat_id: Vec<u8>,
    /// Lowest id held.
    pub min_id: u32,
    /// Highest id held, inclusive.
    pub max_id: u32,
}

impl ClientWindow {
    /// The queue's contents at the spec level.
    pub open spec fn msgs(&self) -> Seq<Option<MessageView>> {
        self.queue@.map_values(|e: Option<Message>| entry_view(e))
    }

    /// Nothing fetched yet.
    pub open spec fn uninitialized(&self) -> bool {
        self.min_id > self.max_id
    }

    /// Key and id have hash length, and the queue holds exactly one slot
    /// per id in the window.
    pub open spec fn wf(&self) -> bool {
        &&& self.chat_key@.len() == HASH_SIZE
        &&& self.chat_id@.len() == CHAT_ID_SIZE
        &&& (self.min_id <= self.max_id ==> self.queue@.len() == self.max_id - self.min_id + 1)
        &&& (self.min_id > self.max_id ==> self.queue@.len() == 0)
    }

    /// A fresh window: empty, uninitialized.
    pub fn new(chat_key: Vec<u8>, chat_id: Vec<u8>) -> (r: Self)
        requires
            chat_key@.len() == HASH_SIZE,
            chat_id@.len() == CHAT_ID_SIZE,
        ensures
            r.wf(),
            r.uninitialized(),
            r.msgs().len() == 0,
            r.chat_key@ == chat_key@,
            r.chat_id@ == chat_id@,
    {
        ClientWindow { queue: Vec::new(), chat_key, chat_id, min_id: 1, max_id: 0 }
    }
}

/// The conditions under which a received batch is dropped without touching
/// the window: wrong room token, an empty batch, or — once the window is
/// initialized — a gap ahead or behind, a batch already fully held, a batch
/// straddling the window on both sides, a forward batch that ends at or
/// below the window's top, or a backward batch that starts at or above its
/// bottom.
pub open spec fn batch_ignored(
    w: ClientWindow,
    chat_byte: u8,
    first_id: u32,
    count: u8,
    forward: bool,
) -> bool {
    let last = first_id + count - 1;
    ||| chat_byte != w.chat_id@[0]
    ||| count == 0
    ||| (w.min_id <= w.max_id && {
        ||| w.max_id + 1 < first_id
        ||| w.min_id > last + 1
        ||| (w.min_id <= first_id && last <= w.max_id)
        ||| (first_id < w.min_id && w.max_id < last)
        ||| (forward && last <= w.max_id)
        ||| (!forward && first_id >= w.min_id)
    })
}

/// Decode one record into a queue slot; a failed decode becomes `None`.
fn decode_entry(bytes: &Vec<u8>, key: &Vec<u8>) -> (r: Option<Message>)
    requires
        bytes@.len() == MSG_OUT_SIZE,
        key@.len() == HASH_SIZE,
    ensures
        entry_view(r) == decode_spec(bytes@, key@),
{
    match Message::new(bytes, key) {
        Ok(m) => Some(m),
        Err(_) => None,
    }
}

impl ClientWindow {
    /// Reconcile one received batch with the window.
    ///
    /// The first accepted batch becomes the baseline. Later forward batches
    /// append the records beyond `max_id`; later backward batches prepend
    /// the records below `min_id`. Anything gapped, stale, redundant or
    /// ambiguous is dropped whole. A record whose decode fails occupies its
    /// slot as `None`, so the id bookkeeping never drifts.
    pub fn apply_batch(
        &mut self,
        chat_byte: u8,
        first_id: u32,
        count: u8,
        forward: bool,
        records: &Vec<Vec<u8>>,
    ) -> (applied: bool)
        requires
            old(self).wf(),
            records@.len() == count,
            forall|i: int|
                0 <= i < records@.len() ==> (#[trigger] records@[i])@.len() == MSG_OUT_SIZE,
            first_id + count <= 0x1_0000_0000,
        ensures
            final(self).wf(),
            final(self).chat_key == old(self).chat_key,
            final(self).chat_id == old(self).chat_id,
            applied == !batch_ignored(*old(self), chat_byte, first_id, count, forward),
            !applied ==> *final(self) == *old(self),
            (applied && old(self).uninitialized()) ==> {
                &&& final(self).min_id == first_id
                &&& final(self).max_id == first_id + count - 1
                &&& final(self).msgs().len() == count
                &&& forall|i: int|
                    0 <= i < count ==> final(self).msgs()[i] == decode_spec(
                        records@[i]@,
                        old(self).chat_key@,
                    )
            },
            (applied && !old(self).uninitialized() && forward) ==> ({
                let skip = if first_id <= old(self).max_id {
                    old(self).max_id - first_id + 1
                } else {
                    0int
                };
                &&& final(self).min_id == old(self).min_id
                &&& final(self).max_id == first_id + count - 1
                &&& final(self).msgs().len() == old(self).msgs().len() + count - skip
                &&& forall|i: int|
                    0 <= i < old(self).msgs().len()
                        ==> final(self).msgs()[i] == old(self).msgs()[i]
                &&& forall|i: int|
                    old(self).msgs().len() <= i < final(self).msgs().len()
                        ==> final(self).msgs()[i] == decode_spec(
                        records@[skip + i - old(self).msgs().len()]@,
                        old(self).chat_key@,
                    )
            }),
            (applied && !old(self).uninitialized() && !forward) ==> ({
                let n = old(self).min_id - first_id;
                &&& final(self).min_id == first_id
                &&& final(self).max_id == old(self).max_id
                &&& final(self).msgs().len() == old(self).msgs().len() + n
                &&& forall|i: int|
                    0 <= i < n ==> final(self).msgs()[i] == decode_spec(
                        records@[i]@,
                        old(self).chat_key@,
                    )
                &&& forall|i: int|
                    n <= i < final(self).msgs().len()
                        ==> final(self).msgs()[i] == old(self).msgs()[i - n]
            }),
    {
        let ghost pre = *self;
        if chat_byte != self.chat_id[0] || count == 0 {
            return false;
        }
        let last: u32 = (((first_id as u64) + (count as u64)) - 1) as u32;
        if self.min_id > self.max_id {
            // the very first accepted batch is the baseline; no continuity
            // check applies to it
            let mut q: Vec<Option<Message>> = Vec::new();
            let mut i: usize = 0;
            while i < records.len()
                invariant
                    i <= records@.len(),
                    q@.len() == i,
                    *self == pre,
                    pre.wf(),
                    records@.len() == count,
                    forall|k: int|
                        0 <= k < records@.len() ==> (#[trigger] records@[k])@.len()
                            == MSG_OUT_SIZE,
                    forall|k: int|
                        0 <= k < i ==> entry_view(#[trigger] q@[k]) == decode_spec(
                            records@[k]@,
                            pre.chat_key@,
                        ),
                decreases records@.len() - i,
            {
                let e = decode_entry(&records[i], &self.chat_key);
                q.push(e);
                i = i + 1;
            }
            self.queue = q;
            self.min_id = first_id;
            self.max_id = last;
            return true;
        }
        if self.max_id as u64 + 1 < first_id as u64 || self.min_id as u64 > last as u64 + 1 || (
        self.min_id <= first_id && last <= self.max_id) || (first_id < self.min_id
            && self.max_id < last) {
            return false;
        }
        if forward {
            if last > self.max_id {
                let skip: u32 = if first_id <= self.max_id {
                    self.max_id - first_id + 1
                } else {
                    0
                };
                let ghost pre_len = self.queue@.len();
                let mut i: usize = skip as usize;
                while i < records.len()
                    invariant
                        skip <= i <= records@.len(),
                        self.queue@.len() == pre_len + i - skip,
                        self.chat_key == pre.chat_key,
                        self.chat_id == pre.chat_id,
                        self.min_id == pre.min_id,
                        self.max_id == pre.max_id,
                        pre_len == pre.queue@.len(),
                        pre.chat_key@.len() == HASH_SIZE,
                        records@.len() == count,
                        forall|k: int|
                            0 <= k < records@.len() ==> (#[trigger] records@[k])@.len()
                                == MSG_OUT_SIZE,
                        forall|k: int|
                            0 <= k < pre_len ==> self.queue@[k] == pre.queue@[k],
                        forall|k: int|
                            pre_len <= k < self.queue@.len() ==> entry_view(
                                #[trigger] self.queue@[k],
                            ) == decode_spec(records@[skip + k - pre_len]@, pre.chat_key@),
                    decreases records@.len() - i,
                {
                    let e = decode_entry(&records[i], &self.chat_key);
                    self.queue.push(e);
                    i = i + 1;
                }
                self.max_id = last;
                return true;
            } else {
                return false;
            }
        } else {
            if first_id < self.min_id {
                let n: u32 = self.min_id - first_id;
                let mut q: Vec<Option<Message>> = Vec::new();
                let mut i: usize = 0;
                while i < n as usize
                    invariant
                        i <= n,
                        n <= records@.len(),
                        q@.len() == i,
                        *self == pre,
                        records@.len() == count,
                        pre.chat_key@.len() == HASH_SIZE,
                        forall|k: int|
                            0 <= k < records@.len() ==> (#[trigger] records@[k])@.len()
                                == MSG_OUT_SIZE,
                        forall|k: int|
                            0 <= k < i ==> entry_view(#[trigger] q@[k]) == decode_spec(
                                records@[k]@,
                                pre.chat_key@,
                            ),
                    decreases n - i,
                {
                    let e = decode_entry(&records[i], &self.chat_key);
                    q.push(e);
                    i = i + 1;
                }
                let ghost prefix = q@;
                q.append(&mut self.queue);
                proof {
                    assert(q@ == prefix + pre.queue@);
                }
                self.queue = q;
                self.min_id = first_id;
                return true;
            } else {
                return false;
            }
        }
    }
}

// ---------------------------------------------------------------------------
// The requester's decision
// ---------------------------------------------------------------------------

/// What the requester thread sends next.
#[derive(Clone, Copy, PartialEq, Eq, Structural, Debug)]
pub enum ClientRequest {
    /// Ask for the newest records of the room.
    Fetch,
    /// Page from a cursor id.
    Query { id: u32, count: u8, forward: bool },
}

impl ClientWindow {
    /// Fetch until the window holds something, then page forward from the
    /// window's top.
    pub fn next_request(&self) -> (r: ClientRequest)
        ensures
            self.queue@.len() == 0 ==> r == ClientRequest::Fetch,
            self.queue@.len() > 0 ==> r == (ClientRequest::Query {
                id: self.max_id,
                count: MAX_FETCH_AMOUNT,
                forward: true,
            }),
    {
        if self.queue.is_empty() {
            ClientRequest::Fetch
        } else {
            ClientRequest::Query { id: self.max_id, count: MAX_FETCH_AMOUNT, forward: true }
        }
    }
}

} // verus!
