//! The storage engine: an append-only per-room log of fixed-size records
//! with cursor-based pagination, and the server's room table.

use vstd::prelude::*;
use crate::{Error, MAX_FETCH_AMOUNT, MSG_ST_SIZE, CHAT_ID_SIZE};
use crate::wire::{bytes_eq, clone_bytes};

verus! {

/// Records carry 32-bit ids, so a log never holds more than this many.
pub const MAX_LOG_LEN: u32 = 0xffff_ffff;

/// One room's append-only message log. A record's id is its position.
pub struct ChatLog {
    records: Vec<Vec<u8>>,
}

impl View for ChatLog {
    type V = Seq<Seq<u8>>;

    closed spec fn view(&self) -> Seq<Seq<u8>> {
        Seq::new(self.records@.len(), |i: int| self.records@[i]@)
    }
}

/// What `fetch` returns over the log's contents: the number of records
/// handed back, the id of the first of them, and the records themselves —
/// the last `count` records, or all of them if the log holds fewer.
pub open spec fn fetch_spec(log: Seq<Seq<u8>>, count: u8) -> (int, int, Seq<Seq<u8>>) {
    let n = if count as int <= log.len() {
        count as int
    } else {
        log.len() as int
    };
    (n, log.len() - n, log.subrange(log.len() - n, log.len() as int))
}

/// What `query` returns over the log's contents. The cursor `id` is
/// exclusive: the record with that id itself never travels.
pub open spec fn query_spec(log: Seq<Seq<u8>>, id: u32, count: u8, forward: bool) -> (
    int,
    int,
    Seq<Seq<u8>>,
) {
    let clamped = if count > MAX_FETCH_AMOUNT {
        MAX_FETCH_AMOUNT as int
    } else {
        count as int
    };
    if count == 0 || (!forward && id == 0) || id > log.len() || (forward && id + 1
        >= log.len()) {
        (0, 0, Seq::empty())
    } else if forward {
        let n = if clamped <= log.len() - id - 1 {
            clamped
        } else {
            log.len() - id - 1
        };
        (n, id + 1, log.subrange(id + 1, id + 1 + n))
    } else {
        let start = if id >= clamped {
            id - clamped
        } else {
            0
        };
        let n = if id >= clamped {
            clamped
        } else {
            id as int
        };
        (n, start, log.subrange(start, start + n))
    }
}

impl ChatLog {
    /// Every record has the canonical size and ids fit in 32 bits.
    pub open spec fn wf(&self) -> bool {
        &&& self@.len() <= MAX_LOG_LEN
        &&& forall|i: int| 0 <= i < self@.len() ==> (#[trigger] self@[i]).len() == MSG_ST_SIZE
    }

    /// A new room log holds nothing.
    pub fn new() -> (r: Self)
        ensures
            r@ == Seq::<Seq<u8>>::empty(),
            r.wf(),
    {
        let r = ChatLog { records: Vec::new() };
        proof {
            assert(r@ =~= Seq::<Seq<u8>>::empty());
        }
        r
    }

    /// How many records the log holds.
    pub fn len(&self) -> (r: u32)
        requires
            self.wf(),
        ensures
            r == self@.len(),
    {
        self.records.len() as u32
    }

    /// Append one record; it gets the next dense id and is never rewritten.
    pub fn push(&mut self, rec: Vec<u8>)
        requires
            old(self).wf(),
            rec@.len() == MSG_ST_SIZE,
            old(self)@.len() < MAX_LOG_LEN,
        ensures
            final(self)@ == old(self)@.push(rec@),
            final(self).wf(),
    {
        let ghost pre = self@;
        let ghost recv = rec@;
        self.records.push(rec);
        proof {
            assert(self@ =~= pre.push(recv));
        }
    }

    /// Return the last `count` records (or all, if fewer) and the id of the
    /// first returned record.
    pub fn fetch(&self, count: u8) -> (r: (u8, u32, Vec<Vec<u8>>))
        requires
            self.wf(),
        ensures
            r.0 == fetch_spec(self@, count).0,
            r.1 == fetch_spec(self@, count).1,
            r.2@.len() == fetch_spec(self@, count).2.len(),
            forall|j: int|
                0 <= j < r.2@.len() ==> (#[trigger] r.2@[j])@ == fetch_spec(self@, count).2[j],
    {
        let len = self.records.len();
        let n: usize = if (count as usize) <= len {
            count as usize
        } else {
            len
        };
        let first = len - n;
        let mut msgs: Vec<Vec<u8>> = Vec::new();
        let mut j: usize = first;
        while j < len
            invariant
                first <= j <= len,
                len == self@.len(),
                msgs@.len() == j - first,
                forall|k: int|
                    0 <= k < msgs@.len() ==> (#[trigger] msgs@[k])@ == self@[first + k],
            decreases len - j,
        {
            msgs.push(clone_bytes(&self.records[j]));
            j = j + 1;
        }
        (n as u8, first as u32, msgs)
    }

    /// Cursor pagination: up to `count` (clamped to `MAX_FETCH_AMOUNT`)
    /// records strictly after `id` (forward) or strictly before it
    /// (backward), together with the id of the first returned record.
    pub fn query(&self, id: u32, count: u8, forward: bool) -> (r: (u8, u32, Vec<Vec<u8>>))
        requires
            self.wf(),
        ensures
            r.0 == query_spec(self@, id, count, forward).0,
            r.1 == query_spec(self@, id, count, forward).1,
            r.2@.len() == query_spec(self@, id, count, forward).2.len(),
            forall|j: int|
                0 <= j < r.2@.len() ==> (#[trigger] r.2@[j])@ == query_spec(
                    self@,
                    id,
                    count,
                    forward,
                ).2[j],
    {
        let len: u32 = self.records.len() as u32;
        if count == 0 || (!forward && id == 0) || id > len || (forward && (id as u64) + 1
            >= (len as u64)) {
            return (0, 0, Vec::new());
        }
        let clamped: u32 = if count > MAX_FETCH_AMOUNT {
            MAX_FETCH_AMOUNT as u32
        } else {
            count as u32
        };
        let (start, n): (u32, u32) = if forward {
            let avail = len - id - 1;
            (id + 1, if clamped <= avail {
                clamped
            } else {
                avail
            })
        } else {
            if id >= clamped {
                (id - clamped, clamped)
            } else {
                (0, id)
            }
        };
        let mut msgs: Vec<Vec<u8>> = Vec::new();
        let mut j: usize = start as usize;
        let stop: usize = (start + n) as usize;
        while j < stop
            invariant
                start as usize <= j <= stop,
                stop == start + n,
                stop <= self@.len(),
                msgs@.len() == j - start,
                forall|k: int|
                    0 <= k < msgs@.len() ==> (#[trigger] msgs@[k])@ == self@[start + k],
            decreases stop - j,
        {
            msgs.push(clone_bytes(&self.records[j]));
            j = j + 1;
        }
        (n as u8, start, msgs)
    }
}

/// Fetch after push: a log holding `k` records, asked for `n >= k` of them,
/// hands back exactly the `k` records it holds, from id 0.
pub proof fn lemma_fetch_after_push(log: Seq<Seq<u8>>, n: u8)
    requires
        log.len() <= n,
    ensures
        fetch_spec(log, n).0 == log.len(),
        fetch_spec(log, n).1 == 0,
        fetch_spec(log, n).2 == log,
{
    assert(fetch_spec(log, n).2 =~= log);
}

// ---------------------------------------------------------------------------
// The server's room table
// ---------------------------------------------------------------------------

/// One room: its 32-byte chat id and its log.
pub struct Room {
    pub chat_id: Vec<u8>,
    pub log: ChatLog,
}

/// All rooms the server knows, looked up by chat id.
pub struct ServerState {
    rooms: Vec<Room>,
}

/// The index of the room with this chat id, or -1 if there is none.
pub open spec fn room_index(rooms: Seq<Room>, chat_id: Seq<u8>) -> int
    decreases rooms.len(),
{
    if rooms.len() == 0 {
        -1
    } else if rooms[0].chat_id@ == chat_id {
        0
    } else {
        let rest = room_index(rooms.skip(1), chat_id);
        if rest == -1 {
            -1
        } else {
            rest + 1
        }
    }
}

impl ServerState {
    /// The rooms the server holds, in creation order.
    pub closed spec fn rooms_seq(&self) -> Seq<Room> {
        self.rooms@
    }

    /// Chat ids are 32 bytes, logs are well-formed, and no id repeats.
    pub open spec fn wf(&self) -> bool {
        &&& forall|i: int|
            0 <= i < self.rooms_seq().len() ==> (#[trigger] self.rooms_seq()[i]).chat_id@.len()
                == CHAT_ID_SIZE
        &&& forall|i: int|
            0 <= i < self.rooms_seq().len() ==> (#[trigger] self.rooms_seq()[i]).log.wf()
        &&& forall|i: int, j: int|
            0 <= i < j < self.rooms_seq().len() ==> self.rooms_seq()[i].chat_id@
                != self.rooms_seq()[j].chat_id@
    }

    /// The log contents of a room; a room nobody wrote to yet is empty.
    pub open spec fn room_log(&self, chat_id: Seq<u8>) -> Seq<Seq<u8>> {
        let i = room_index(self.rooms_seq(), chat_id);
        if i == -1 {
            Seq::empty()
        } else {
            self.rooms_seq()[i].log@
        }
    }

    /// A server starts with no rooms.
    pub fn new() -> (r: Self)
        ensures
            r.wf(),
            r.rooms_seq() == Seq::<Room>::empty(),
    {
        let r = ServerState { rooms: Vec::new() };
        proof {
            assert(r.rooms_seq() =~= Seq::<Room>::empty());
        }
        r
    }
}

/// `room_index` stays in bounds and, when it finds something, finds the
/// right room.
pub proof fn lemma_room_index_bounds(s: Seq<Room>, id: Seq<u8>)
    ensures
        -1 <= room_index(s, id) < s.len(),
        room_index(s, id) >= 0 ==> s[room_index(s, id)].chat_id@ == id,
    decreases s.len(),
{
    if s.len() > 0 && s[0].chat_id@ != id {
        lemma_room_index_bounds(s.skip(1), id);
    }
}

/// `room_index` is the first index whose chat id matches.
pub proof fn lemma_room_index_first_match(s: Seq<Room>, id: Seq<u8>, i: int)
    requires
        0 <= i < s.len(),
        s[i].chat_id@ == id,
        forall|k: int| 0 <= k < i ==> s[k].chat_id@ != id,
    ensures
        room_index(s, id) == i,
    decreases i,
{
    if i > 0 {
        lemma_room_index_first_match(s.skip(1), id, i - 1);
    }
}

/// Where no chat id matches, `room_index` finds nothing.
pub proof fn lemma_room_index_none(s: Seq<Room>, id: Seq<u8>)
    requires
        forall|k: int| 0 <= k < s.len() ==> s[k].chat_id@ != id,
    ensures
        room_index(s, id) == -1,
    decreases s.len(),
{
    if s.len() > 0 {
        lemma_room_index_none(s.skip(1), id);
    }
}

/// When `room_index` finds nothing, no chat id matches.
pub proof fn lemma_room_index_missing(s: Seq<Room>, id: Seq<u8>)
    requires
        room_index(s, id) == -1,
    ensures
        forall|k: int| 0 <= k < s.len() ==> (#[trigger] s[k]).chat_id@ != id,
    decreases s.len(),
{
    if s.len() > 0 {
        assert(s[0].chat_id@ != id);
        assert(room_index(s.skip(1), id) == -1) by {
            lemma_room_index_bounds(s.skip(1), id);
            if room_index(s.skip(1), id) != -1 {
                assert(room_index(s, id) == room_index(s.skip(1), id) + 1);
            }
        }
        lemma_room_index_missing(s.skip(1), id);
        assert forall|k: int| 0 <= k < s.len() implies (#[trigger] s[k]).chat_id@ != id by {
            if k > 0 {
                assert(s.skip(1)[k - 1] == s[k]);
            }
        }
    }
}

/// `room_index` only looks at chat ids: two room tables with the same ids
/// in the same order agree on every lookup.
pub proof fn lemma_room_index_same_ids(a: Seq<Room>, b: Seq<Room>, id: Seq<u8>)
    requires
        a.len() == b.len(),
        forall|i: int| 0 <= i < a.len() ==> a[i].chat_id@ == b[i].chat_id@,
    ensures
        room_index(a, id) == room_index(b, id),
    decreases a.len(),
{
    if a.len() > 0 {
        assert(a[0].chat_id@ == b[0].chat_id@);
        assert forall|i: int| 0 <= i < a.skip(1).len() implies a.skip(1)[i].chat_id@ == b.skip(
            1,
        )[i].chat_id@ by {
            assert(a.skip(1)[i] == a[i + 1]);
            assert(b.skip(1)[i] == b[i + 1]);
        }
        lemma_room_index_same_ids(a.skip(1), b.skip(1), id);
    }
}

impl ServerState {
    /// Find the room with this chat id.
    fn find_room(&self, chat_id: &Vec<u8>) -> (r: Option<usize>)
        ensures
            match r {
                Some(i) => i < self.rooms_seq().len() && i == room_index(
                    self.rooms_seq(),
                    chat_id@,
                ),
                None => room_index(self.rooms_seq(), chat_id@) == -1,
            },
    {
        let mut i: usize = 0;
        while i < self.rooms.len()
            invariant
                i <= self.rooms@.len(),
                forall|k: int| 0 <= k < i ==> (#[trigger] self.rooms@[k]).chat_id@ != chat_id@,
            decreases self.rooms@.len() - i,
        {
            if bytes_eq(&self.rooms[i].chat_id, chat_id) {
                proof {
                    lemma_room_index_first_match(self.rooms_seq(), chat_id@, i as int);
                }
                return Some(i);
            }
            i = i + 1;
        }
        proof {
            lemma_room_index_none(self.rooms_seq(), chat_id@);
        }
        None
    }

    /// Append a record to the room's log, creating the room on first use.
    /// Fails only when the room already holds as many records as 32-bit ids
    /// can name.
    pub fn push_record(&mut self, chat_id: &Vec<u8>, rec: Vec<u8>) -> (r: Result<(), Error>)
        requires
            old(self).wf(),
            chat_id@.len() == CHAT_ID_SIZE,
            rec@.len() == MSG_ST_SIZE,
        ensures
            final(self).wf(),
            match r {
                Ok(u) => {
                    &&& old(self).room_log(chat_id@).len() < MAX_LOG_LEN
                    &&& final(self).room_log(chat_id@) == old(self).room_log(chat_id@).push(
                        rec@,
                    )
                    &&& forall|other: Seq<u8>|
                        other != chat_id@
                            ==> final(self).room_log(other) == old(self).room_log(other)
                },
                Err(e) => {
                    &&& e == Error::StorageFull
                    &&& old(self).room_log(chat_id@).len() == MAX_LOG_LEN
                    &&& *final(self) == *old(self)
                },
            },
    {
        let ghost pre = self.rooms@;
        match self.find_room(chat_id) {
            Some(i) => {
                if self.rooms[i].log.len() == MAX_LOG_LEN {
                    return Err(Error::StorageFull);
                }
                let ghost prelog = self.rooms@[i as int].log@;
                let room = &mut self.rooms[i];
                room.log.push(rec);
                proof {
                    let post = self.rooms@;
                    assert(post.len() == pre.len());
                    assert(post[i as int].log@ == prelog.push(rec@));
                    assert(post[i as int].chat_id@ == pre[i as int].chat_id@);
                    assert forall|k: int| 0 <= k < pre.len() && k != i implies post[k]
                        == pre[k] by {}
                    assert forall|k: int| 0 <= k < pre.len() implies (#[trigger] post[k]).chat_id@
                        == pre[k].chat_id@ by {}
                    assert forall|other: Seq<u8>| true implies #[trigger] room_index(post, other)
                        == room_index(pre, other) by {
                        lemma_room_index_same_ids(post, pre, other);
                    }
                    lemma_room_index_bounds(pre, chat_id@);
                    assert(self.room_log(chat_id@) == prelog.push(rec@));
                    assert(old(self).room_log(chat_id@) == prelog);
                    assert forall|other: Seq<u8>| other != chat_id@ implies self.room_log(other)
                        == old(self).room_log(other) by {
                        lemma_room_index_bounds(pre, other);
                        if room_index(pre, other) >= 0 {
                            assert(room_index(pre, other) != i);
                        }
                    }
                    assert(self.wf());
                }
                Ok(())
            },
            None => {
                let mut log = ChatLog::new();
                log.push(rec);
                let room = Room { chat_id: clone_bytes(chat_id), log };
                self.rooms.push(room);
                proof {
                    let post = self.rooms@;
                    assert(post =~= pre.push(post[pre.len() as int]));
                    assert(post[pre.len() as int].chat_id@ == chat_id@);
                    assert forall|other: Seq<u8>| true implies #[trigger] room_index(
                        post,
                        other,
                    ) == if room_index(pre, other) >= 0 {
                        room_index(pre, other)
                    } else if other == chat_id@ {
                        pre.len() as int
                    } else {
                        -1
                    } by {
                        lemma_room_index_bounds(pre, other);
                        if room_index(pre, other) >= 0 {
                            lemma_room_index_first_match(post, other, room_index(pre, other));
                        } else if other == chat_id@ {
                            lemma_room_index_missing(pre, other);
                            lemma_room_index_first_match(post, other, pre.len() as int);
                        } else {
                            lemma_room_index_missing(pre, other);
                            lemma_room_index_none(post, other);
                        }
                    }
                    lemma_room_index_missing(pre, chat_id@);
                    assert forall|k: int| 0 <= k < pre.len() implies post[k] == pre[k] by {}
                    assert(old(self).room_log(chat_id@) =~= Seq::<Seq<u8>>::empty());
                    assert(self.room_log(chat_id@) == post[pre.len() as int].log@);
                    assert(self.room_log(chat_id@) =~= old(self).room_log(chat_id@).push(rec@));
                    assert forall|other: Seq<u8>| other != chat_id@ implies self.room_log(other)
                        == old(self).room_log(other) by {
                        lemma_room_index_bounds(pre, other);
                    }
                    assert(self.wf());
                }
                Ok(())
            },
        }
    }

    /// Fetch from a room's log; a room nobody wrote to yet yields nothing.
    pub fn fetch_room(&self, chat_id: &Vec<u8>, count: u8) -> (r: (u8, u32, Vec<Vec<u8>>))
        requires
            self.wf(),
            chat_id@.len() == CHAT_ID_SIZE,
        ensures
            r.0 == fetch_spec(self.room_log(chat_id@), count).0,
            r.1 == fetch_spec(self.room_log(chat_id@), count).1,
            r.2@.len() == fetch_spec(self.room_log(chat_id@), count).2.len(),
            forall|j: int|
                0 <= j < r.2@.len() ==> (#[trigger] r.2@[j])@ == fetch_spec(
                    self.room_log(chat_id@),
                    count,
                ).2[j],
    {
        match self.find_room(chat_id) {
            Some(i) => self.rooms[i].log.fetch(count),
            None => {
                proof {
                    assert(fetch_spec(self.room_log(chat_id@), count).2 =~= Seq::<
                        Seq<u8>,
                    >::empty());
                }
                (0, 0, Vec::new())
            },
        }
    }

    /// Query a room's log; a room nobody wrote to yet yields nothing.
    pub fn query_room(&self, chat_id: &Vec<u8>, id: u32, count: u8, forward: bool) -> (r: (
        u8,
        u32,
        Vec<Vec<u8>>,
    ))
        requires
            self.wf(),
            chat_id@.len() == CHAT_ID_SIZE,
        ensures
            r.0 == query_spec(self.room_log(chat_id@), id, count, forward).0,
            r.1 == query_spec(self.room_log(chat_id@), id, count, forward).1,
            r.2@.len() == query_spec(self.room_log(chat_id@), id, count, forward).2.len(),
            forall|j: int|
                0 <= j < r.2@.len() ==> (#[trigger] r.2@[j])@ == query_spec(
                    self.room_log(chat_id@),
                    id,
                    count,
                    forward,
                ).2[j],
    {
        match self.find_room(chat_id) {
            Some(i) => self.rooms[i].log.query(id, count, forward),
            None => {
                proof {
                    assert(query_spec(self.room_log(chat_id@), id, count, forward).2 =~= Seq::<
                        Seq<u8>,
                    >::empty());
                }
                (0, 0, Vec::new())
            },
        }
    }
}

} // verus!
