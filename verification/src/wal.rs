//! The write-ahead log: an append-only run of frames, and the replay that
//! rebuilds the index from it.

use vstd::prelude::*;
use crate::codec::{decode, decode_frame, encodable, encode_record, lemma_decode_encoded,
    lemma_decode_prefix, Decoded, Frame, Op, Record};
use crate::index::Index;

verus! {

/// Why a mutation did not happen.
#[derive(Debug, Clone, Copy, PartialEq, Eq, Structural)]
pub enum Error {
    /// The log file did not take the record's frame.
    Io,
}

/// The index after one record: a put overwrites, a delete removes.
pub open spec fn apply(m: Map<Seq<u8>, Seq<u8>>, r: Record) -> Map<Seq<u8>, Seq<u8>> {
    match r {
        Record::Put(k, v) => m.insert(k, v),
        Record::Delete(k) => m.remove(k),
    }
}

/// The index after the records of `ops`, taken from left to right.
pub open spec fn apply_all(m: Map<Seq<u8>, Seq<u8>>, ops: Seq<Record>) -> Map<Seq<u8>, Seq<u8>>
    decreases ops.len(),
{
    if ops.len() == 0 {
        m
    } else {
        apply(apply_all(m, ops.drop_last()), ops.last())
    }
}

/// The frames of `ops`, one after the other.
pub open spec fn encode_all(ops: Seq<Record>) -> Seq<u8>
    decreases ops.len(),
{
    if ops.len() == 0 {
        Seq::empty()
    } else {
        encode_all(ops.drop_last()) + encode_record(ops.last())
    }
}

/// Whether every record of `ops` fits a frame.
pub open spec fn all_encodable(ops: Seq<Record>) -> bool {
    forall|i: int| 0 <= i < ops.len() ==> encodable(#[trigger] ops[i])
}

/// The index that replaying the log `s` over `m` gives: records are applied
/// in the order of the log, up to its end or to the first bytes that are no
/// whole record.
pub open spec fn replay_log(s: Seq<u8>, m: Map<Seq<u8>, Seq<u8>>) -> Map<Seq<u8>, Seq<u8>>
    decreases s.len(),
{
    match decode_frame(s) {
        Frame::Record(r, n) => if 0 < n <= s.len() {
            replay_log(s.skip(n), apply(m, r))
        } else {
            m
        },
        _ => m,
    }
}

/// Whether the log `s` is whole records from its first byte to its last.
pub open spec fn clean_log(s: Seq<u8>) -> bool
    decreases s.len(),
{
    match decode_frame(s) {
        Frame::Record(r, n) => if 0 < n <= s.len() {
            clean_log(s.skip(n))
        } else {
            false
        },
        Frame::EndOfStream => true,
        Frame::Truncated => false,
    }
}

/// Replaying a clean log followed by more bytes is replaying the log, then
/// the bytes; and the whole is clean exactly if the bytes are.
pub proof fn lemma_replay_append(s: Seq<u8>, rest: Seq<u8>, m: Map<Seq<u8>, Seq<u8>>)
    requires
        clean_log(s),
    ensures
        replay_log(s + rest, m) == replay_log(rest, replay_log(s, m)),
        clean_log(s + rest) == clean_log(rest),
    decreases s.len(),
{
    if s.len() == 0 {
        assert(s + rest =~= rest);
    } else {
        let r = decode_frame(s)->Record_0;
        let n = decode_frame(s)->Record_1;
        lemma_decode_prefix(s, rest);
        lemma_replay_append(s.skip(n), rest, apply(m, r));
    }
}

/// Replaying the frame of one record applies that record, and the frame is a
/// clean log.
pub proof fn lemma_replay_record(r: Record, m: Map<Seq<u8>, Seq<u8>>)
    requires
        encodable(r),
    ensures
        replay_log(encode_record(r), m) == apply(m, r),
        clean_log(encode_record(r)),
{
    let f = encode_record(r);
    lemma_decode_encoded(r, Seq::empty());
    assert(f + Seq::<u8>::empty() =~= f);
    assert(f.skip(f.len() as int) =~= Seq::<u8>::empty());
    let e = Seq::<u8>::empty();
    assert(decode_frame(e) == Frame::EndOfStream);
    assert(replay_log(e, apply(m, r)) == apply(m, r));
    assert(clean_log(e));
    assert(decode_frame(f) == Frame::Record(r, f.len() as int));
    assert(replay_log(f, m) == replay_log(f.skip(f.len() as int), apply(m, r)));
    assert(clean_log(f) == clean_log(f.skip(f.len() as int)));
}

/// Replay is determined by the records alone: replaying the frames of any
/// finite run of puts and deletes gives the index that applying them from
/// left to right gives, and such a log is clean.
pub proof fn lemma_replay_encoded(ops: Seq<Record>, m: Map<Seq<u8>, Seq<u8>>)
    requires
        all_encodable(ops),
    ensures
        replay_log(encode_all(ops), m) == apply_all(m, ops),
        clean_log(encode_all(ops)),
    decreases ops.len(),
{
    if ops.len() == 0 {
        assert(decode_frame(Seq::<u8>::empty()) == Frame::EndOfStream);
    } else {
        let init = ops.drop_last();
        lemma_replay_encoded(init, m);
        lemma_replay_append(encode_all(init), encode_record(ops.last()), m);
        lemma_replay_record(ops.last(), apply_all(m, init));
    }
}

/// The log as the store knows it: the bytes it was opened on, followed by the
/// frames of the appends that were reported as written.
pub struct Wal {
    clean: bool,
    image: Ghost<Seq<u8>>,
}

impl Wal {
    /// The bytes of the log.
    pub closed spec fn view(&self) -> Seq<u8> {
        self.image@
    }

    /// Whether replay has found the log to be whole records throughout.
    pub closed spec fn known_clean(&self) -> bool {
        self.clean
    }

    /// A log that is known as clean is clean.
    pub open spec fn wf(&self) -> bool {
        self.known_clean() ==> clean_log(self@)
    }

    /// The log that holds `bytes`, not yet replayed.
    pub fn open(bytes: &[u8]) -> (wal: Self)
        ensures
            wal@ == bytes@,
            !wal.known_clean(),
            wal.wf(),
    {
        Wal { clean: false, image: Ghost(bytes@) }
    }

    /// Whether replay has found the log to be whole records throughout.
    pub fn is_clean(&self) -> (r: bool)
        ensures
            r == self.known_clean(),
    {
        self.clean
    }

    /// Applies the records of the log, whose bytes are `bytes`, to `map` in
    /// the order of the log. Stops at the end of the bytes or at the first
    /// that are no whole record, and keeps which of the two it was.
    pub fn replay(&mut self, bytes: &[u8], map: &mut Index)
        requires
            old(self)@ == bytes@,
            old(map).wf(),
        ensures
            final(self)@ == old(self)@,
            final(self).known_clean() == clean_log(bytes@),
            final(self).wf(),
            final(map).wf(),
            final(map)@ == replay_log(bytes@, old(map)@),
    {
        let mut pos: usize = 0;
        let mut ended: bool = false;
        let mut whole: bool = false;
        assert(bytes@.skip(0) =~= bytes@);
        while !ended
            invariant
                pos <= bytes@.len(),
                map.wf(),
                !ended ==> replay_log(bytes@.skip(pos as int), map@) == replay_log(
                    bytes@,
                    old(map)@,
                ),
                !ended ==> clean_log(bytes@.skip(pos as int)) == clean_log(bytes@),
                ended ==> map@ == replay_log(bytes@, old(map)@),
                ended ==> whole == clean_log(bytes@),
            decreases bytes@.len() - pos + (if ended { 0int } else { 1int }),
        {
            let ghost rest = bytes@.skip(pos as int);
            match decode(bytes, pos) {
                Decoded::Record(op, next) => {
                    proof {
                        assert(rest.skip(next - pos) =~= bytes@.skip(next as int));
                    }
                    apply_op(map, op);
                    pos = next;
                },
                Decoded::EndOfStream => {
                    ended = true;
                    whole = true;
                },
                Decoded::Truncated => {
                    ended = true;
                    whole = false;
                },
            }
        }
        self.clean = whole;
    }

    /// Records the outcome of appending the frame of a put: `logged` says
    /// whether the log file took the frame that `encode_put` gives for `key`
    /// and `value`. The log grows by that frame if it did.
    pub fn append_put(&mut self, key: &[u8], value: &[u8], logged: bool) -> (r: Result<(), Error>)
        requires
            old(self).wf(),
            key@.len() <= u32::MAX,
            value@.len() <= u32::MAX,
        ensures
            final(self).wf(),
            final(self).known_clean() == old(self).known_clean(),
            logged ==> r == Ok::<(), Error>(()) && final(self)@ == old(self)@ + encode_record(
                Record::Put(key@, value@),
            ),
            !logged ==> r == Err::<(), Error>(Error::Io) && final(self)@ == old(self)@,
    {
        self.append(Ghost(Record::Put(key@, value@)), logged)
    }

    /// Records the outcome of appending the frame of a delete: `logged` says
    /// whether the log file took the frame that `encode_delete` gives for
    /// `key`. The log grows by that frame if it did.
    pub fn append_delete(&mut self, key: &[u8], logged: bool) -> (r: Result<(), Error>)
        requires
            old(self).wf(),
            key@.len() <= u32::MAX,
        ensures
            final(self).wf(),
            final(self).known_clean() == old(self).known_clean(),
            logged ==> r == Ok::<(), Error>(()) && final(self)@ == old(self)@ + encode_record(
                Record::Delete(key@),
            ),
            !logged ==> r == Err::<(), Error>(Error::Io) && final(self)@ == old(self)@,
    {
        self.append(Ghost(Record::Delete(key@)), logged)
    }

    fn append(&mut self, rec: Ghost<Record>, logged: bool) -> (r: Result<(), Error>)
        requires
            old(self).wf(),
            encodable(rec@),
        ensures
            final(self).wf(),
            final(self).known_clean() == old(self).known_clean(),
            logged ==> r == Ok::<(), Error>(()) && final(self)@ == old(self)@ + encode_record(
                rec@,
            ),
            !logged ==> r == Err::<(), Error>(Error::Io) && final(self)@ == old(self)@,
    {
        if !logged {
            return Err(Error::Io);
        }
        proof {
            if self.clean {
                lemma_replay_append(self@, encode_record(rec@), Map::empty());
                lemma_replay_record(rec@, Map::empty());
            }
        }
        self.image = Ghost(self.image@ + encode_record(rec@));
        Ok(())
    }
}

/// Applies one record to the index.
pub fn apply_op(map: &mut Index, op: Op)
    requires
        old(map).wf(),
    ensures
        final(map).wf(),
        final(map)@ == apply(old(map)@, op@),
{
    match op {
        Op::Put(k, v) => {
            map.insert(k, v);
        },
        Op::Delete(k) => {
            map.remove(k.as_slice());
        },
    }
}

} // verus!
