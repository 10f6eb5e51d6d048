//! Transactions: writes staged in memory, read back through an overlay, and
//! applied to the store in their order at commit.

use vstd::prelude::*;
use vstd::slice::slice_to_vec;
use crate::codec::{encodable, encode, encode_record, Op, Record};
use crate::index::ByteMap;
use crate::store::{lookup, value_of, Database};
use crate::wal::{all_encodable, apply_all, encode_all, Error};

verus! {

/// The intent that a transaction is begun with. It is advisory: a read-only
/// transaction is not kept from writing.
#[derive(Clone, Copy, Debug, PartialEq, Eq, Structural)]
pub struct TxnOptions {
    read_write: bool,
}

impl TxnOptions {
    /// Whether the intent is to write.
    pub closed spec fn writes(&self) -> bool {
        self.read_write
    }

    /// The intent to read and write.
    pub fn read_write() -> (o: Self)
        ensures
            o.writes(),
    {
        TxnOptions { read_write: true }
    }

    /// The intent to read only.
    pub fn read_only() -> (o: Self)
        ensures
            !o.writes(),
    {
        TxnOptions { read_write: false }
    }
}

/// The key that `r` writes to.
pub open spec fn key_of(r: Record) -> Seq<u8> {
    match r {
        Record::Put(k, _) => k,
        Record::Delete(k) => k,
    }
}

/// What `r` leaves under its key: the value of a put, nothing for a delete.
pub open spec fn staged_value(r: Record) -> Option<Seq<u8>> {
    match r {
        Record::Put(_, v) => Some(v),
        Record::Delete(_) => None,
    }
}

/// The overlay of the staged records `ops`: for every key that one of them
/// writes to, what the last such record leaves under it.
pub open spec fn overlay_of(ops: Seq<Record>) -> Map<Seq<u8>, Option<Seq<u8>>>
    decreases ops.len(),
{
    if ops.len() == 0 {
        Map::empty()
    } else {
        overlay_of(ops.drop_last()).insert(key_of(ops.last()), staged_value(ops.last()))
    }
}

/// What a transaction with `ops` staged reads under `k` over the index `m`:
/// the overlay decides where it has the key, the index elsewhere.
pub open spec fn txn_read(ops: Seq<Record>, m: Map<Seq<u8>, Seq<u8>>, k: Seq<u8>) -> Option<
    Seq<u8>,
> {
    if overlay_of(ops).contains_key(k) {
        overlay_of(ops)[k]
    } else {
        lookup(m, k)
    }
}

/// Writes that are staged and not yet part of any store.
pub struct Txn {
    staged: Vec<Op>,
    overlay: ByteMap<Option<Vec<u8>>>,
    opts: TxnOptions,
}

impl Txn {
    /// The staged records, in the order in which they were staged.
    pub closed spec fn view(&self) -> Seq<Record> {
        self.staged@.map_values(|op: Op| op@)
    }

    /// The intent that the transaction was begun with.
    pub closed spec fn options(&self) -> TxnOptions {
        self.opts
    }

    /// The transaction's invariant: every staged record fits a frame, and
    /// the overlay is that of the staged records.
    pub closed spec fn wf(&self) -> bool {
        &&& self.overlay.wf()
        &&& all_encodable(self@)
        &&& self.overlay@.map_values(|o: Option<Vec<u8>>| value_of(o)) == overlay_of(self@)
    }

    /// A transaction with nothing staged.
    pub fn new(opts: TxnOptions) -> (tx: Self)
        ensures
            tx.wf(),
            tx@ == Seq::<Record>::empty(),
            tx.options() == opts,
    {
        let tx = Txn { staged: Vec::new(), overlay: ByteMap::new(), opts };
        assert(tx@ =~= Seq::<Record>::empty());
        assert(tx.overlay@.map_values(|o: Option<Vec<u8>>| value_of(o)) =~= overlay_of(tx@));
        tx
    }

    fn stage(&mut self, op: Op)
        requires
            old(self).wf(),
            encodable(op@),
        ensures
            final(self).wf(),
            final(self)@ == old(self)@.push(op@),
            final(self).options() == old(self).options(),
    {
        let key = match &op {
            Op::Put(k, _) => slice_to_vec(k.as_slice()),
            Op::Delete(k) => slice_to_vec(k.as_slice()),
        };
        let value = match &op {
            Op::Put(_, v) => Some(slice_to_vec(v.as_slice())),
            Op::Delete(_) => None,
        };
        self.staged.push(op);
        self.overlay.insert(key, value);
        proof {
            assert(self@ =~= old(self)@.push(op@));
            assert(self@.drop_last() =~= old(self)@);
            assert(self.overlay@.map_values(|o: Option<Vec<u8>>| value_of(o)) =~= overlay_of(
                self@,
            ));
        }
    }

    /// Stages a put of `value` under `key`. Nothing but the transaction
    /// changes.
    pub fn put(&mut self, key: &[u8], value: &[u8]) -> (r: Result<(), Error>)
        requires
            old(self).wf(),
            key@.len() <= u32::MAX,
            value@.len() <= u32::MAX,
        ensures
            r is Ok,
            final(self).wf(),
            final(self)@ == old(self)@.push(Record::Put(key@, value@)),
            final(self).options() == old(self).options(),
            forall|m: Map<Seq<u8>, Seq<u8>>| #[trigger]
                txn_read(final(self)@, m, key@) == Some(value@),
    {
        self.stage(Op::Put(slice_to_vec(key), slice_to_vec(value)));
        proof {
            assert(self@.drop_last() =~= old(self)@);
        }
        Ok(())
    }

    /// Stages a delete of `key`. Nothing but the transaction changes.
    pub fn delete(&mut self, key: &[u8]) -> (r: Result<(), Error>)
        requires
            old(self).wf(),
            key@.len() <= u32::MAX,
        ensures
            r is Ok,
            final(self).wf(),
            final(self)@ == old(self)@.push(Record::Delete(key@)),
            final(self).options() == old(self).options(),
            forall|m: Map<Seq<u8>, Seq<u8>>| #[trigger] txn_read(final(self)@, m, key@) is None,
    {
        self.stage(Op::Delete(slice_to_vec(key)));
        proof {
            assert(self@.drop_last() =~= old(self)@);
        }
        Ok(())
    }

    /// Reads `key` as the transaction sees it: what the last staged record
    /// for the key leaves, or, where none is staged, what `db` holds.
    pub fn get(&self, db: &Database, key: &[u8]) -> (r: Result<Option<Vec<u8>>, Error>)
        requires
            self.wf(),
            db.wf(),
        ensures
            r is Ok,
            value_of(r->Ok_0) == txn_read(self@, db@, key@),
    {
        match self.overlay.get(key) {
            Some(o) => {
                let copy = match o {
                    Some(v) => Some(slice_to_vec(v.as_slice())),
                    None => None,
                };
                assert(self.overlay@.map_values(|o: Option<Vec<u8>>| value_of(o))[key@]
                    == value_of(copy));
                Ok(copy)
            },
            None => {
                assert(!self.overlay@.map_values(|o: Option<Vec<u8>>| value_of(o)).contains_key(
                    key@,
                ));
                db.get(key)
            },
        }
    }

    /// The frames of the staged records, in their order: what commit has to
    /// hand to the log file, one after the other.
    pub fn frames(&self) -> (out: Vec<Vec<u8>>)
        requires
            self.wf(),
        ensures
            out@.len() == self@.len(),
            forall|i: int| 0 <= i < out@.len() ==> (#[trigger] out@[i])@ == encode_record(self@[i]),
    {
        let mut out: Vec<Vec<u8>> = Vec::new();
        let mut i: usize = 0;
        while i < self.staged.len()
            invariant
                self.wf(),
                i <= self.staged@.len(),
                out@.len() == i,
                forall|j: int| 0 <= j < i ==> (#[trigger] out@[j])@ == encode_record(self@[j]),
            decreases self.staged@.len() - i,
        {
            assert(self@[i as int] == self.staged@[i as int]@);
            out.push(encode(&self.staged[i]));
            i += 1;
        }
        out
    }

    /// Applies the staged records to `db` in their order, each as a put or
    /// delete on the store would. `logged` is the number of frames of
    /// `frames` that the log file took, from the first on: the records up to
    /// there take effect, and where that is not all of them the rest is
    /// dropped and the error returned.
    pub fn commit(self, db: &mut Database, logged: usize) -> (r: Result<(), Error>)
        requires
            self.wf(),
            old(db).wf(),
        ensures
            final(db).wf(),
            final(db).recovered_clean() == old(db).recovered_clean(),
            logged >= self@.len() ==> r == Ok::<(), Error>(()) && final(db)@ == apply_all(
                old(db)@,
                self@,
            ) && final(db).log() == old(db).log() + encode_all(self@),
            logged < self@.len() ==> r == Err::<(), Error>(Error::Io) && final(db)@ == apply_all(
                old(db)@,
                self@.take(logged as int),
            ) && final(db).log() == old(db).log() + encode_all(self@.take(logged as int)),
    {
        let mut i: usize = 0;
        proof {
            assert(self@.take(0) =~= Seq::<Record>::empty());
            assert(db.log() + encode_all(self@.take(0)) =~= db.log());
        }
        while i < self.staged.len()
            invariant
                self.wf(),
                db.wf(),
                db.recovered_clean() == old(db).recovered_clean(),
                i <= self.staged@.len(),
                i <= logged,
                db@ == apply_all(old(db)@, self@.take(i as int)),
                db.log() == old(db).log() + encode_all(self@.take(i as int)),
            decreases self.staged@.len() - i,
        {
            proof {
                assert(self@[i as int] == self.staged@[i as int]@);
                assert(encodable(self@[i as int]));
                assert(self@.take(i + 1).drop_last() =~= self@.take(i as int));
                assert(self@.take(i + 1).last() == self@[i as int]);
            }
            let ghost before = db.log();
            let step = match &self.staged[i] {
                Op::Put(k, v) => db.put(k.as_slice(), v.as_slice(), i < logged),
                Op::Delete(k) => db.delete(k.as_slice(), i < logged),
            };
            match step {
                Ok(()) => {},
                Err(e) => {
                    return Err(e);
                },
            }
            proof {
                let f = encode_record(self@[i as int]);
                assert(before + f =~= old(db).log() + (encode_all(self@.take(i as int)) + f));
            }
            i += 1;
        }
        proof {
            assert(self@.take(i as int) =~= self@);
        }
        Ok(())
    }

    /// Drops what was staged. No store is touched.
    pub fn rollback(self) -> (r: Result<(), Error>)
        ensures
            r == Ok::<(), Error>(()),
    {
        Ok(())
    }
}

} // verus!
