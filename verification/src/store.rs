//! The store: the index together with the log that it is rebuilt from.

use vstd::prelude::*;
use vstd::slice::slice_to_vec;
use crate::codec::{encode_record, Record};
use crate::index::Index;
use crate::txn::{Txn, TxnOptions};
use crate::wal::{clean_log, lemma_replay_append, lemma_replay_record, replay_log, Error, Wal};

verus! {

/// Name of the log file inside the data directory.
pub const WAL_FILE: &'static str = "wal.log";

/// Where a store keeps its log.
#[derive(Clone, Debug)]
pub struct Config {
    pub data_dir: String,
}

impl Default for Config {
    fn default() -> (c: Self)
        ensures
            c.data_dir@ == "data"@,
    {
        Config { data_dir: "data".to_owned() }
    }
}

/// What a read of `k` gives on the index `m`.
pub open spec fn lookup(m: Map<Seq<u8>, Seq<u8>>, k: Seq<u8>) -> Option<Seq<u8>> {
    if m.contains_key(k) {
        Some(m[k])
    } else {
        None
    }
}

/// The mathematical value of what a read returns.
pub open spec fn value_of(r: Option<Vec<u8>>) -> Option<Seq<u8>> {
    match r {
        Some(v) => Some(v@),
        None => None,
    }
}

/// The index and the log of one data directory.
pub struct Database {
    map: Index,
    wal: Wal,
}

impl Database {
    /// The index: the latest value of every key that has one.
    pub closed spec fn view(&self) -> Map<Seq<u8>, Seq<u8>> {
        self.map@
    }

    /// The bytes of the log: those the store was opened on, followed by the
    /// frames of the mutations that took effect since.
    pub closed spec fn log(&self) -> Seq<u8> {
        self.wal@
    }

    /// Whether the log was whole records throughout when the store was
    /// opened.
    pub closed spec fn recovered_clean(&self) -> bool {
        self.wal.known_clean()
    }

    /// The store's invariant: where the log was clean at opening, it still
    /// is, and the index is what replaying the log gives.
    pub closed spec fn wf(&self) -> bool {
        &&& self.map.wf()
        &&& self.wal.wf()
        &&& self.wal.known_clean() ==> self.map@ == replay_log(self.wal@, Map::empty())
    }

    /// What `wf` says of a store whose log was clean at opening.
    pub proof fn lemma_index_is_replay(&self)
        requires
            self.wf(),
            self.recovered_clean(),
        ensures
            clean_log(self.log()),
            self@ == replay_log(self.log(), Map::empty()),
    {
    }

    /// Opens the store of a data directory whose log file holds `log`: the
    /// index is the replay of `log` over the empty index.
    pub fn open(config: Config, log: &[u8]) -> (db: Self)
        ensures
            db.wf(),
            db@ == replay_log(log@, Map::empty()),
            db.log() == log@,
            db.recovered_clean() == clean_log(log@),
    {
        let mut wal = Wal::open(log);
        let mut map = Index::new();
        wal.replay(log, &mut map);
        Database { map, wal }
    }

    /// Whether the log was whole records throughout when the store was
    /// opened. Where it was not, the bytes after the last whole record were
    /// left out of the index.
    pub fn is_clean(&self) -> (r: bool)
        ensures
            r == self.recovered_clean(),
    {
        self.wal.is_clean()
    }

    /// Puts `value` under `key`. `logged` says whether the log file took the
    /// frame of this put; where it did not, nothing changes and the error is
    /// returned.
    pub fn put(&mut self, key: &[u8], value: &[u8], logged: bool) -> (r: Result<(), Error>)
        requires
            old(self).wf(),
            key@.len() <= u32::MAX,
            value@.len() <= u32::MAX,
        ensures
            final(self).wf(),
            final(self).recovered_clean() == old(self).recovered_clean(),
            logged ==> r == Ok::<(), Error>(()) && final(self)@ == old(self)@.insert(key@, value@)
                && final(self).log() == old(self).log() + encode_record(
                Record::Put(key@, value@),
            ),
            logged ==> lookup(final(self)@, key@) == Some(value@),
            !logged ==> r == Err::<(), Error>(Error::Io) && final(self)@ == old(self)@
                && final(self).log() == old(self).log(),
    {
        match self.wal.append_put(key, value, logged) {
            Ok(()) => {},
            Err(e) => {
                return Err(e);
            },
        }
        self.map.insert(slice_to_vec(key), slice_to_vec(value));
        proof {
            if self.wal.known_clean() {
                let rec = Record::Put(key@, value@);
                lemma_replay_append(old(self).wal@, encode_record(rec), Map::empty());
                lemma_replay_record(rec, old(self).map@);
            }
        }
        Ok(())
    }

    /// A copy of the value under `key`, if the key has one.
    pub fn get(&self, key: &[u8]) -> (r: Result<Option<Vec<u8>>, Error>)
        requires
            self.wf(),
        ensures
            r is Ok,
            value_of(r->Ok_0) == lookup(self@, key@),
    {
        Ok(self.map.get(key))
    }

    /// Removes `key`. `logged` says whether the log file took the frame of
    /// this delete; where it did not, nothing changes and the error is
    /// returned. A key that is not there is logged all the same.
    pub fn delete(&mut self, key: &[u8], logged: bool) -> (r: Result<(), Error>)
        requires
            old(self).wf(),
            key@.len() <= u32::MAX,
        ensures
            final(self).wf(),
            final(self).recovered_clean() == old(self).recovered_clean(),
            logged ==> r == Ok::<(), Error>(()) && final(self)@ == old(self)@.remove(key@)
                && final(self).log() == old(self).log() + encode_record(Record::Delete(key@)),
            logged ==> lookup(final(self)@, key@) is None,
            !logged ==> r == Err::<(), Error>(Error::Io) && final(self)@ == old(self)@
                && final(self).log() == old(self).log(),
    {
        match self.wal.append_delete(key, logged) {
            Ok(()) => {},
            Err(e) => {
                return Err(e);
            },
        }
        self.map.remove(key);
        proof {
            if self.wal.known_clean() {
                let rec = Record::Delete(key@);
                lemma_replay_append(old(self).wal@, encode_record(rec), Map::empty());
                lemma_replay_record(rec, old(self).map@);
            }
        }
        Ok(())
    }

    /// A new transaction with nothing staged. The intent in `opts` is kept
    /// with the transaction and nothing is made of it.
    pub fn begin_txn(&self, opts: TxnOptions) -> (tx: Txn)
        ensures
            tx.wf(),
            tx@ == Seq::<Record>::empty(),
            tx.options() == opts,
    {
        Txn::new(opts)
    }
}

} // verus!
