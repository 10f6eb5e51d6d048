//! What holds of the store and of transactions across calls, stated over the
//! models that the contracts of `Database` and `Txn` use.

use vstd::prelude::*;
use crate::codec::Record;
use crate::store::{lookup, Database};
use crate::txn::{key_of, overlay_of, staged_value, txn_read};
use crate::wal::{all_encodable, apply, apply_all, encode_all, lemma_replay_append,
    lemma_replay_encoded, replay_log};

verus! {

/// A value that was put under a key is what a read of the key gives.
pub proof fn lemma_put_then_get(m: Map<Seq<u8>, Seq<u8>>, k: Seq<u8>, v: Seq<u8>)
    ensures
        lookup(m.insert(k, v), k) == Some(v),
{
}

/// A key that was put and then deleted reads as absent.
pub proof fn lemma_put_delete_then_get(m: Map<Seq<u8>, Seq<u8>>, k: Seq<u8>, v: Seq<u8>)
    ensures
        lookup(m.insert(k, v).remove(k), k) == None::<Seq<u8>>,
{
}

/// Reopening a store on the bytes of its log gives back its index, where the
/// log was clean when the store was first opened.
pub proof fn lemma_reopen_restores_index(db: Database)
    requires
        db.wf(),
        db.recovered_clean(),
    ensures
        replay_log(db.log(), Map::empty()) == db@,
{
    db.lemma_index_is_replay();
}

/// Replaying a clean log to which the frames of `ops` were appended gives
/// the index of the log with `ops` applied from left to right.
pub proof fn lemma_replay_after_appends(log: Seq<u8>, ops: Seq<Record>)
    requires
        crate::wal::clean_log(log),
        all_encodable(ops),
    ensures
        replay_log(log + encode_all(ops), Map::empty()) == apply_all(
            replay_log(log, Map::empty()),
            ops,
        ),
{
    lemma_replay_append(log, encode_all(ops), Map::empty());
    lemma_replay_encoded(ops, replay_log(log, Map::empty()));
}

/// The last writer wins: after `ops`, a key that none of them writes to
/// reads as before, and any other reads as the last record for it leaves it.
pub proof fn lemma_last_writer_wins(m: Map<Seq<u8>, Seq<u8>>, ops: Seq<Record>, k: Seq<u8>)
    ensures
        (forall|i: int| 0 <= i < ops.len() ==> key_of(#[trigger] ops[i]) != k) ==> lookup(
            apply_all(m, ops),
            k,
        ) == lookup(m, k),
        forall|i: int|
            0 <= i < ops.len() && key_of(#[trigger] ops[i]) == k && (forall|j: int|
                i < j < ops.len() ==> key_of(#[trigger] ops[j]) != k) ==> lookup(
                apply_all(m, ops),
                k,
            ) == staged_value(ops[i]),
    decreases ops.len(),
{
    if ops.len() > 0 {
        let init = ops.drop_last();
        let last = ops.last();
        lemma_last_writer_wins(m, init, k);
        assert(forall|i: int| 0 <= i < init.len() ==> init[i] == ops[i]);
        if key_of(last) == k {
            assert forall|i: int|
                0 <= i < ops.len() && key_of(#[trigger] ops[i]) == k && (forall|j: int|
                    i < j < ops.len() ==> key_of(#[trigger] ops[j]) != k) implies lookup(
                apply_all(m, ops),
                k,
            ) == staged_value(ops[i]) by {
                if i < ops.len() - 1 {
                    assert(key_of(ops[ops.len() - 1]) != k);
                }
            }
        } else {
            assert(lookup(apply_all(m, ops), k) == lookup(apply_all(m, init), k));
            assert forall|i: int|
                0 <= i < ops.len() && key_of(#[trigger] ops[i]) == k && (forall|j: int|
                    i < j < ops.len() ==> key_of(#[trigger] ops[j]) != k) implies lookup(
                apply_all(m, ops),
                k,
            ) == staged_value(ops[i]) by {
                assert(i < init.len());
                assert(init[i] == ops[i]);
                assert forall|j: int| i < j < init.len() implies key_of(#[trigger] init[j])
                    != k by {
                    assert(init[j] == ops[j]);
                }
            }
        }
    }
}

/// A transaction reads its own writes: a key reads as the value that was
/// staged for it last, whatever the store holds.
pub proof fn lemma_read_your_writes(
    ops: Seq<Record>,
    m: Map<Seq<u8>, Seq<u8>>,
    k: Seq<u8>,
    v: Seq<u8>,
)
    ensures
        txn_read(ops.push(Record::Put(k, v)), m, k) == Some(v),
        txn_read(ops.push(Record::Delete(k)), m, k) == None::<Seq<u8>>,
{
    assert(ops.push(Record::Put(k, v)).drop_last() =~= ops);
    assert(ops.push(Record::Delete(k)).drop_last() =~= ops);
}

/// Staging a record changes what the transaction reads under the record's
/// key and under no other; what the store itself reads does not depend on
/// what is staged.
pub proof fn lemma_staging_touches_one_key(
    ops: Seq<Record>,
    r: Record,
    m: Map<Seq<u8>, Seq<u8>>,
    k: Seq<u8>,
)
    ensures
        k == key_of(r) ==> txn_read(ops.push(r), m, k) == staged_value(r),
        k != key_of(r) ==> txn_read(ops.push(r), m, k) == txn_read(ops, m, k),
{
    assert(ops.push(r).drop_last() =~= ops);
}

/// A transaction none of whose frames reached the log, as when it is rolled
/// back, leaves the index and the bytes of the log as they were.
pub proof fn lemma_nothing_logged_changes_nothing(
    m: Map<Seq<u8>, Seq<u8>>,
    log: Seq<u8>,
    ops: Seq<Record>,
)
    ensures
        apply_all(m, ops.take(0)) == m,
        log + encode_all(ops.take(0)) == log,
{
    assert(ops.take(0) =~= Seq::<Record>::empty());
    assert(log + encode_all(ops.take(0)) =~= log);
}

/// What a transaction reads before commit is what the store holds after it.
pub proof fn lemma_commit_keeps_reads(ops: Seq<Record>, m: Map<Seq<u8>, Seq<u8>>, k: Seq<u8>)
    ensures
        lookup(apply_all(m, ops), k) == txn_read(ops, m, k),
    decreases ops.len(),
{
    if ops.len() > 0 {
        lemma_commit_keeps_reads(ops.drop_last(), m, k);
        let last = ops.last();
        assert(apply_all(m, ops) == apply(apply_all(m, ops.drop_last()), last));
    }
}

} // verus!
