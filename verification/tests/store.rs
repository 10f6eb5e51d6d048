use database::codec::{encode_delete, encode_put};
use database::index::{bytes_eq, ByteMap, Index};
use database::models::UnifiedResponse;
use database::store::WAL_FILE;
use database::txn::{Txn, TxnOptions};
use database::wal::{apply_op, Wal};
use database::{Config, Database, Error};

fn cfg() -> Config {
    Config { data_dir: String::from("d1") }
}

fn logged_put(db: &mut Database, file: &mut Vec<u8>, key: &[u8], value: &[u8]) {
    file.extend_from_slice(&encode_put(key, value));
    db.put(key, value, true).unwrap();
}

fn logged_delete(db: &mut Database, file: &mut Vec<u8>, key: &[u8]) {
    file.extend_from_slice(&encode_delete(key));
    db.delete(key, true).unwrap();
}

fn logged_commit(tx: Txn, db: &mut Database, file: &mut Vec<u8>) {
    let frames = tx.frames();
    for f in &frames {
        file.extend_from_slice(f);
    }
    tx.commit(db, frames.len()).unwrap();
}

#[test]
fn default_config_is_data() {
    assert_eq!(Config::default().data_dir, "data");
    assert_eq!(WAL_FILE, "wal.log");
}

#[test]
fn bytes_eq_compares_contents() {
    assert!(bytes_eq(b"", b""));
    assert!(bytes_eq(b"abc", b"abc"));
    assert!(!bytes_eq(b"abc", b"abd"));
    assert!(!bytes_eq(b"abc", b"ab"));
    assert!(!bytes_eq(b"ab", b"abc"));
}

#[test]
fn byte_map_insert_get_remove() {
    let mut m: ByteMap<u32> = ByteMap::new();
    assert_eq!(m.get(b"a"), None);
    m.insert(b"a".to_vec(), 1);
    m.insert(b"b".to_vec(), 2);
    m.insert(b"c".to_vec(), 3);
    assert_eq!(m.get(b"a"), Some(&1));
    assert_eq!(m.get(b"b"), Some(&2));
    m.insert(b"a".to_vec(), 10);
    assert_eq!(m.get(b"a"), Some(&10));
    m.remove(b"a");
    assert_eq!(m.get(b"a"), None);
    assert_eq!(m.get(b"b"), Some(&2));
    assert_eq!(m.get(b"c"), Some(&3));
    m.remove(b"zzz");
    assert_eq!(m.get(b"b"), Some(&2));
}

#[test]
fn index_overwrites_and_removes() {
    let mut ix = Index::new();
    ix.insert(b"k".to_vec(), b"1".to_vec());
    ix.insert(b"k".to_vec(), b"2".to_vec());
    assert_eq!(ix.get(b"k"), Some(b"2".to_vec()));
    ix.remove(b"k");
    assert_eq!(ix.get(b"k"), None);
}

#[test]
fn apply_op_puts_and_deletes() {
    let mut ix = Index::new();
    apply_op(&mut ix, database::codec::Op::Put(b"k".to_vec(), b"v".to_vec()));
    assert_eq!(ix.get(b"k"), Some(b"v".to_vec()));
    apply_op(&mut ix, database::codec::Op::Delete(b"k".to_vec()));
    assert_eq!(ix.get(b"k"), None);
}

#[test]
fn open_on_empty_log_is_empty_and_clean() {
    let db = Database::open(cfg(), &[]);
    assert!(db.is_clean());
    assert_eq!(db.get(b"a").unwrap(), None);
}

#[test]
fn get_of_absent_key_is_none() {
    let mut db = Database::open(cfg(), &[]);
    db.put(b"a", b"1", true).unwrap();
    assert_eq!(db.get(b"b").unwrap(), None);
    assert_eq!(db.get(b"").unwrap(), None);
}

#[test]
fn put_overwrites() {
    let mut db = Database::open(cfg(), &[]);
    db.put(b"a", b"1", true).unwrap();
    db.put(b"a", b"2", true).unwrap();
    assert_eq!(db.get(b"a").unwrap(), Some(b"2".to_vec()));
}

#[test]
fn put_then_delete_reads_none() {
    let mut db = Database::open(cfg(), &[]);
    db.put(b"a", b"1", true).unwrap();
    db.delete(b"a", true).unwrap();
    assert_eq!(db.get(b"a").unwrap(), None);
}

#[test]
fn delete_of_absent_key_is_ok() {
    let mut db = Database::open(cfg(), &[]);
    assert_eq!(db.delete(b"nothing", true), Ok(()));
    assert_eq!(db.get(b"nothing").unwrap(), None);
}

#[test]
fn failed_put_changes_nothing() {
    let mut db = Database::open(cfg(), &[]);
    db.put(b"a", b"1", true).unwrap();
    assert_eq!(db.put(b"a", b"2", false), Err(Error::Io));
    assert_eq!(db.put(b"b", b"3", false), Err(Error::Io));
    assert_eq!(db.get(b"a").unwrap(), Some(b"1".to_vec()));
    assert_eq!(db.get(b"b").unwrap(), None);
}

#[test]
fn failed_delete_changes_nothing() {
    let mut db = Database::open(cfg(), &[]);
    db.put(b"a", b"1", true).unwrap();
    assert_eq!(db.delete(b"a", false), Err(Error::Io));
    assert_eq!(db.get(b"a").unwrap(), Some(b"1".to_vec()));
}

#[test]
fn wal_append_reports_the_outcome() {
    let mut wal = Wal::open(&[]);
    assert_eq!(wal.append_put(b"k", b"v", true), Ok(()));
    assert_eq!(wal.append_put(b"k", b"v", false), Err(Error::Io));
    assert_eq!(wal.append_delete(b"k", true), Ok(()));
    assert_eq!(wal.append_delete(b"k", false), Err(Error::Io));
}

#[test]
fn wal_replay_applies_records_in_order() {
    let mut log = Vec::new();
    log.extend_from_slice(&encode_put(b"a", b"1"));
    log.extend_from_slice(&encode_put(b"b", b"2"));
    log.extend_from_slice(&encode_put(b"a", b"3"));
    log.extend_from_slice(&encode_delete(b"b"));
    let mut wal = Wal::open(&log);
    assert!(!wal.is_clean());
    let mut ix = Index::new();
    ix.insert(b"c".to_vec(), b"0".to_vec());
    wal.replay(&log, &mut ix);
    assert!(wal.is_clean());
    assert_eq!(ix.get(b"a"), Some(b"3".to_vec()));
    assert_eq!(ix.get(b"b"), None);
    assert_eq!(ix.get(b"c"), Some(b"0".to_vec()));
}

#[test]
fn replay_stops_at_truncated_tail() {
    let mut log = Vec::new();
    log.extend_from_slice(&encode_put(b"a", b"1"));
    let second = encode_put(b"b", b"22222");
    log.extend_from_slice(&second[..second.len() - 2]);
    let db = Database::open(cfg(), &log);
    assert!(!db.is_clean());
    assert_eq!(db.get(b"a").unwrap(), Some(b"1".to_vec()));
    assert_eq!(db.get(b"b").unwrap(), None);
}

#[test]
fn replay_stops_at_short_header() {
    let mut log = encode_put(b"a", b"1");
    log.extend_from_slice(&[1, 1, 0]);
    let db = Database::open(cfg(), &log);
    assert!(!db.is_clean());
    assert_eq!(db.get(b"a").unwrap(), Some(b"1".to_vec()));
}

#[test]
fn replay_stops_at_unknown_opcode() {
    let mut log = encode_put(b"a", b"1");
    let mut bad = encode_put(b"b", b"2");
    bad[0] = 9;
    log.extend_from_slice(&bad);
    log.extend_from_slice(&encode_put(b"c", b"3"));
    let db = Database::open(cfg(), &log);
    assert!(!db.is_clean());
    assert_eq!(db.get(b"a").unwrap(), Some(b"1".to_vec()));
    assert_eq!(db.get(b"b").unwrap(), None);
    assert_eq!(db.get(b"c").unwrap(), None);
}

#[test]
fn reopen_reproduces_last_writer_wins() {
    let mut file = Vec::new();
    let mut db = Database::open(cfg(), &file);
    logged_put(&mut db, &mut file, b"a", b"1");
    logged_put(&mut db, &mut file, b"b", b"2");
    logged_put(&mut db, &mut file, b"a", b"3");
    logged_delete(&mut db, &mut file, b"b");
    logged_put(&mut db, &mut file, b"c", b"");
    logged_delete(&mut db, &mut file, b"missing");
    let again = Database::open(cfg(), &file);
    assert!(again.is_clean());
    for key in [&b"a"[..], b"b", b"c", b"missing"] {
        assert_eq!(again.get(key).unwrap(), db.get(key).unwrap());
    }
    assert_eq!(again.get(b"a").unwrap(), Some(b"3".to_vec()));
    assert_eq!(again.get(b"b").unwrap(), None);
    assert_eq!(again.get(b"c").unwrap(), Some(Vec::new()));
    assert_eq!(again.get(b"missing").unwrap(), None);
}

#[test]
fn replay_is_the_left_to_right_fold() {
    let mut log = Vec::new();
    let mut expect: std::collections::BTreeMap<Vec<u8>, Vec<u8>> =
        std::collections::BTreeMap::new();
    for i in 0u8..40 {
        let key = vec![i % 7];
        if i % 3 == 0 {
            log.extend_from_slice(&encode_delete(&key));
            expect.remove(&key);
        } else {
            log.extend_from_slice(&encode_put(&key, &[i, i]));
            expect.insert(key, vec![i, i]);
        }
    }
    let db = Database::open(cfg(), &log);
    assert!(db.is_clean());
    for k in 0u8..8 {
        assert_eq!(db.get(&[k]).unwrap(), expect.get(&vec![k]).cloned());
    }
}

#[test]
fn tombstone_survives_reopen() {
    let mut file = Vec::new();
    let mut db = Database::open(cfg(), &file);
    logged_put(&mut db, &mut file, b"a", b"1");
    logged_delete(&mut db, &mut file, b"a");
    assert_eq!(db.get(b"a").unwrap(), None);
    let again = Database::open(cfg(), &file);
    assert_eq!(again.get(b"a").unwrap(), None);
}

#[test]
fn users_and_balances_scenario() {
    let mut file = Vec::new();
    let mut db = Database::open(cfg(), &file);
    logged_put(&mut db, &mut file, b"users:1", b"{\"name\":\"Alice\"}");
    assert_eq!(
        db.get(b"users:1").unwrap(),
        Some(b"{\"name\":\"Alice\"}".to_vec())
    );
    let mut tx = db.begin_txn(TxnOptions::read_write());
    tx.put(b"balance:alice", b"100").unwrap();
    tx.put(b"balance:bob", b"50").unwrap();
    logged_commit(tx, &mut db, &mut file);
    assert_eq!(db.get(b"balance:alice").unwrap(), Some(b"100".to_vec()));
    assert_eq!(db.get(b"balance:bob").unwrap(), Some(b"50".to_vec()));
    let again = Database::open(cfg(), &file);
    assert_eq!(again.get(b"balance:alice").unwrap(), Some(b"100".to_vec()));
    assert_eq!(again.get(b"balance:bob").unwrap(), Some(b"50".to_vec()));
    assert_eq!(
        again.get(b"users:1").unwrap(),
        Some(b"{\"name\":\"Alice\"}".to_vec())
    );
}

#[test]
fn staged_put_is_invisible_until_commit() {
    let mut db = Database::open(cfg(), &[]);
    db.put(b"k", b"old", true).unwrap();
    let mut tx = db.begin_txn(TxnOptions::read_write());
    tx.put(b"k", b"new").unwrap();
    tx.put(b"fresh", b"1").unwrap();
    assert_eq!(db.get(b"k").unwrap(), Some(b"old".to_vec()));
    assert_eq!(db.get(b"fresh").unwrap(), None);
    tx.commit(&mut db, 2).unwrap();
    assert_eq!(db.get(b"k").unwrap(), Some(b"new".to_vec()));
    assert_eq!(db.get(b"fresh").unwrap(), Some(b"1".to_vec()));
}

#[test]
fn txn_reads_its_own_writes() {
    let mut db = Database::open(cfg(), &[]);
    db.put(b"kept", b"0", true).unwrap();
    db.put(b"gone", b"0", true).unwrap();
    let mut tx = db.begin_txn(TxnOptions::read_write());
    tx.put(b"k", b"v").unwrap();
    assert_eq!(tx.get(&db, b"k").unwrap(), Some(b"v".to_vec()));
    tx.put(b"k", b"w").unwrap();
    assert_eq!(tx.get(&db, b"k").unwrap(), Some(b"w".to_vec()));
    tx.delete(b"gone").unwrap();
    assert_eq!(tx.get(&db, b"gone").unwrap(), None);
    assert_eq!(tx.get(&db, b"kept").unwrap(), Some(b"0".to_vec()));
    assert_eq!(tx.get(&db, b"never").unwrap(), None);
    tx.delete(b"k").unwrap();
    assert_eq!(tx.get(&db, b"k").unwrap(), None);
    tx.put(b"gone", b"back").unwrap();
    assert_eq!(tx.get(&db, b"gone").unwrap(), Some(b"back".to_vec()));
}

#[test]
fn rollback_leaves_the_store_alone() {
    let mut file = Vec::new();
    let mut db = Database::open(cfg(), &file);
    logged_put(&mut db, &mut file, b"a", b"1");
    let before = file.clone();
    let mut tx = db.begin_txn(TxnOptions::read_write());
    tx.put(b"a", b"2").unwrap();
    tx.delete(b"a").unwrap();
    tx.put(b"b", b"3").unwrap();
    assert_eq!(tx.rollback(), Ok(()));
    assert_eq!(file, before);
    assert_eq!(db.get(b"a").unwrap(), Some(b"1".to_vec()));
    assert_eq!(db.get(b"b").unwrap(), None);
}

#[test]
fn frames_are_those_of_the_staged_records() {
    let mut tx = Txn::new(TxnOptions::read_write());
    assert_eq!(tx.frames(), Vec::<Vec<u8>>::new());
    tx.put(b"a", b"1").unwrap();
    tx.delete(b"b").unwrap();
    tx.put(b"a", b"2").unwrap();
    assert_eq!(
        tx.frames(),
        vec![encode_put(b"a", b"1"), encode_delete(b"b"), encode_put(b"a", b"2")]
    );
}

#[test]
fn commit_applies_in_staging_order() {
    let mut db = Database::open(cfg(), &[]);
    let mut tx = db.begin_txn(TxnOptions::read_write());
    tx.put(b"a", b"1").unwrap();
    tx.delete(b"a").unwrap();
    tx.put(b"b", b"1").unwrap();
    tx.put(b"b", b"2").unwrap();
    tx.delete(b"c").unwrap();
    tx.put(b"c", b"3").unwrap();
    assert_eq!(tx.commit(&mut db, 6), Ok(()));
    assert_eq!(db.get(b"a").unwrap(), None);
    assert_eq!(db.get(b"b").unwrap(), Some(b"2".to_vec()));
    assert_eq!(db.get(b"c").unwrap(), Some(b"3".to_vec()));
}

#[test]
fn commit_of_nothing_is_ok() {
    let mut db = Database::open(cfg(), &[]);
    let tx = db.begin_txn(TxnOptions::read_only());
    assert_eq!(tx.commit(&mut db, 0), Ok(()));
}

#[test]
fn failed_commit_keeps_the_prefix() {
    let mut file = Vec::new();
    let mut db = Database::open(cfg(), &file);
    let mut tx = db.begin_txn(TxnOptions::read_write());
    tx.put(b"a", b"1").unwrap();
    tx.put(b"b", b"2").unwrap();
    tx.put(b"c", b"3").unwrap();
    let frames = tx.frames();
    file.extend_from_slice(&frames[0]);
    file.extend_from_slice(&frames[1]);
    assert_eq!(tx.commit(&mut db, 2), Err(Error::Io));
    assert_eq!(db.get(b"a").unwrap(), Some(b"1".to_vec()));
    assert_eq!(db.get(b"b").unwrap(), Some(b"2".to_vec()));
    assert_eq!(db.get(b"c").unwrap(), None);
    let again = Database::open(cfg(), &file);
    assert_eq!(again.get(b"a").unwrap(), Some(b"1".to_vec()));
    assert_eq!(again.get(b"b").unwrap(), Some(b"2".to_vec()));
    assert_eq!(again.get(b"c").unwrap(), None);
}

#[test]
fn commit_with_nothing_logged_changes_nothing() {
    let mut db = Database::open(cfg(), &[]);
    db.put(b"a", b"0", true).unwrap();
    let mut tx = db.begin_txn(TxnOptions::read_write());
    tx.put(b"a", b"1").unwrap();
    assert_eq!(tx.commit(&mut db, 0), Err(Error::Io));
    assert_eq!(db.get(b"a").unwrap(), Some(b"0".to_vec()));
}

#[test]
fn read_only_intent_is_not_enforced() {
    let mut db = Database::open(cfg(), &[]);
    let mut tx = db.begin_txn(TxnOptions::read_only());
    tx.put(b"a", b"1").unwrap();
    assert_eq!(tx.commit(&mut db, 1), Ok(()));
    assert_eq!(db.get(b"a").unwrap(), Some(b"1".to_vec()));
    assert_ne!(TxnOptions::read_only(), TxnOptions::read_write());
}

#[test]
fn what_a_txn_reads_is_what_commit_leaves() {
    let mut db = Database::open(cfg(), &[]);
    db.put(b"a", b"0", true).unwrap();
    db.put(b"b", b"0", true).unwrap();
    let mut tx = db.begin_txn(TxnOptions::read_write());
    tx.put(b"a", b"1").unwrap();
    tx.delete(b"b").unwrap();
    tx.put(b"c", b"2").unwrap();
    let keys = [&b"a"[..], b"b", b"c", b"d"];
    let seen: Vec<Option<Vec<u8>>> = keys.iter().map(|k| tx.get(&db, k).unwrap()).collect();
    tx.commit(&mut db, 3).unwrap();
    let held: Vec<Option<Vec<u8>>> = keys.iter().map(|k| db.get(k).unwrap()).collect();
    assert_eq!(seen, held);
}

#[test]
fn unified_response_ok_and_err() {
    let ok = UnifiedResponse::ok(7u32);
    assert_eq!(ok.error_code, 0);
    assert_eq!(ok.msg, "");
    assert_eq!(ok.data, Some(7));
    let err: UnifiedResponse<u32> = UnifiedResponse::err(401, "unauthorized");
    assert_eq!(err.error_code, 401);
    assert_eq!(err.msg, "unauthorized");
    assert_eq!(err.data, None);
}

#[test]
fn torn_tail_swallows_later_appends() {
    let mut file = vec![1u8, 1, 0];
    let mut db = Database::open(cfg(), &file);
    assert!(!db.is_clean());
    logged_put(&mut db, &mut file, b"a", b"1");
    assert_eq!(db.get(b"a").unwrap(), Some(b"1".to_vec()));
    let again = Database::open(cfg(), &file);
    assert!(!again.is_clean());
    assert_eq!(again.get(b"a").unwrap(), None);
}
