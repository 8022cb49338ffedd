use substrate_signer::messages::{encode_sign_id, make_attempt_key, make_batch_key, make_completed_key};
use substrate_signer::{MemDb, SignId};

fn key(dst: &[u8], item: &[u8]) -> Vec<u8> {
    let mut k = vec![16u8];
    k.extend_from_slice(b"SUBSTRATE_SIGNER");
    k.push(dst.len() as u8);
    k.extend_from_slice(dst);
    k.extend_from_slice(item);
    k
}

#[test]
fn record_keys_layout() {
    let id = [0x11u8; 32];
    assert_eq!(make_completed_key(&id), key(b"completed", &id));
    assert_eq!(make_batch_key(&id), key(b"batch", &id));
    let sign_id = SignId { key: vec![0x22; 3], id, attempt: 0x01020304 };
    let mut item = vec![0, 0, 0, 0, 0, 0, 0, 3, 0x22, 0x22, 0x22];
    item.extend_from_slice(&id);
    item.extend_from_slice(&[1, 2, 3, 4]);
    assert_eq!(encode_sign_id(&sign_id), item);
    assert_eq!(make_attempt_key(&sign_id), key(b"attempt", &item));
}

#[test]
fn attempt_keys_differ_by_attempt() {
    let a = SignId { key: vec![0x22; 32], id: [0x11; 32], attempt: 0 };
    let b = SignId { key: vec![0x22; 32], id: [0x11; 32], attempt: 256 };
    assert_ne!(make_attempt_key(&a), make_attempt_key(&b));
}

#[test]
fn store_keeps_latest_write() {
    let mut db = MemDb::new();
    assert_eq!(db.get(b"k"), None);
    let mut txn = db.txn();
    txn.put(b"k".to_vec(), vec![1]);
    txn.put(b"j".to_vec(), vec![2]);
    // nothing is visible before the commit
    assert_eq!(db.get(b"k"), None);
    db.commit(txn);
    assert_eq!(db.get(b"k"), Some(vec![1]));
    assert_eq!(db.get(b"j"), Some(vec![2]));
    let mut txn = db.txn();
    txn.put(b"k".to_vec(), vec![3]);
    db.commit(txn);
    assert_eq!(db.get(b"k"), Some(vec![3]));
    assert_eq!(db.get(b"j"), Some(vec![2]));
    assert_eq!(db.get(b"x"), None);
}

#[test]
fn store_survives_through_its_writes() {
    let mut db = MemDb::new();
    let mut txn = db.txn();
    txn.put(b"k".to_vec(), vec![1]);
    db.commit(txn);
    let mut txn = db.txn();
    txn.put(b"k".to_vec(), vec![2]);
    db.commit(txn);
    let saved: Vec<(Vec<u8>, Vec<u8>)> = db.writes().clone();
    assert_eq!(saved.len(), 2);
    let restored = MemDb::from_writes(saved);
    assert_eq!(restored.get(b"k"), Some(vec![2]));
}
