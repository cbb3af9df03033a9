//! Versioned store, version resolution, and state-tree behaviour.

use rollup_core::h256::H256;
use rollup_core::state_db::{StateDBTransaction, StateDBVersion};
use rollup_core::store::{BlockRecord, Col, StoreTransaction};

fn h(n: u64) -> H256 {
    H256 { w0: n, w1: 0, w2: 0, w3: 0 }
}

fn db_at(store: StoreTransaction, block: u64, tx: u32) -> StateDBTransaction {
    StateDBTransaction { inner: store, block_num: block, tx_index: tx }
}

#[test]
fn versioned_get_returns_latest_at_or_before_version() {
    let store = StoreTransaction::new();
    let key = [7u8; 32];
    let mut db1 = db_at(store, 1, 0);
    db1.insert_raw(Col::AccountSmtLeaf, &key, &[1u8, 1, 1]).unwrap();
    let store = db1.into_inner();
    let mut db2 = db_at(store, 2, 0);
    db2.insert_raw(Col::AccountSmtLeaf, &key, &[2u8, 2, 2]).unwrap();
    let store = db2.into_inner();

    let db_old = db_at(store, 1, 0);
    assert_eq!(db_old.get(Col::AccountSmtLeaf, &key), Some(vec![1u8, 1, 1]));
    let store = db_old.into_inner();

    let db_new = db_at(store, 2, 5);
    assert_eq!(db_new.get(Col::AccountSmtLeaf, &key), Some(vec![2u8, 2, 2]));
    let store = db_new.into_inner();

    // a read below every write observes nothing
    let db_zero = db_at(store, 0, 0);
    assert_eq!(db_zero.get(Col::AccountSmtLeaf, &key), None);
}

#[test]
fn reads_are_monotonic_across_later_writes() {
    // a write at (3, 0) must not disturb a read at (2, 0)
    let store = StoreTransaction::new();
    let key = [9u8; 32];
    let mut db = db_at(store, 2, 0);
    db.insert_raw(Col::AccountSmtLeaf, &key, &[5u8]).unwrap();
    let store = db.into_inner();
    let before = db_at(store, 2, 0);
    let seen_before = before.get(Col::AccountSmtLeaf, &key);
    let store = before.into_inner();

    let mut later = db_at(store, 3, 0);
    later.insert_raw(Col::AccountSmtLeaf, &key, &[6u8]).unwrap();
    let store = later.into_inner();

    let after = db_at(store, 2, 0);
    assert_eq!(after.get(Col::AccountSmtLeaf, &key), seen_before);
    assert_eq!(seen_before, Some(vec![5u8]));
}

#[test]
fn tombstone_hides_value() {
    let store = StoreTransaction::new();
    let key = [3u8; 32];
    let mut db = db_at(store, 1, 0);
    db.insert_raw(Col::AccountSmtLeaf, &key, &[42u8]).unwrap();
    db.delete(Col::AccountSmtLeaf, &key).unwrap();
    assert_eq!(db.get(Col::AccountSmtLeaf, &key), None);
}

#[test]
fn same_version_writes_last_wins() {
    let store = StoreTransaction::new();
    let key = [4u8; 32];
    let mut db = db_at(store, 1, 1);
    db.insert_raw(Col::Script, &key, &[1u8]).unwrap();
    db.insert_raw(Col::Script, &key, &[2u8]).unwrap();
    assert_eq!(db.get(Col::Script, &key), Some(vec![2u8]));
}

#[test]
fn version_resolution() {
    let mut store = StoreTransaction::new();
    store.insert_block(BlockRecord { block_hash: h(10), number: 4, tx_count: 3 });

    let db = StateDBTransaction::from_version(store, StateDBVersion::from_genesis()).unwrap();
    assert_eq!(db.block_num, 0);
    assert_eq!(db.tx_index, 0);
    let store = db.into_inner();

    // defaults to "after all transactions in the block"
    let db = StateDBTransaction::from_version(store, StateDBVersion::from_block_hash(h(10)))
        .unwrap();
    assert_eq!(db.block_num, 4);
    assert_eq!(db.tx_index, 3);
    let store = db.into_inner();

    let db = StateDBTransaction::from_version(store, StateDBVersion::from_tx_index(h(10), 1))
        .unwrap();
    assert_eq!(db.block_num, 4);
    assert_eq!(db.tx_index, 1);
    let store = db.into_inner();

    // out-of-range transaction index
    let err = StateDBTransaction::from_version(store, StateDBVersion::from_tx_index(h(10), 3));
    assert!(matches!(err, Err(rollup_core::error::Error::VersionNotFound)));

    let mut store = StoreTransaction::new();
    store.insert_block(BlockRecord { block_hash: h(10), number: 4, tx_count: 3 });
    let err = StateDBTransaction::from_version(store, StateDBVersion::from_block_hash(h(11)));
    assert!(matches!(err, Err(rollup_core::error::Error::VersionNotFound)));
}

#[test]
fn genesis_version_flag() {
    assert!(StateDBVersion::from_genesis().is_genesis_version());
    assert!(!StateDBVersion::from_block_hash(h(1)).is_genesis_version());
    assert!(!StateDBVersion::from_tx_index(h(1), 0).is_genesis_version());
}

#[test]
fn clear_account_state_tree_erases_everything() {
    let store = StoreTransaction::new();
    let db = db_at(store, 1, 0);
    let mut tree = db.account_state_tree().unwrap();
    tree.update_raw(h(1), h(100)).unwrap();
    tree.update_raw(h(2), h(200)).unwrap();
    tree.set_account_count(5).unwrap();
    tree.submit_tree().unwrap();
    let mut db = tree.into_db();

    db.clear_account_state_tree().unwrap();
    assert_eq!(db.inner.account_count, 0);
    assert!(db.inner.smt_root == H256::zero());
    let mut tree = db.account_state_tree().unwrap();
    assert!(tree.leaves.is_empty());
    assert!(tree.get_raw(&h(1)).unwrap() == H256::zero());
}
