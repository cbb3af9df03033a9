//! State-tree root determinism, zero-value semantics, and the code store.

use rollup_core::code_store::Script;
use rollup_core::h256::H256;
use rollup_core::state_db::StateDBTransaction;
use rollup_core::state_tree::StateTree;
use rollup_core::store::StoreTransaction;

fn h(n: u64) -> H256 {
    H256 { w0: n, w1: 0, w2: 0, w3: 0 }
}

fn fresh_tree() -> StateTree {
    let store = StoreTransaction::new();
    let db = StateDBTransaction { inner: store, block_num: 1, tx_index: 0 };
    db.account_state_tree().unwrap()
}

#[test]
fn root_is_deterministic_across_update_order() {
    let mut a = fresh_tree();
    a.update_raw(h(1), h(10)).unwrap();
    a.update_raw(h(2), h(20)).unwrap();
    a.update_raw(h(3), h(30)).unwrap();

    let mut b = fresh_tree();
    b.update_raw(h(3), h(30)).unwrap();
    b.update_raw(h(1), h(11)).unwrap();
    b.update_raw(h(2), h(20)).unwrap();
    b.update_raw(h(1), h(10)).unwrap();

    assert!(a.calculate_root().unwrap() == b.calculate_root().unwrap());
    // consistent after interleaved reads, and stable when nothing changes
    assert!(a.get_raw(&h(2)).unwrap() == h(20));
    assert!(a.calculate_root().unwrap() == b.calculate_root().unwrap());
}

#[test]
fn root_depends_on_leaves() {
    let mut empty = fresh_tree();
    assert!(empty.calculate_root().unwrap() == H256::zero());

    let mut one = fresh_tree();
    one.update_raw(h(1), h(1)).unwrap();
    let r1 = one.calculate_root().unwrap();
    assert!(r1 != H256::zero());

    let mut two = fresh_tree();
    two.update_raw(h(1), h(2)).unwrap();
    let r2 = two.calculate_root().unwrap();
    assert!(r1 != r2);

    let _ = empty.get_raw(&h(1));
}

#[test]
fn unwritten_keys_read_zero_and_zero_update_removes() {
    let mut tree = fresh_tree();
    assert!(tree.get_raw(&h(77)).unwrap() == H256::zero());

    tree.update_raw(h(77), h(5)).unwrap();
    assert!(tree.get_raw(&h(77)).unwrap() == h(5));

    tree.update_raw(h(77), H256::zero()).unwrap();
    assert!(tree.get_raw(&h(77)).unwrap() == H256::zero());

    // the key is absent from a reconstructed leaf enumeration
    let db = tree.into_db();
    let rebuilt = db.account_state_tree().unwrap();
    assert!(rebuilt.leaves.iter().all(|(k, _)| *k != h(77)));
    assert!(rebuilt.leaves.is_empty());
}

#[test]
fn reconstruction_matches_writes() {
    let mut tree = fresh_tree();
    tree.update_raw(h(1), h(10)).unwrap();
    tree.update_raw(h(2), h(20)).unwrap();
    tree.update_raw(h(2), h(21)).unwrap();
    let root = tree.calculate_root().unwrap();
    let db = tree.into_db();

    let mut rebuilt = db.account_state_tree().unwrap();
    assert!(rebuilt.get_raw(&h(1)).unwrap() == h(10));
    assert!(rebuilt.get_raw(&h(2)).unwrap() == h(21));
    assert_eq!(rebuilt.leaves.len(), 2);
    assert!(rebuilt.calculate_root().unwrap() == root);
}

#[test]
fn submit_tree_persists_root_and_count() {
    let mut tree = fresh_tree();
    tree.update_raw(h(1), h(10)).unwrap();
    tree.set_account_count(3).unwrap();
    let root = tree.calculate_root().unwrap();
    tree.submit_tree().unwrap();
    let db = tree.into_db();
    assert!(db.inner.smt_root == root);
    assert_eq!(db.inner.account_count, 3);
}

#[test]
fn tracker_records_touched_keys() {
    let mut tree = fresh_tree();
    assert!(tree.tracker_mut().touched_keys().is_none());
    tree.tracker_mut().enable();
    let _ = tree.get_raw(&h(8)).unwrap();
    tree.update_raw(h(9), h(1)).unwrap();
    let touched = tree.tracker_mut().touched_keys().unwrap().clone();
    assert!(touched.contains(&h(8)));
    assert!(touched.contains(&h(9)));
}

#[test]
fn script_store_round_trip() {
    let mut tree = fresh_tree();
    let script_hash = h(1000);
    let script = Script { code_hash: h(55), hash_type: 1, args: vec![9u8, 8, 7] };
    tree.insert_script(script_hash, script);
    let got = tree.get_script(&script_hash).unwrap();
    assert!(got.code_hash == h(55));
    assert_eq!(got.hash_type, 1);
    assert_eq!(got.args, vec![9u8, 8, 7]);
    assert!(tree.get_script(&h(1001)).is_none());
}

#[test]
fn data_store_round_trip() {
    let mut tree = fresh_tree();
    let data_hash = h(2000);
    tree.insert_data(data_hash, vec![1u8, 2, 3, 4]);
    assert_eq!(tree.get_data(&data_hash), Some(vec![1u8, 2, 3, 4]));
    assert_eq!(tree.get_data(&h(2001)), None);
}

#[test]
fn h256_packings_round_trip() {
    let v: u128 = 0x0123_4567_89ab_cdef_0011_2233_4455_6677;
    assert_eq!(H256::from_u128(v).to_u128(), v);
    assert_eq!(H256::from_u32(0xdead_beef).to_u32(), 0xdead_beef);
    let k1 = rollup_core::h256::build_account_key(1, 1);
    let k2 = rollup_core::h256::build_account_key(1, 2);
    let k3 = rollup_core::h256::build_account_key(2, 1);
    assert!(k1 != k2 && k1 != k3 && k2 != k3);
}
