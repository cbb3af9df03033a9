//! Transaction-verifier behaviour: every check, in order.

use rollup_core::account::RegistryAddress;
use rollup_core::code_store::Script;
use rollup_core::error::{
    AccountError, IntrinsicGasError, TransactionError, TransactionValidateError,
};
use rollup_core::generator::{DepositionRequest, L2Transaction, RawL2Transaction};
use rollup_core::h256::{build_account_key, H256, GW_ACCOUNT_SCRIPT_HASH};
use rollup_core::state_db::StateDBTransaction;
use rollup_core::state_tree::StateTree;
use rollup_core::store::StoreTransaction;
use rollup_core::verification::{
    intrinsic_gas, parse_polyjuice_args, tx_cost, PolyjuiceArgs, RollupContext,
    TransactionVerifier, TxType, MAX_TX_SIZE,
};

fn h(n: u64) -> H256 {
    H256 { w0: n, w1: 0, w2: 0, w3: 0 }
}

fn rollup_context() -> RollupContext {
    RollupContext {
        chain_id: 1,
        ckb_token_id: h(900),
        meta_contract_code_hash: h(101),
        sudt_contract_code_hash: h(102),
        polyjuice_code_hash: h(103),
    }
}

/// Sender account 1 with balance 100, target account 2 running `code_hash`.
fn state_with_sender_and_target(code_hash: H256) -> StateTree {
    let store = StoreTransaction::new();
    let db = StateDBTransaction { inner: store, block_num: 1, tx_index: 0 };
    let mut state = db.account_state_tree().unwrap();
    let addr = RegistryAddress { a0: 0xaaaa, a1: 0xbbbb, a2: 0xcc };
    state
        .apply_deposition_requests(&vec![DepositionRequest {
            pubkey_hash: addr,
            account_id: 1,
            token_id: h(900),
            value: 100,
        }])
        .unwrap();
    let target_script_hash = h(5000);
    state
        .update_raw(build_account_key(2, GW_ACCOUNT_SCRIPT_HASH), target_script_hash)
        .unwrap();
    state.insert_script(target_script_hash, Script { code_hash, hash_type: 1, args: Vec::new() });
    state
}

fn sudt_args(fee: u128, amount: u128) -> Vec<u8> {
    let mut args = Vec::new();
    args.extend_from_slice(&fee.to_le_bytes());
    args.extend_from_slice(&amount.to_le_bytes());
    args.extend_from_slice(&[0u8; 20]);
    args
}

fn polyjuice_args(gas_limit: u64, gas_price: u128, value: u128, data: &[u8]) -> Vec<u8> {
    let mut args = vec![0xffu8, 0xff, 0xff, 0x50, 0x4f, 0x4c, 0x59, 0x00];
    args.extend_from_slice(&gas_limit.to_le_bytes());
    args.extend_from_slice(&gas_price.to_le_bytes());
    args.extend_from_slice(&value.to_le_bytes());
    args.extend_from_slice(&(data.len() as u32).to_le_bytes());
    args.extend_from_slice(data);
    args
}

fn tx(chain_id: u64, nonce: u32, args: Vec<u8>) -> L2Transaction {
    L2Transaction {
        raw: RawL2Transaction { chain_id, from_id: 1, to_id: 2, nonce, args },
        signature: Vec::new(),
    }
}

#[test]
fn accepts_a_well_formed_transfer() {
    let mut state = state_with_sender_and_target(h(102));
    let verifier = TransactionVerifier::new(rollup_context());
    let r = verifier.verify(&mut state, &tx(1, 0, sudt_args(10, 40)));
    assert_eq!(r, Ok(()));
}

#[test]
fn rejects_oversized_transaction() {
    let mut state = state_with_sender_and_target(h(102));
    let verifier = TransactionVerifier::new(rollup_context());
    let mut t = tx(1, 0, sudt_args(10, 40));
    t.signature = vec![0u8; MAX_TX_SIZE];
    let r = verifier.verify(&mut state, &t);
    assert!(matches!(
        r,
        Err(TransactionValidateError::Transaction(TransactionError::ExceededMaxTxSize { .. }))
    ));
}

#[test]
fn rejects_wrong_chain_id() {
    let mut state = state_with_sender_and_target(h(102));
    let verifier = TransactionVerifier::new(rollup_context());
    let r = verifier.verify(&mut state, &tx(7, 0, sudt_args(10, 40)));
    assert_eq!(
        r,
        Err(TransactionValidateError::Transaction(TransactionError::InvalidChainId {
            expected: 1,
            actual: 7,
        }))
    );
}

#[test]
fn rejects_nonce_too_high_and_too_low() {
    let mut state = state_with_sender_and_target(h(102));
    let verifier = TransactionVerifier::new(rollup_context());

    // stored nonce is 0; a nonce of 1 is too high
    let r = verifier.verify(&mut state, &tx(1, 1, sudt_args(10, 40)));
    assert_eq!(
        r,
        Err(TransactionValidateError::Transaction(TransactionError::Nonce {
            expected: 0,
            actual: 1,
            account_id: 1,
        }))
    );

    // raise the stored nonce to 2; a nonce of 1 is now too low
    state
        .update_raw(
            build_account_key(1, rollup_core::h256::GW_ACCOUNT_NONCE),
            rollup_core::h256::serialize_nonce(2),
        )
        .unwrap();
    let r = verifier.verify(&mut state, &tx(1, 1, sudt_args(10, 40)));
    assert_eq!(
        r,
        Err(TransactionValidateError::Transaction(TransactionError::Nonce {
            expected: 2,
            actual: 1,
            account_id: 1,
        }))
    );
}

#[test]
fn rejects_insufficient_balance() {
    let mut state = state_with_sender_and_target(h(102));
    let verifier = TransactionVerifier::new(rollup_context());
    // balance is 100; fee 10 + amount 95 costs 105
    let r = verifier.verify(&mut state, &tx(1, 0, sudt_args(10, 95)));
    assert_eq!(
        r,
        Err(TransactionValidateError::Transaction(TransactionError::InsufficientBalance))
    );
}

#[test]
fn rejects_sender_without_registry_address() {
    let store = StoreTransaction::new();
    let db = StateDBTransaction { inner: store, block_num: 1, tx_index: 0 };
    let mut state = db.account_state_tree().unwrap();
    let verifier = TransactionVerifier::new(rollup_context());
    let r = verifier.verify(&mut state, &tx(1, 0, sudt_args(0, 0)));
    assert_eq!(
        r,
        Err(TransactionValidateError::Account(AccountError::RegistryAddressNotFound))
    );
}

#[test]
fn rejects_unknown_target_script() {
    // the target's script names a code hash the rollup does not know
    let mut state = state_with_sender_and_target(h(999));
    let verifier = TransactionVerifier::new(rollup_context());
    let r = verifier.verify(&mut state, &tx(1, 0, sudt_args(10, 40)));
    assert_eq!(r, Err(TransactionValidateError::Account(AccountError::UnknownScript)));
}

#[test]
fn rejects_transaction_with_no_cost() {
    let mut state = state_with_sender_and_target(h(102));
    let verifier = TransactionVerifier::new(rollup_context());
    // a malformed transfer payload has no defined cost
    let r = verifier.verify(&mut state, &tx(1, 0, vec![1u8, 2, 3]));
    assert_eq!(r, Err(TransactionValidateError::Transaction(TransactionError::NoCost)));
}

#[test]
fn rejects_insufficient_intrinsic_gas() {
    let mut state = state_with_sender_and_target(h(103));
    let verifier = TransactionVerifier::new(rollup_context());
    // gas price zero keeps the cost below the balance; 20000 < 21000
    let r = verifier.verify(&mut state, &tx(1, 0, polyjuice_args(20_000, 0, 0, &[])));
    assert_eq!(
        r,
        Err(TransactionValidateError::Transaction(TransactionError::IntrinsicGas(
            IntrinsicGasError::Insufficient,
        )))
    );
}

#[test]
fn accepts_contract_call_with_enough_gas() {
    let mut state = state_with_sender_and_target(h(103));
    let verifier = TransactionVerifier::new(rollup_context());
    let r = verifier.verify(&mut state, &tx(1, 0, polyjuice_args(25_000, 0, 0, &[1, 2, 3])));
    assert_eq!(r, Ok(()));
}

#[test]
fn polyjuice_payload_parses_exactly() {
    let args = polyjuice_args(30_000, 5, 7, &[9, 9]);
    let p = parse_polyjuice_args(&args).unwrap();
    assert_eq!(
        p,
        PolyjuiceArgs { gas_limit: 30_000, gas_price: 5, value: 7, data_len: 2 }
    );
    // a corrupted magic fails the parse
    let mut bad = args.clone();
    bad[3] = 0x51;
    assert!(parse_polyjuice_args(&bad).is_none());
    // trailing bytes fail the parse
    let mut long = args;
    long.push(0);
    assert!(parse_polyjuice_args(&long).is_none());
}

#[test]
fn intrinsic_gas_formula() {
    let p = PolyjuiceArgs { gas_limit: 0, gas_price: 0, value: 0, data_len: 10 };
    assert_eq!(intrinsic_gas(&p), Some(21_000 + 160));
}

#[test]
fn typed_costs() {
    assert_eq!(tx_cost(TxType::SimpleUDT, &sudt_args(1, 2)), Some(3));
    let mut meta = Vec::new();
    meta.extend_from_slice(&42u128.to_le_bytes());
    assert_eq!(tx_cost(TxType::Meta, &meta), Some(42));
    assert_eq!(
        tx_cost(TxType::Polyjuice, &polyjuice_args(100, 3, 7, &[])),
        Some(307)
    );
    // an overflowing transfer has no defined cost
    assert_eq!(tx_cost(TxType::SimpleUDT, &sudt_args(u128::MAX, 1)), None);
}
