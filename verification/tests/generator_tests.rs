//! Execution-engine and block-application behaviour.

use rollup_core::account::RegistryAddress;
use rollup_core::error::Error;
use rollup_core::generator::{
    get_block_info, BlockInfo, CallContext, DepositionRequest, ExecutionTrace, Generator,
    L2Block, L2Transaction, RawL2Block, RawL2Transaction, StateTransitionArgs, SyscallEvent,
};
use rollup_core::h256::{build_account_key, serialize_nonce, H256, GW_ACCOUNT_NONCE};
use rollup_core::state_db::StateDBTransaction;
use rollup_core::state_tree::StateTree;
use rollup_core::store::StoreTransaction;

fn h(n: u64) -> H256 {
    H256 { w0: n, w1: 0, w2: 0, w3: 0 }
}

fn fresh_tree() -> StateTree {
    let store = StoreTransaction::new();
    let db = StateDBTransaction { inner: store, block_num: 1, tx_index: 0 };
    db.account_state_tree().unwrap()
}

fn block_info() -> BlockInfo {
    BlockInfo { aggregator_id: 0, number: 1, timestamp: 100 }
}

fn ctx(from_id: u32) -> CallContext {
    CallContext { from_id, to_id: 0, args: Vec::new() }
}

#[test]
fn execute_increments_nonce_even_when_program_ignores_it() {
    let mut state = fresh_tree();
    let nonce_key = build_account_key(5, GW_ACCOUNT_NONCE);
    state.update_raw(nonce_key, serialize_nonce(7)).unwrap();

    let generator = Generator::new(());
    let trace = ExecutionTrace { events: Vec::new(), exit_code: 0 };
    let rr = generator.execute(&mut state, &block_info(), &ctx(5), &trace).unwrap();

    assert!(rr.write_values.iter().any(|(k, v)| *k == nonce_key && *v == serialize_nonce(8)));
    assert!(rr.read_values.iter().any(|(k, v)| *k == nonce_key && *v == serialize_nonce(7)));
}

#[test]
fn execute_overwrites_program_written_nonce() {
    let mut state = fresh_tree();
    let nonce_key = build_account_key(5, GW_ACCOUNT_NONCE);
    state.update_raw(nonce_key, serialize_nonce(7)).unwrap();

    let generator = Generator::new(());
    let trace = ExecutionTrace {
        events: vec![SyscallEvent::WriteState { key: nonce_key, value: serialize_nonce(99) }],
        exit_code: 0,
    };
    let rr = generator.execute(&mut state, &block_info(), &ctx(5), &trace).unwrap();
    assert!(rr.write_values.iter().any(|(k, v)| *k == nonce_key && *v == serialize_nonce(8)));
    assert!(!rr.write_values.iter().any(|(k, v)| *k == nonce_key && *v == serialize_nonce(99)));
}

#[test]
fn execute_rejects_non_zero_exit_code() {
    let mut state = fresh_tree();
    let generator = Generator::new(());
    let trace = ExecutionTrace { events: Vec::new(), exit_code: 3 };
    let r = generator.execute(&mut state, &block_info(), &ctx(5), &trace);
    assert!(matches!(r, Err(Error::InvalidExitCode(3))));
}

#[test]
fn execute_captures_first_read_pre_image_and_last_write() {
    let mut state = fresh_tree();
    state.update_raw(h(40), h(4)).unwrap();
    let generator = Generator::new(());
    let trace = ExecutionTrace {
        events: vec![
            SyscallEvent::ReadState { key: h(40) },
            SyscallEvent::WriteState { key: h(40), value: h(5) },
            SyscallEvent::ReadState { key: h(40) },
            SyscallEvent::WriteState { key: h(40), value: h(6) },
            SyscallEvent::EmitLog { data: vec![1u8, 2] },
        ],
        exit_code: 0,
    };
    let rr = generator.execute(&mut state, &block_info(), &ctx(5), &trace).unwrap();
    // the recorded pre-image is the state value, not a later pending write
    assert!(rr.read_values.iter().any(|(k, v)| *k == h(40) && *v == h(4)));
    assert!(rr.write_values.iter().any(|(k, v)| *k == h(40) && *v == h(6)));
    assert_eq!(rr.logs, vec![vec![1u8, 2]]);
    // the state tree itself is untouched
    assert!(state.get_raw(&h(40)).unwrap() == h(4));
}

#[test]
fn deposits_credit_and_create_accounts() {
    let mut state = fresh_tree();
    let addr = RegistryAddress { a0: 0xabcd, a1: 0, a2: 7 };
    let token = h(900);
    let reqs = vec![DepositionRequest {
        pubkey_hash: addr,
        account_id: 1,
        token_id: token,
        value: 100,
    }];
    state.apply_deposition_requests(&reqs).unwrap();
    assert_eq!(state.get_account_count().unwrap(), 2);
    assert_eq!(state.get_sudt_balance(&token, &addr).unwrap(), 100);
    let sh = state.get_script_hash(1).unwrap();
    assert!(sh != H256::zero());
    let got = state
        .get_registry_address_by_script_hash(rollup_core::account::ETH_REGISTRY_ACCOUNT_ID, &sh)
        .unwrap();
    assert_eq!(got, Some(addr));
}

#[test]
fn deposit_overflow_is_rejected() {
    let mut state = fresh_tree();
    let addr = RegistryAddress { a0: 1, a1: 2, a2: 3 };
    let token = h(900);
    let first = vec![DepositionRequest {
        pubkey_hash: addr,
        account_id: 1,
        token_id: token,
        value: u128::MAX,
    }];
    state.apply_deposition_requests(&first).unwrap();
    let second = vec![DepositionRequest {
        pubkey_hash: addr,
        account_id: 1,
        token_id: token,
        value: 1,
    }];
    let r = state.apply_deposition_requests(&second);
    assert!(matches!(r, Err(Error::AmountOverflow)));
}

fn transfer_block(tx_nonce: u32, valid: bool) -> (StateTransitionArgs, H256, RegistryAddress) {
    let addr = RegistryAddress { a0: 0x1111, a1: 0x2222, a2: 0x33 };
    let token = h(900);
    let balance_key = rollup_core::account::build_balance_key(&token, &addr);
    let raw = RawL2Transaction {
        chain_id: 1,
        from_id: 1,
        to_id: 2,
        nonce: tx_nonce,
        args: Vec::new(),
    };
    let tx = L2Transaction { raw, signature: Vec::new() };
    let block = L2Block {
        raw: RawL2Block {
            number: 1,
            aggregator_id: 0,
            timestamp: 50,
            valid,
            submit_transactions: true,
        },
        transactions: vec![tx],
    };
    // the transfer program leaves 90 of the deposited 100 in place
    let trace = ExecutionTrace {
        events: vec![SyscallEvent::WriteState { key: balance_key, value: H256::from_u128(90) }],
        exit_code: 0,
    };
    let args = StateTransitionArgs {
        l2block: block,
        deposition_requests: vec![DepositionRequest {
            pubkey_hash: addr,
            account_id: 1,
            token_id: token,
            value: 100,
        }],
        tx_traces: vec![trace],
    };
    (args, token, addr)
}

#[test]
fn end_to_end_deposit_then_transfer() {
    let mut state = fresh_tree();
    let generator = Generator::new(());
    let (args, token, addr) = transfer_block(0, true);
    generator.apply_state_transition(&mut state, args).unwrap();

    assert_eq!(state.get_nonce(1).unwrap(), 1);
    assert_eq!(state.get_sudt_balance(&token, &addr).unwrap(), 90);
    let r1 = state.calculate_root().unwrap();
    let r2 = state.calculate_root().unwrap();
    assert!(r1 == r2);
}

#[test]
fn invalid_block_leaves_state_root_unchanged() {
    let mut state = fresh_tree();
    state.update_raw(h(1), h(10)).unwrap();
    let before = state.calculate_root().unwrap();

    let generator = Generator::new(());
    let (args, _token, _addr) = transfer_block(0, false);
    generator.apply_state_transition(&mut state, args).unwrap();

    assert!(state.calculate_root().unwrap() == before);
    assert_eq!(state.get_nonce(1).unwrap(), 0);
}

#[test]
fn apply_rejects_nonce_mismatch() {
    let mut state = fresh_tree();
    let generator = Generator::new(());
    let (args, _token, _addr) = transfer_block(5, true);
    let r = generator.apply_state_transition(&mut state, args);
    assert!(matches!(r, Err(Error::Nonce { expected: 0, actual: 5 })));
}

#[test]
fn apply_propagates_bad_exit_code() {
    let mut state = fresh_tree();
    let generator = Generator::new(());
    let (mut args, _token, _addr) = transfer_block(0, true);
    args.tx_traces[0].exit_code = -1;
    let r = generator.apply_state_transition(&mut state, args);
    assert!(matches!(r, Err(Error::InvalidExitCode(-1))));
}

#[test]
fn block_info_is_derived_from_the_header() {
    let raw = RawL2Block {
        number: 9,
        aggregator_id: 4,
        timestamp: 77,
        valid: true,
        submit_transactions: false,
    };
    let info = get_block_info(&raw);
    assert_eq!(info.number, 9);
    assert_eq!(info.aggregator_id, 4);
    assert_eq!(info.timestamp, 77);
}
