//! The transaction admission verifier.
//!
//! Every check that must pass before a transaction may be executed or
//! included in a block, short-circuiting on the first failure: serialized
//! size, chain id, exact nonce, balance against the typed cost, and — for
//! contract calls — intrinsic gas.  No signature check, and no state
//! mutation.

use vstd::prelude::*;
use vstd::bytes::{
    spec_u128_from_le_bytes, spec_u32_from_le_bytes, spec_u64_from_le_bytes, u128_from_le_bytes,
    u32_from_le_bytes, u64_from_le_bytes,
};
use vstd::slice::slice_subrange;

use crate::account::{
    spec_nonce_of, spec_registry_addr_of, spec_script_hash_of, spec_sudt_balance_of,
    ETH_REGISTRY_ACCOUNT_ID,
};
use crate::error::{AccountError, IntrinsicGasError, TransactionError, TransactionValidateError};
use crate::generator::L2Transaction;
use crate::h256::H256;
use crate::state_tree::StateTree;
use crate::store::Entry;

verus! {

/// The fixed maximum serialized transaction size.
pub const MAX_TX_SIZE: usize = 50_000;

/// Serialization overhead of a transaction besides its arguments and its
/// signature.
pub const TX_BASE_SIZE: usize = 72;

/// Base intrinsic gas of a contract call.
pub const BASE_TX_GAS: u64 = 21_000;

/// Intrinsic gas per byte of call data.
pub const DATA_GAS_PER_BYTE: u64 = 16;

/// The rollup's configuration as the verifier needs it: the chain id, the
/// fee token, and the code hashes that classify target scripts.
#[derive(Clone, Copy, PartialEq, Eq, Structural, Debug)]
pub struct RollupContext {
    pub chain_id: u64,
    pub ckb_token_id: H256,
    pub meta_contract_code_hash: H256,
    pub sudt_contract_code_hash: H256,
    pub polyjuice_code_hash: H256,
}

/// What kind of account a transaction targets.
#[derive(Clone, Copy, PartialEq, Eq, Structural, Debug)]
pub enum TxType {
    Meta,
    SimpleUDT,
    Polyjuice,
}

/// The serialized size of a transaction.
pub open spec fn spec_tx_size(tx: L2Transaction) -> int {
    TX_BASE_SIZE + tx.raw.args@.len() + tx.signature@.len()
}

/// A parsed contract-call payload.
#[derive(Clone, Copy, PartialEq, Eq, Structural, Debug)]
pub struct PolyjuiceArgs {
    pub gas_limit: u64,
    pub gas_price: u128,
    pub value: u128,
    pub data_len: u32,
}

/// The leading magic of a contract-call payload.
pub open spec fn poly_magic_ok(args: Seq<u8>) -> bool {
    &&& args[0] == 0xffu8
    &&& args[1] == 0xffu8
    &&& args[2] == 0xffu8
    &&& args[3] == 0x50u8
    &&& args[4] == 0x4fu8
    &&& args[5] == 0x4cu8
    &&& args[6] == 0x59u8
    &&& args[7] == 0x00u8
}

/// The contract-call payload a byte string denotes: an 8-byte magic, the
/// gas limit, the gas price, the transferred value, and the length-prefixed
/// call data, with no trailing bytes.
pub open spec fn spec_parse_polyjuice(args: Seq<u8>) -> Option<PolyjuiceArgs> {
    if args.len() >= 52 && poly_magic_ok(args) && args.len() == 52 + spec_u32_from_le_bytes(
        args.subrange(48, 52),
    ) {
        Option::Some(
            PolyjuiceArgs {
                gas_limit: spec_u64_from_le_bytes(args.subrange(8, 16)),
                gas_price: spec_u128_from_le_bytes(args.subrange(16, 32)),
                value: spec_u128_from_le_bytes(args.subrange(32, 48)),
                data_len: spec_u32_from_le_bytes(args.subrange(48, 52)),
            },
        )
    } else {
        Option::None
    }
}

/// Parses a contract-call payload.
pub fn parse_polyjuice_args(args: &Vec<u8>) -> (r: Option<PolyjuiceArgs>)
    ensures
        r == spec_parse_polyjuice(args@),
{
    if args.len() < 52 {
        return Option::None;
    }
    let magic_ok = args[0] == 0xffu8 && args[1] == 0xffu8 && args[2] == 0xffu8
        && args[3] == 0x50u8 && args[4] == 0x4fu8 && args[5] == 0x4cu8 && args[6] == 0x59u8
        && args[7] == 0x00u8;
    if !magic_ok {
        return Option::None;
    }
    let data_len = u32_from_le_bytes(slice_subrange(args.as_slice(), 48, 52));
    if (args.len() as u64) != 52u64 + (data_len as u64) {
        return Option::None;
    }
    let gas_limit = u64_from_le_bytes(slice_subrange(args.as_slice(), 8, 16));
    let gas_price = u128_from_le_bytes(slice_subrange(args.as_slice(), 16, 32));
    let value = u128_from_le_bytes(slice_subrange(args.as_slice(), 32, 48));
    Option::Some(PolyjuiceArgs { gas_limit, gas_price, value, data_len })
}

/// The intrinsic gas a contract call must declare: a base cost plus a cost
/// per byte of call data; `None` when the computation overflows.
pub open spec fn spec_intrinsic_gas(p: PolyjuiceArgs) -> Option<u64> {
    if BASE_TX_GAS + p.data_len * DATA_GAS_PER_BYTE > u64::MAX {
        Option::None
    } else {
        Option::Some((BASE_TX_GAS + p.data_len * DATA_GAS_PER_BYTE) as u64)
    }
}

/// Computes a contract call's intrinsic gas.
pub fn intrinsic_gas(p: &PolyjuiceArgs) -> (r: Option<u64>)
    ensures
        r == spec_intrinsic_gas(*p),
{
    let per_data: u64 = (p.data_len as u64) * DATA_GAS_PER_BYTE;
    proof {
        assert((p.data_len as u64) * DATA_GAS_PER_BYTE <= 0xFFFF_FFFFu64 * 16)
            by (nonlinear_arith)
            requires
                p.data_len <= 0xFFFF_FFFFu32,
        ;
    }
    if per_data > u64::MAX - BASE_TX_GAS {
        Option::None
    } else {
        Option::Some(BASE_TX_GAS + per_data)
    }
}

/// The transfer payload of a token transaction: fee, amount, receiver.
pub open spec fn spec_parse_sudt(args: Seq<u8>) -> Option<(u128, u128)> {
    if args.len() == 52 {
        Option::Some(
            (
                spec_u128_from_le_bytes(args.subrange(0, 16)),
                spec_u128_from_le_bytes(args.subrange(16, 32)),
            ),
        )
    } else {
        Option::None
    }
}

/// The fee payload of a meta-contract transaction.
pub open spec fn spec_parse_meta(args: Seq<u8>) -> Option<u128> {
    if args.len() == 16 {
        Option::Some(spec_u128_from_le_bytes(args.subrange(0, 16)))
    } else {
        Option::None
    }
}

/// The typed cost of a transaction: what admitting it commits the sender
/// to.  `None` when the payload does not parse or the sum overflows — such
/// a transaction has no defined cost and is rejected.
pub open spec fn spec_tx_cost(tx_type: TxType, args: Seq<u8>) -> Option<u128> {
    match tx_type {
        TxType::Meta => spec_parse_meta(args),
        TxType::SimpleUDT => match spec_parse_sudt(args) {
            Option::Some((fee, amount)) => {
                if fee + amount > u128::MAX {
                    Option::None
                } else {
                    Option::Some((fee + amount) as u128)
                }
            },
            Option::None => Option::None,
        },
        TxType::Polyjuice => match spec_parse_polyjuice(args) {
            Option::Some(p) => {
                if p.gas_limit * p.gas_price + p.value > u128::MAX {
                    Option::None
                } else {
                    Option::Some((p.gas_limit * p.gas_price + p.value) as u128)
                }
            },
            Option::None => Option::None,
        },
    }
}

/// Computes a transaction's typed cost.
pub fn tx_cost(tx_type: TxType, args: &Vec<u8>) -> (r: Option<u128>)
    ensures
        r == spec_tx_cost(tx_type, args@),
{
    match tx_type {
        TxType::Meta => {
            if args.len() == 16 {
                Option::Some(u128_from_le_bytes(slice_subrange(args.as_slice(), 0, 16)))
            } else {
                Option::None
            }
        },
        TxType::SimpleUDT => {
            if args.len() == 52 {
                let fee = u128_from_le_bytes(slice_subrange(args.as_slice(), 0, 16));
                let amount = u128_from_le_bytes(slice_subrange(args.as_slice(), 16, 32));
                if amount > u128::MAX - fee {
                    Option::None
                } else {
                    Option::Some(fee + amount)
                }
            } else {
                Option::None
            }
        },
        TxType::Polyjuice => {
            match parse_polyjuice_args(args) {
                Option::Some(p) => {
                    let gas_total = (p.gas_limit as u128).checked_mul(p.gas_price);
                    match gas_total {
                        Option::Some(g) => {
                            proof {
                                assert(g == p.gas_limit * p.gas_price);
                            }
                            if p.value > u128::MAX - g {
                                Option::None
                            } else {
                                Option::Some(g + p.value)
                            }
                        },
                        Option::None => {
                            proof {
                                assert(p.gas_limit * p.gas_price > u128::MAX);
                            }
                            Option::None
                        },
                    }
                },
                Option::None => Option::None,
            }
        },
    }
}

/// The type of the account a transaction targets, from its script's code
/// hash; `None` when the target has no script or an unknown one.
pub open spec fn spec_tx_type(
    rollup: RollupContext,
    m: Map<H256, H256>,
    script_col: Seq<Entry>,
    v: int,
    to_id: u32,
) -> Option<TxType> {
    let sh = spec_script_hash_of(m, to_id);
    match crate::code_store::spec_script_of(script_col, v, sh) {
        Option::Some((code_hash, _hash_type, _args)) => {
            if code_hash == rollup.meta_contract_code_hash {
                Option::Some(TxType::Meta)
            } else if code_hash == rollup.sudt_contract_code_hash {
                Option::Some(TxType::SimpleUDT)
            } else if code_hash == rollup.polyjuice_code_hash {
                Option::Some(TxType::Polyjuice)
            } else {
                Option::None
            }
        },
        Option::None => Option::None,
    }
}

/// The whole admission decision, checks in order, first failure wins.
pub open spec fn verify_spec(
    rollup: RollupContext,
    m: Map<H256, H256>,
    script_col: Seq<Entry>,
    v: int,
    tx: L2Transaction,
) -> Result<(), TransactionValidateError> {
    let from_id = tx.raw.from_id;
    if spec_tx_size(tx) > MAX_TX_SIZE {
        Result::Err(
            TransactionValidateError::Transaction(
                TransactionError::ExceededMaxTxSize {
                    max_size: MAX_TX_SIZE,
                    tx_size: if spec_tx_size(tx) > usize::MAX {
                        usize::MAX
                    } else {
                        spec_tx_size(tx) as usize
                    },
                },
            ),
        )
    } else if tx.raw.chain_id != rollup.chain_id {
        Result::Err(
            TransactionValidateError::Transaction(
                TransactionError::InvalidChainId {
                    expected: rollup.chain_id,
                    actual: tx.raw.chain_id,
                },
            ),
        )
    } else if tx.raw.nonce != spec_nonce_of(m, from_id) {
        Result::Err(
            TransactionValidateError::Transaction(
                TransactionError::Nonce {
                    expected: spec_nonce_of(m, from_id),
                    actual: tx.raw.nonce,
                    account_id: from_id,
                },
            ),
        )
    } else {
        let sender_script_hash = spec_script_hash_of(m, from_id);
        match spec_registry_addr_of(m, ETH_REGISTRY_ACCOUNT_ID, sender_script_hash) {
            Option::None => Result::Err(
                TransactionValidateError::Account(AccountError::RegistryAddressNotFound),
            ),
            Option::Some(sender_address) => {
                let balance = spec_sudt_balance_of(m, rollup.ckb_token_id, sender_address);
                match spec_tx_type(rollup, m, script_col, v, tx.raw.to_id) {
                    Option::None => Result::Err(
                        TransactionValidateError::Account(AccountError::UnknownScript),
                    ),
                    Option::Some(tx_type) => match spec_tx_cost(tx_type, tx.raw.args@) {
                        Option::None => Result::Err(
                            TransactionValidateError::Transaction(TransactionError::NoCost),
                        ),
                        Option::Some(cost) => {
                            if balance < cost {
                                Result::Err(
                                    TransactionValidateError::Transaction(
                                        TransactionError::InsufficientBalance,
                                    ),
                                )
                            } else if tx_type == TxType::Polyjuice {
                                match spec_parse_polyjuice(tx.raw.args@) {
                                    Option::None => Result::Err(
                                        TransactionValidateError::Transaction(
                                            TransactionError::IntrinsicGas(
                                                IntrinsicGasError::Parse,
                                            ),
                                        ),
                                    ),
                                    Option::Some(p) => match spec_intrinsic_gas(p) {
                                        Option::None => Result::Err(
                                            TransactionValidateError::Transaction(
                                                TransactionError::IntrinsicGas(
                                                    IntrinsicGasError::Computation,
                                                ),
                                            ),
                                        ),
                                        Option::Some(ig) => {
                                            if p.gas_limit < ig {
                                                Result::Err(
                                                    TransactionValidateError::Transaction(
                                                        TransactionError::IntrinsicGas(
                                                            IntrinsicGasError::Insufficient,
                                                        ),
                                                    ),
                                                )
                                            } else {
                                                Result::Ok(())
                                            }
                                        },
                                    },
                                }
                            } else {
                                Result::Ok(())
                            }
                        },
                    },
                }
            },
        }
    }
}

/// The transaction verifier: read-only against state, no signature check.
pub struct TransactionVerifier {
    pub rollup_context: RollupContext,
}

impl TransactionVerifier {
    pub fn new(rollup_context: RollupContext) -> (r: TransactionVerifier)
        ensures
            r.rollup_context == rollup_context,
    {
        TransactionVerifier { rollup_context }
    }

    /// Verifies a transaction against the current state: size, chain id,
    /// exact nonce, balance against the typed cost, and intrinsic gas for
    /// contract calls, in that order, short-circuiting on the first
    /// failure.  The state's leaves are untouched.
    pub fn verify(&self, state: &mut StateTree, tx: &L2Transaction) -> (r: Result<
        (),
        TransactionValidateError,
    >)
        requires
            old(state).wf(),
        ensures
            final(state).wf(),
            final(state).db == old(state).db,
            final(state).leaves == old(state).leaves,
            final(state).account_count == old(state).account_count,
            r == verify_spec(
                self.rollup_context,
                old(state).leaf_map(),
                old(state).db.inner.script_col@,
                old(state).db.version(),
                *tx,
            ),
    {
        let from_id: u32 = tx.raw.from_id;
        let args_len: u64 = tx.raw.args.len() as u64;
        let sig_len: u64 = tx.signature.len() as u64;
        let tx_size_wide: u128 = (TX_BASE_SIZE as u128) + (args_len as u128) + (sig_len as u128);
        if tx_size_wide > (MAX_TX_SIZE as u128) {
            let tx_size: usize = if tx_size_wide > (usize::MAX as u128) {
                usize::MAX
            } else {
                tx_size_wide as usize
            };
            return Result::Err(
                TransactionValidateError::Transaction(
                    TransactionError::ExceededMaxTxSize { max_size: MAX_TX_SIZE, tx_size },
                ),
            );
        }
        if tx.raw.chain_id != self.rollup_context.chain_id {
            return Result::Err(
                TransactionValidateError::Transaction(
                    TransactionError::InvalidChainId {
                        expected: self.rollup_context.chain_id,
                        actual: tx.raw.chain_id,
                    },
                ),
            );
        }
        let account_nonce = match state.get_nonce(from_id) {
            Result::Ok(n) => n,
            Result::Err(_) => {
                return Result::Err(
                    TransactionValidateError::Account(AccountError::RegistryAddressNotFound),
                );
            },
        };
        if tx.raw.nonce != account_nonce {
            return Result::Err(
                TransactionValidateError::Transaction(
                    TransactionError::Nonce {
                        expected: account_nonce,
                        actual: tx.raw.nonce,
                        account_id: from_id,
                    },
                ),
            );
        }
        let sender_script_hash = match state.get_script_hash(from_id) {
            Result::Ok(h) => h,
            Result::Err(_) => {
                return Result::Err(
                    TransactionValidateError::Account(AccountError::RegistryAddressNotFound),
                );
            },
        };
        let sender_address = match state.get_registry_address_by_script_hash(
            ETH_REGISTRY_ACCOUNT_ID,
            &sender_script_hash,
        ) {
            Result::Ok(Option::Some(a)) => a,
            Result::Ok(Option::None) => {
                return Result::Err(
                    TransactionValidateError::Account(AccountError::RegistryAddressNotFound),
                );
            },
            Result::Err(_) => {
                return Result::Err(
                    TransactionValidateError::Account(AccountError::RegistryAddressNotFound),
                );
            },
        };
        let ckb_token = self.rollup_context.ckb_token_id;
        let balance = match state.get_sudt_balance(&ckb_token, &sender_address) {
            Result::Ok(b) => b,
            Result::Err(_) => {
                return Result::Err(
                    TransactionValidateError::Account(AccountError::RegistryAddressNotFound),
                );
            },
        };
        let to_script_hash = match state.get_script_hash(tx.raw.to_id) {
            Result::Ok(h) => h,
            Result::Err(_) => {
                return Result::Err(
                    TransactionValidateError::Account(AccountError::UnknownScript),
                );
            },
        };
        let tx_type = match state.get_script(&to_script_hash) {
            Option::Some(script) => {
                if script.code_hash == self.rollup_context.meta_contract_code_hash {
                    TxType::Meta
                } else if script.code_hash == self.rollup_context.sudt_contract_code_hash {
                    TxType::SimpleUDT
                } else if script.code_hash == self.rollup_context.polyjuice_code_hash {
                    TxType::Polyjuice
                } else {
                    return Result::Err(
                        TransactionValidateError::Account(AccountError::UnknownScript),
                    );
                }
            },
            Option::None => {
                return Result::Err(
                    TransactionValidateError::Account(AccountError::UnknownScript),
                );
            },
        };
        let cost = match tx_cost(tx_type, &tx.raw.args) {
            Option::Some(c) => c,
            Option::None => {
                return Result::Err(
                    TransactionValidateError::Transaction(TransactionError::NoCost),
                );
            },
        };
        if balance < cost {
            return Result::Err(
                TransactionValidateError::Transaction(TransactionError::InsufficientBalance),
            );
        }
        if tx_type == TxType::Polyjuice {
            let p = match parse_polyjuice_args(&tx.raw.args) {
                Option::Some(p) => p,
                Option::None => {
                    return Result::Err(
                        TransactionValidateError::Transaction(
                            TransactionError::IntrinsicGas(IntrinsicGasError::Parse),
                        ),
                    );
                },
            };
            let ig = match intrinsic_gas(&p) {
                Option::Some(g) => g,
                Option::None => {
                    return Result::Err(
                        TransactionValidateError::Transaction(
                            TransactionError::IntrinsicGas(IntrinsicGasError::Computation),
                        ),
                    );
                },
            };
            if p.gas_limit < ig {
                return Result::Err(
                    TransactionValidateError::Transaction(
                        TransactionError::IntrinsicGas(IntrinsicGasError::Insufficient),
                    ),
                );
            }
        }
        Result::Ok(())
    }
}

/// The verifier rejects a transaction whose nonce differs from the
/// sender's stored nonce — too low or too high alike — whenever the size
/// and chain-id checks pass.
pub proof fn lemma_verify_rejects_nonce_mismatch(
    rollup: RollupContext,
    m: Map<H256, H256>,
    script_col: Seq<Entry>,
    v: int,
    tx: L2Transaction,
)
    requires
        spec_tx_size(tx) <= MAX_TX_SIZE,
        tx.raw.chain_id == rollup.chain_id,
        tx.raw.nonce != spec_nonce_of(m, tx.raw.from_id),
    ensures
        verify_spec(rollup, m, script_col, v, tx) == Result::<(), TransactionValidateError>::Err(
            TransactionValidateError::Transaction(
                TransactionError::Nonce {
                    expected: spec_nonce_of(m, tx.raw.from_id),
                    actual: tx.raw.nonce,
                    account_id: tx.raw.from_id,
                },
            ),
        ),
{
}

/// The verifier rejects a transaction whose sender balance is below its
/// typed cost, even when size, chain id and nonce are all valid.
pub proof fn lemma_verify_rejects_insufficient_balance(
    rollup: RollupContext,
    m: Map<H256, H256>,
    script_col: Seq<Entry>,
    v: int,
    tx: L2Transaction,
    sender_address: crate::account::RegistryAddress,
    tx_type: TxType,
    cost: u128,
)
    requires
        spec_tx_size(tx) <= MAX_TX_SIZE,
        tx.raw.chain_id == rollup.chain_id,
        tx.raw.nonce == spec_nonce_of(m, tx.raw.from_id),
        spec_registry_addr_of(m, ETH_REGISTRY_ACCOUNT_ID, spec_script_hash_of(m, tx.raw.from_id))
            == Option::Some(sender_address),
        spec_tx_type(rollup, m, script_col, v, tx.raw.to_id) == Option::Some(tx_type),
        spec_tx_cost(tx_type, tx.raw.args@) == Option::Some(cost),
        spec_sudt_balance_of(m, rollup.ckb_token_id, sender_address) < cost,
    ensures
        verify_spec(rollup, m, script_col, v, tx) == Result::<(), TransactionValidateError>::Err(
            TransactionValidateError::Transaction(TransactionError::InsufficientBalance),
        ),
{
}

} // verus!
