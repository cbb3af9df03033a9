//! Typed errors of the state store, the execution engine and the verifier.

use vstd::prelude::*;

verus! {

/// Errors of the versioned store, of state application and of execution.
#[derive(Clone, Copy, PartialEq, Eq, Structural, Debug)]
pub enum Error {
    /// A version could not be resolved to a `(block_number, tx_index)` pair:
    /// unknown block hash, or out-of-range transaction index.
    VersionNotFound,
    /// A transaction's nonce differs from the sender's stored nonce.
    Nonce { expected: u32, actual: u32 },
    /// The virtual machine finished with a non-zero exit code.
    InvalidExitCode(i8),
    /// A balance update overflowed the 128-bit amount range.
    AmountOverflow,
}

/// Which step of the intrinsic-gas check failed.
#[derive(Clone, Copy, PartialEq, Eq, Structural, Debug)]
pub enum IntrinsicGasError {
    /// The contract-call payload could not be parsed.
    Parse,
    /// The intrinsic gas requirement overflowed while being computed.
    Computation,
    /// The declared gas limit is below the intrinsic gas requirement.
    Insufficient,
}

/// Transaction admission errors.
#[derive(Clone, Copy, PartialEq, Eq, Structural, Debug)]
pub enum TransactionError {
    /// The serialized transaction exceeds the fixed maximum size.
    ExceededMaxTxSize { max_size: usize, tx_size: usize },
    /// The chain id embedded in the transaction differs from the rollup's.
    InvalidChainId { expected: u64, actual: u64 },
    /// The transaction's nonce differs from the sender's stored nonce.
    Nonce { expected: u32, actual: u32, account_id: u32 },
    /// The sender's token balance is below the transaction's cost.
    InsufficientBalance,
    /// The transaction has no defined cost and cannot be admitted.
    NoCost,
    /// The intrinsic-gas check of a contract-call transaction failed.
    IntrinsicGas(IntrinsicGasError),
}

/// Account resolution errors met during verification.
#[derive(Clone, Copy, PartialEq, Eq, Structural, Debug)]
pub enum AccountError {
    /// The sender's script hash maps to no registry address.
    RegistryAddressNotFound,
    /// The target account's script matches no known script type.
    UnknownScript,
}

/// Everything the transaction verifier can reject a transaction with.
#[derive(Clone, Copy, PartialEq, Eq, Structural, Debug)]
pub enum TransactionValidateError {
    Transaction(TransactionError),
    Account(AccountError),
}

} // verus!
