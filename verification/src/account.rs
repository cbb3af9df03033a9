//! Account-level views of the state tree: nonces, script hashes, registry
//! addresses, token balances, and deposit application.
//!
//! Fixed account fields live at keys packed from the account id and a field
//! tag; balance and registry-mapping keys pack more than 256 bits of naming
//! material and are derived through the 32-byte digest.

use vstd::prelude::*;
use vstd::bytes::{spec_u32_to_le_bytes, u32_to_le_bytes};

use crate::error::Error;
use crate::h256::{
    build_account_key, spec_account_key, H256, GW_ACCOUNT_NONCE, GW_ACCOUNT_SCRIPT_HASH,
};
use crate::hashing::{blake2b_256, blake2b_of, h256_from_le_bytes, h256_from_le_bytes_spec,
    h256_le_bytes, push_h256_le_bytes};
use crate::kvlist::state_value;
use crate::state_tree::StateTree;

verus! {

/// The built-in account id of the fee-token contract.
pub const CKB_SUDT_ACCOUNT_ID: u32 = 1;
/// The built-in account id of the address registry.
pub const ETH_REGISTRY_ACCOUNT_ID: u32 = 2;

/// Domain tag of derived balance keys.
pub const BALANCE_KEY_TAG: u8 = 101;
/// Domain tag of derived registry-mapping keys.
pub const REGISTRY_KEY_TAG: u8 = 102;

/// A 20-byte registry address, packed into two-and-a-half words.
#[derive(Clone, Copy, PartialEq, Eq, Structural, Debug, Hash)]
pub struct RegistryAddress {
    pub a0: u64,
    pub a1: u64,
    pub a2: u32,
}

/// The 20-byte encoding of a registry address.
pub open spec fn addr_bytes(a: RegistryAddress) -> Seq<u8> {
    vstd::bytes::spec_u64_to_le_bytes(a.a0) + vstd::bytes::spec_u64_to_le_bytes(a.a1)
        + spec_u32_to_le_bytes(a.a2)
}

/// A registry address stored as a state value; the marker word keeps the
/// stored value non-zero so presence is never conflated with absence.
pub open spec fn spec_addr_to_h256(a: RegistryAddress) -> H256 {
    H256 { w0: a.a0, w1: a.a1, w2: a.a2 as u64, w3: 1 }
}

pub fn addr_to_h256(a: &RegistryAddress) -> (r: H256)
    ensures
        r == spec_addr_to_h256(*a),
{
    H256 { w0: a.a0, w1: a.a1, w2: a.a2 as u64, w3: 1 }
}

/// The registry address a stored state value denotes.
pub open spec fn spec_h256_to_addr(h: H256) -> RegistryAddress {
    RegistryAddress { a0: h.w0, a1: h.w1, a2: (h.w2 % 0x1_0000_0000) as u32 }
}

pub fn h256_to_addr(h: &H256) -> (r: RegistryAddress)
    ensures
        r == spec_h256_to_addr(*h),
{
    RegistryAddress { a0: h.w0, a1: h.w1, a2: (h.w2 % 0x1_0000_0000) as u32 }
}

/// The script hash an account created by deposit gets: its registry address
/// with a marker word, non-zero by construction.
pub open spec fn spec_pubkey_script_hash(a: RegistryAddress) -> H256 {
    H256 { w0: a.a0, w1: a.a1, w2: a.a2 as u64, w3: 2 }
}

pub fn pubkey_script_hash(a: &RegistryAddress) -> (r: H256)
    ensures
        r == spec_pubkey_script_hash(*a),
        !r.spec_is_zero(),
{
    H256 { w0: a.a0, w1: a.a1, w2: a.a2 as u64, w3: 2 }
}

/// The state key of one holder's balance of one token.
pub open spec fn spec_balance_key(token_id: H256, a: RegistryAddress) -> H256 {
    h256_from_le_bytes_spec(
        blake2b_of(seq![BALANCE_KEY_TAG] + h256_le_bytes(token_id) + addr_bytes(a)),
    )
}

/// The state key of the registry mapping of one script hash.
pub open spec fn spec_registry_key(registry_id: u32, script_hash: H256) -> H256 {
    h256_from_le_bytes_spec(
        blake2b_of(
            seq![REGISTRY_KEY_TAG] + spec_u32_to_le_bytes(registry_id)
                + h256_le_bytes(script_hash),
        ),
    )
}

/// Appends a 20-byte registry address to a buffer.
fn push_addr_bytes(out: &mut Vec<u8>, a: &RegistryAddress)
    ensures
        final(out)@ == old(out)@ + addr_bytes(*a),
{
    let mut b0 = vstd::bytes::u64_to_le_bytes(a.a0);
    let mut b1 = vstd::bytes::u64_to_le_bytes(a.a1);
    let mut b2 = u32_to_le_bytes(a.a2);
    out.append(&mut b0);
    out.append(&mut b1);
    out.append(&mut b2);
    proof {
        assert(out@ =~= old(out)@ + addr_bytes(*a));
    }
}

/// Derives the balance key of one holder and token.
pub fn build_balance_key(token_id: &H256, a: &RegistryAddress) -> (r: H256)
    ensures
        r == spec_balance_key(*token_id, *a),
{
    let mut buf: Vec<u8> = Vec::new();
    buf.push(BALANCE_KEY_TAG);
    push_h256_le_bytes(&mut buf, token_id);
    push_addr_bytes(&mut buf, a);
    proof {
        assert(buf@ =~= seq![BALANCE_KEY_TAG] + h256_le_bytes(*token_id) + addr_bytes(*a));
    }
    let digest = blake2b_256(&buf);
    h256_from_le_bytes(digest.as_slice())
}

/// Derives the registry-mapping key of one script hash.
pub fn build_registry_key(registry_id: u32, script_hash: &H256) -> (r: H256)
    ensures
        r == spec_registry_key(registry_id, *script_hash),
{
    let mut buf: Vec<u8> = Vec::new();
    buf.push(REGISTRY_KEY_TAG);
    let mut b = u32_to_le_bytes(registry_id);
    buf.append(&mut b);
    push_h256_le_bytes(&mut buf, script_hash);
    proof {
        assert(buf@ =~= seq![REGISTRY_KEY_TAG] + spec_u32_to_le_bytes(registry_id)
            + h256_le_bytes(*script_hash));
    }
    let digest = blake2b_256(&buf);
    h256_from_le_bytes(digest.as_slice())
}

/// The nonce an account-state map stores for an account.
pub open spec fn spec_nonce_of(m: Map<H256, H256>, id: u32) -> u32 {
    state_value(m, spec_account_key(id, GW_ACCOUNT_NONCE)).spec_to_u32()
}

/// The script hash an account-state map stores for an account.
pub open spec fn spec_script_hash_of(m: Map<H256, H256>, id: u32) -> H256 {
    state_value(m, spec_account_key(id, GW_ACCOUNT_SCRIPT_HASH))
}

/// The registry address an account-state map stores for a script hash.
pub open spec fn spec_registry_addr_of(m: Map<H256, H256>, registry_id: u32, script_hash: H256)
    -> Option<RegistryAddress> {
    let v = state_value(m, spec_registry_key(registry_id, script_hash));
    if v.spec_is_zero() {
        Option::None
    } else {
        Option::Some(spec_h256_to_addr(v))
    }
}

/// The balance an account-state map stores for a holder and token.
pub open spec fn spec_sudt_balance_of(m: Map<H256, H256>, token_id: H256, a: RegistryAddress)
    -> u128 {
    state_value(m, spec_balance_key(token_id, a)).spec_to_u128()
}

impl StateTree {
    /// Reads an account's nonce.
    pub fn get_nonce(&mut self, id: u32) -> (r: Result<u32, Error>)
        requires
            old(self).wf(),
        ensures
            final(self).wf(),
            match r {
                Result::Ok(n) => n == spec_nonce_of(old(self).leaf_map(), id),
                Result::Err(_) => false,
            },
            final(self).db == old(self).db,
            final(self).leaves == old(self).leaves,
            final(self).account_count == old(self).account_count,
    {
        let key = build_account_key(id, GW_ACCOUNT_NONCE);
        match self.get_raw(&key) {
            Result::Ok(v) => Result::Ok(v.to_u32()),
            Result::Err(e) => Result::Err(e),
        }
    }

    /// Reads an account's script hash; zero when the account does not exist.
    pub fn get_script_hash(&mut self, id: u32) -> (r: Result<H256, Error>)
        requires
            old(self).wf(),
        ensures
            final(self).wf(),
            match r {
                Result::Ok(h) => h == spec_script_hash_of(old(self).leaf_map(), id),
                Result::Err(_) => false,
            },
            final(self).db == old(self).db,
            final(self).leaves == old(self).leaves,
            final(self).account_count == old(self).account_count,
    {
        let key = build_account_key(id, GW_ACCOUNT_SCRIPT_HASH);
        self.get_raw(&key)
    }

    /// Resolves a script hash to its registry address, `None` when the
    /// registry holds no mapping for it.
    pub fn get_registry_address_by_script_hash(&mut self, registry_id: u32, script_hash: &H256)
        -> (r: Result<Option<RegistryAddress>, Error>)
        requires
            old(self).wf(),
        ensures
            final(self).wf(),
            match r {
                Result::Ok(a) => a == spec_registry_addr_of(
                    old(self).leaf_map(),
                    registry_id,
                    *script_hash,
                ),
                Result::Err(_) => false,
            },
            final(self).db == old(self).db,
            final(self).leaves == old(self).leaves,
            final(self).account_count == old(self).account_count,
    {
        let key = build_registry_key(registry_id, script_hash);
        match self.get_raw(&key) {
            Result::Ok(v) => {
                if v.is_zero() {
                    Result::Ok(Option::None)
                } else {
                    Result::Ok(Option::Some(h256_to_addr(&v)))
                }
            },
            Result::Err(e) => Result::Err(e),
        }
    }

    /// Reads a holder's balance of a token.
    pub fn get_sudt_balance(&mut self, token_id: &H256, a: &RegistryAddress) -> (r: Result<
        u128,
        Error,
    >)
        requires
            old(self).wf(),
        ensures
            final(self).wf(),
            match r {
                Result::Ok(b) => b == spec_sudt_balance_of(old(self).leaf_map(), *token_id, *a),
                Result::Err(_) => false,
            },
            final(self).db == old(self).db,
            final(self).leaves == old(self).leaves,
            final(self).account_count == old(self).account_count,
    {
        let key = build_balance_key(token_id, a);
        match self.get_raw(&key) {
            Result::Ok(v) => Result::Ok(v.to_u128()),
            Result::Err(e) => Result::Err(e),
        }
    }
}

} // verus!
