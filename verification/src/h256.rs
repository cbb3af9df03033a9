//! 256-bit words: state keys and state values.
//!
//! Account keys are derived deterministically from an account id and a field
//! id by packing both into the low limb; uniqueness is guaranteed by
//! construction (see `lemma_account_key_injective`).

use vstd::prelude::*;

verus! {

/// A 256-bit word held as four 64-bit limbs, least-significant limb first.
#[derive(Clone, Copy, PartialEq, Eq, Structural, Debug, Hash)]
pub struct H256 {
    pub w0: u64,
    pub w1: u64,
    pub w2: u64,
    pub w3: u64,
}

/// Field tag of an account's nonce slot.
pub const GW_ACCOUNT_NONCE: u8 = 1;
/// Field tag of an account's script-hash slot.
pub const GW_ACCOUNT_SCRIPT_HASH: u8 = 2;

impl H256 {
    /// The all-zero word: the absent-leaf value of the state tree.
    pub open spec fn spec_zero() -> H256 {
        H256 { w0: 0, w1: 0, w2: 0, w3: 0 }
    }

    pub fn zero() -> (r: H256)
        ensures
            r == H256::spec_zero(),
    {
        H256 { w0: 0, w1: 0, w2: 0, w3: 0 }
    }

    pub open spec fn spec_is_zero(self) -> bool {
        self == H256::spec_zero()
    }

    pub fn is_zero(&self) -> (r: bool)
        ensures
            r == self.spec_is_zero(),
    {
        self.w0 == 0 && self.w1 == 0 && self.w2 == 0 && self.w3 == 0
    }

    /// Numeric order on 256-bit words, most-significant limb first.
    pub open spec fn spec_lt(self, other: H256) -> bool {
        ||| self.w3 < other.w3
        ||| (self.w3 == other.w3 && self.w2 < other.w2)
        ||| (self.w3 == other.w3 && self.w2 == other.w2 && self.w1 < other.w1)
        ||| (self.w3 == other.w3 && self.w2 == other.w2 && self.w1 == other.w1
            && self.w0 < other.w0)
    }

    pub fn lt(&self, other: &H256) -> (r: bool)
        ensures
            r == self.spec_lt(*other),
    {
        if self.w3 != other.w3 {
            self.w3 < other.w3
        } else if self.w2 != other.w2 {
            self.w2 < other.w2
        } else if self.w1 != other.w1 {
            self.w1 < other.w1
        } else {
            self.w0 < other.w0
        }
    }

    pub open spec fn spec_from_u32(n: u32) -> H256 {
        H256 { w0: n as u64, w1: 0, w2: 0, w3: 0 }
    }

    pub fn from_u32(n: u32) -> (r: H256)
        ensures
            r == H256::spec_from_u32(n),
    {
        H256 { w0: n as u64, w1: 0, w2: 0, w3: 0 }
    }

    /// The low 32 bits of the low limb, the inverse of `from_u32`.
    pub open spec fn spec_to_u32(self) -> u32 {
        (self.w0 % 0x1_0000_0000) as u32
    }

    pub fn to_u32(&self) -> (r: u32)
        ensures
            r == self.spec_to_u32(),
    {
        (self.w0 % 0x1_0000_0000) as u32
    }

    pub open spec fn spec_from_u128(n: u128) -> H256 {
        H256 {
            w0: (n % 0x1_0000_0000_0000_0000) as u64,
            w1: (n / 0x1_0000_0000_0000_0000) as u64,
            w2: 0,
            w3: 0,
        }
    }

    pub fn from_u128(n: u128) -> (r: H256)
        ensures
            r == H256::spec_from_u128(n),
    {
        H256 {
            w0: (n % 0x1_0000_0000_0000_0000) as u64,
            w1: (n / 0x1_0000_0000_0000_0000) as u64,
            w2: 0,
            w3: 0,
        }
    }

    /// The low 128 bits, the inverse of `from_u128`.
    pub open spec fn spec_to_u128(self) -> u128 {
        (self.w0 as int + self.w1 as int * 0x1_0000_0000_0000_0000) as u128
    }

    pub fn to_u128(&self) -> (r: u128)
        ensures
            r == self.spec_to_u128(),
    {
        self.w0 as u128 + self.w1 as u128 * 0x1_0000_0000_0000_0000
    }
}

/// Round trip of the 128-bit packing: reading back a packed value returns it.
pub proof fn lemma_u128_round_trip(n: u128)
    ensures
        H256::spec_from_u128(n).spec_to_u128() == n,
{
    vstd::arithmetic::div_mod::lemma_fundamental_div_mod(n as int, 0x1_0000_0000_0000_0000);
}

/// A packed 128-bit value is the zero word exactly when it packs zero.
pub proof fn lemma_from_u128_zero(n: u128)
    ensures
        H256::spec_from_u128(n).spec_is_zero() <==> n == 0,
{
    vstd::arithmetic::div_mod::lemma_fundamental_div_mod(n as int, 0x1_0000_0000_0000_0000);
}

/// Round trip of the 32-bit packing: reading back a packed value returns it.
pub proof fn lemma_u32_round_trip(n: u32)
    ensures
        H256::spec_from_u32(n).spec_to_u32() == n,
{
}

/// The state key of one field of one account: the account id and the field
/// tag packed into the low limb.
pub open spec fn spec_account_key(id: u32, field: u8) -> H256 {
    H256 { w0: (id as int + field as int * 0x1_0000_0000) as u64, w1: 0, w2: 0, w3: 0 }
}

pub fn build_account_key(id: u32, field: u8) -> (r: H256)
    ensures
        r == spec_account_key(id, field),
{
    H256 { w0: id as u64 + field as u64 * 0x1_0000_0000, w1: 0, w2: 0, w3: 0 }
}

/// Account keys are unique by construction: two equal keys name the same
/// account id and the same field.
pub proof fn lemma_account_key_injective(id1: u32, f1: u8, id2: u32, f2: u8)
    requires
        spec_account_key(id1, f1) == spec_account_key(id2, f2),
    ensures
        id1 == id2 && f1 == f2,
{
    assert(id1 as u64 + f1 as u64 * 0x1_0000_0000 == id2 as u64 + f2 as u64 * 0x1_0000_0000);
    assert(id1 == id2 && f1 == f2) by (nonlinear_arith)
        requires
            id1 as u64 + f1 as u64 * 0x1_0000_0000 == id2 as u64 + f2 as u64 * 0x1_0000_0000,
    ;
}

/// A nonce value as stored in the state tree: the nonce in the low limb.
pub open spec fn spec_serialize_nonce(n: u32) -> H256 {
    H256::spec_from_u32(n)
}

pub fn serialize_nonce(n: u32) -> (r: H256)
    ensures
        r == spec_serialize_nonce(n),
{
    H256::from_u32(n)
}

} // verus!
