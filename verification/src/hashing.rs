//! The 32-byte BLAKE2b digest and byte codecs of 256-bit words.
//!
//! The digest underwrites the state tree's root commitment and the derived
//! state keys that pack more than 256 bits of naming material.

use vstd::prelude::*;
use vstd::bytes::{
    lemma_auto_spec_u64_to_from_le_bytes, spec_u64_from_le_bytes, spec_u64_to_le_bytes,
    u64_from_le_bytes, u64_to_le_bytes,
};
use vstd::slice::slice_subrange;

use crate::h256::H256;

verus! {

/// The 32-byte BLAKE2b digest of the input; a function of the input bytes
/// alone.
pub uninterp spec fn blake2b_of(data: Seq<u8>) -> Seq<u8>;

/// Relies on `blake2b_ref::Blake2bBuilder` and `Blake2b`: hashing the input
/// with a 32-byte output length yields a 32-byte digest that depends on the
/// input bytes alone.
#[verifier::external_body]
pub fn blake2b_256(data: &Vec<u8>) -> (r: Vec<u8>)
    ensures
        r@ == blake2b_of(data@),
        r@.len() == 32,
{
    let mut output = [0u8; 32];
    let mut hasher = blake2b_ref::Blake2bBuilder::new(32).build();
    hasher.update(&data[..]);
    hasher.finalize(&mut output);
    output.to_vec()
}

/// The 32-byte little-endian encoding of a 256-bit word.
pub open spec fn h256_le_bytes(h: H256) -> Seq<u8> {
    spec_u64_to_le_bytes(h.w0) + spec_u64_to_le_bytes(h.w1) + spec_u64_to_le_bytes(h.w2)
        + spec_u64_to_le_bytes(h.w3)
}

/// The 256-bit word a 32-byte little-endian encoding denotes.
pub open spec fn h256_from_le_bytes_spec(s: Seq<u8>) -> H256 {
    H256 {
        w0: spec_u64_from_le_bytes(s.subrange(0, 8)),
        w1: spec_u64_from_le_bytes(s.subrange(8, 16)),
        w2: spec_u64_from_le_bytes(s.subrange(16, 24)),
        w3: spec_u64_from_le_bytes(s.subrange(24, 32)),
    }
}

/// Encoding then decoding a word returns it, and the encoding is 32 bytes.
pub proof fn lemma_h256_le_bytes_round_trip(h: H256)
    ensures
        h256_le_bytes(h).len() == 32,
        h256_from_le_bytes_spec(h256_le_bytes(h)) == h,
{
    lemma_auto_spec_u64_to_from_le_bytes();
    let s = h256_le_bytes(h);
    assert(s.subrange(0, 8) =~= spec_u64_to_le_bytes(h.w0));
    assert(s.subrange(8, 16) =~= spec_u64_to_le_bytes(h.w1));
    assert(s.subrange(16, 24) =~= spec_u64_to_le_bytes(h.w2));
    assert(s.subrange(24, 32) =~= spec_u64_to_le_bytes(h.w3));
}

/// Decoding then encoding 32 bytes returns them.
pub proof fn lemma_h256_le_bytes_inverse(s: Seq<u8>)
    requires
        s.len() == 32,
    ensures
        h256_le_bytes(h256_from_le_bytes_spec(s)) == s,
{
    lemma_auto_spec_u64_to_from_le_bytes();
    let h = h256_from_le_bytes_spec(s);
    assert(spec_u64_to_le_bytes(h.w0) == s.subrange(0, 8));
    assert(spec_u64_to_le_bytes(h.w1) == s.subrange(8, 16));
    assert(spec_u64_to_le_bytes(h.w2) == s.subrange(16, 24));
    assert(spec_u64_to_le_bytes(h.w3) == s.subrange(24, 32));
    assert(h256_le_bytes(h) =~= s);
}

/// Distinct words have distinct encodings.
pub proof fn lemma_h256_le_bytes_injective(a: H256, b: H256)
    requires
        h256_le_bytes(a) == h256_le_bytes(b),
    ensures
        a == b,
{
    lemma_h256_le_bytes_round_trip(a);
    lemma_h256_le_bytes_round_trip(b);
}

/// Appends the 32-byte encoding of a word to a buffer.
pub fn push_h256_le_bytes(out: &mut Vec<u8>, h: &H256)
    ensures
        final(out)@ == old(out)@ + h256_le_bytes(*h),
{
    let mut b0 = u64_to_le_bytes(h.w0);
    let mut b1 = u64_to_le_bytes(h.w1);
    let mut b2 = u64_to_le_bytes(h.w2);
    let mut b3 = u64_to_le_bytes(h.w3);
    out.append(&mut b0);
    out.append(&mut b1);
    out.append(&mut b2);
    out.append(&mut b3);
    proof {
        assert(out@ =~= old(out)@ + h256_le_bytes(*h));
    }
}

/// Decodes a 32-byte little-endian encoding.
pub fn h256_from_le_bytes(s: &[u8]) -> (r: H256)
    requires
        s@.len() == 32,
    ensures
        r == h256_from_le_bytes_spec(s@),
{
    let w0 = u64_from_le_bytes(slice_subrange(s, 0, 8));
    let w1 = u64_from_le_bytes(slice_subrange(s, 8, 16));
    let w2 = u64_from_le_bytes(slice_subrange(s, 16, 24));
    let w3 = u64_from_le_bytes(slice_subrange(s, 24, 32));
    H256 { w0, w1, w2, w3 }
}

} // verus!
