//! The persisted form of a versioned key, and why it works.
//!
//! On disk an entry's key is the concatenation `raw_key ‖ block_number
//! (8 bytes, big-endian) ‖ tx_index (4 bytes, big-endian)`.  The point of
//! that layout is `lemma_versioned_key_order`: among entries of one raw
//! key, byte-lexicographic order of the persisted keys is exactly
//! chronological order of the version tags, so a "greatest key at or below
//! `raw_key ‖ V`" seek finds the most recent write at or before `V`.

use vstd::prelude::*;

use crate::store::{vnum, Entry};

verus! {

/// `256^w`.
pub open spec fn pow256(w: nat) -> nat
    decreases w,
{
    if w == 0 {
        1
    } else {
        256 * pow256((w - 1) as nat)
    }
}

/// The `w`-byte big-endian encoding of `n % 256^w`, most significant byte
/// first.
pub open spec fn be_bytes(n: nat, w: nat) -> Seq<u8>
    decreases w,
{
    if w == 0 {
        Seq::empty()
    } else {
        be_bytes(n / 256, (w - 1) as nat).push((n % 256) as u8)
    }
}

/// The number a big-endian byte string denotes.
pub open spec fn be_val(s: Seq<u8>) -> nat
    decreases s.len(),
{
    if s.len() == 0 {
        0
    } else {
        (be_val(s.drop_last()) * 256 + s.last()) as nat
    }
}

/// Strict byte-lexicographic order; a proper prefix comes first.
pub open spec fn lex_lt(a: Seq<u8>, b: Seq<u8>) -> bool
    decreases a.len() + b.len(),
{
    if b.len() == 0 {
        false
    } else if a.len() == 0 {
        true
    } else if a[0] < b[0] {
        true
    } else if a[0] > b[0] {
        false
    } else {
        lex_lt(a.skip(1), b.skip(1))
    }
}

/// The persisted key of one entry.
pub open spec fn full_key(e: Entry) -> Seq<u8> {
    e.raw_key@ + be_bytes(e.block_number as nat, 8) + be_bytes(e.tx_index as nat, 4)
}

/// An encoding is as wide as asked.
proof fn lemma_be_bytes_len(n: nat, w: nat)
    ensures
        be_bytes(n, w).len() == w,
    decreases w,
{
    if w > 0 {
        lemma_be_bytes_len(n / 256, (w - 1) as nat);
    }
}

/// Decoding an encoding returns the value, for values in range.
proof fn lemma_be_bytes_val(n: nat, w: nat)
    requires
        n < pow256(w),
    ensures
        be_val(be_bytes(n, w)) == n,
    decreases w,
{
    if w == 0 {
    } else {
        assert(n / 256 < pow256((w - 1) as nat)) by (nonlinear_arith)
            requires
                n < pow256(w),
                pow256(w) == 256 * pow256((w - 1) as nat),
        ;
        lemma_be_bytes_val(n / 256, (w - 1) as nat);
        lemma_be_bytes_len(n / 256, (w - 1) as nat);
        let s = be_bytes(n, w);
        assert(s.drop_last() =~= be_bytes(n / 256, (w - 1) as nat));
        assert(s.last() == (n % 256) as u8);
        assert((n / 256) * 256 + n % 256 == n) by {
            vstd::arithmetic::div_mod::lemma_fundamental_div_mod(n as int, 256);
        }
    }
}

/// A byte string denotes less than `256^length`.
proof fn lemma_be_val_bound(s: Seq<u8>)
    ensures
        be_val(s) < pow256(s.len()),
    decreases s.len(),
{
    if s.len() > 0 {
        lemma_be_val_bound(s.drop_last());
        assert(be_val(s.drop_last()) * 256 + s.last() < pow256(s.len()))
            by (nonlinear_arith)
            requires
                be_val(s.drop_last()) < pow256((s.len() - 1) as nat),
                s.last() < 256,
                pow256(s.len()) == 256 * pow256((s.len() - 1) as nat),
        ;
    }
}

/// Concatenation shifts: the head's value is scaled by the tail's width.
#[verifier::spinoff_prover]
#[verifier::rlimit(30)]
proof fn lemma_be_val_concat(a: Seq<u8>, b: Seq<u8>)
    ensures
        be_val(a + b) as int == be_val(a) as int * pow256(b.len()) as int + be_val(b) as int,
    decreases b.len(),
{
    if b.len() == 0 {
        assert(a + b =~= a);
        assert(be_val(b) == 0);
        assert(pow256(b.len()) == 1);
        assert(be_val(a + b) as int == be_val(a) as int * pow256(b.len()) as int
            + be_val(b) as int);
    } else {
        lemma_be_val_concat(a, b.drop_last());
        assert((a + b).drop_last() =~= a + b.drop_last());
        assert((a + b).last() == b.last());
        let x = be_val(a) as int;
        let y = be_val(b.drop_last()) as int;
        let l = b.last() as int;
        let p = pow256((b.len() - 1) as nat) as int;
        assert(pow256(b.len()) as int == 256 * p);
        assert(be_val(a + b) as int == (be_val(a + b.drop_last()) as int) * 256 + l);
        assert(be_val(a + b.drop_last()) as int == x * p + y);
        assert(be_val(b) as int == y * 256 + l);
        assert((x * p + y) * 256 + l == x * (256 * p) + (y * 256 + l)) by (nonlinear_arith);
        assert(be_val(a + b) as int == be_val(a) as int * pow256(b.len()) as int
            + be_val(b) as int);
    }
}

/// The head byte of a non-empty string, in terms of `be_val`.
proof fn lemma_be_val_front(s: Seq<u8>)
    requires
        s.len() > 0,
    ensures
        be_val(s) as int == s[0] * pow256((s.len() - 1) as nat) + be_val(s.skip(1)),
    decreases s.len(),
{
    assert(s =~= seq![s[0]] + s.skip(1));
    lemma_be_val_concat(seq![s[0]], s.skip(1));
    assert(be_val(seq![s[0]]) == s[0]) by {
        let t = seq![s[0]];
        assert(t.len() == 1);
        assert(t.last() == s[0]);
        assert(t.drop_last() =~= Seq::<u8>::empty());
        assert(be_val(t.drop_last()) == 0);
    }
}

/// On equal-length byte strings, lexicographic order is numeric order of
/// the denoted values.
proof fn lemma_lex_is_numeric(a: Seq<u8>, b: Seq<u8>)
    requires
        a.len() == b.len(),
    ensures
        lex_lt(a, b) <==> be_val(a) < be_val(b),
    decreases a.len(),
{
    if a.len() == 0 {
    } else {
        lemma_be_val_front(a);
        lemma_be_val_front(b);
        lemma_be_val_bound(a.skip(1));
        lemma_be_val_bound(b.skip(1));
        lemma_lex_is_numeric(a.skip(1), b.skip(1));
        let p = pow256((a.len() - 1) as nat);
        if a[0] != b[0] {
            assert(a[0] < b[0] ==> a[0] * p + be_val(a.skip(1)) < b[0] * p + be_val(b.skip(1)))
                by (nonlinear_arith)
                requires
                    be_val(a.skip(1)) < p,
            ;
            assert(a[0] > b[0] ==> a[0] * p + be_val(a.skip(1)) >= b[0] * p + be_val(b.skip(1)))
                by (nonlinear_arith)
                requires
                    be_val(b.skip(1)) < p,
            ;
        }
    }
}

/// A shared prefix cancels.
proof fn lemma_lex_prefix_cancel(p: Seq<u8>, a: Seq<u8>, b: Seq<u8>)
    ensures
        lex_lt(p + a, p + b) <==> lex_lt(a, b),
    decreases p.len(),
{
    if p.len() == 0 {
        assert(p + a =~= a);
        assert(p + b =~= b);
    } else {
        assert((p + a).len() > 0 && (p + b).len() > 0);
        assert((p + a)[0] == p[0] && (p + b)[0] == p[0]);
        assert((p + a).skip(1) =~= p.skip(1) + a);
        assert((p + b).skip(1) =~= p.skip(1) + b);
        lemma_lex_prefix_cancel(p.skip(1), a, b);
    }
}

/// Powers of 256 needed below, written out.
proof fn lemma_pow256_values()
    ensures
        pow256(4) == 0x1_0000_0000,
        pow256(8) == 0x1_0000_0000_0000_0000,
        pow256(12) == pow256(8) * pow256(4),
{
    assert(pow256(0) == 1);
    assert(pow256(1) == 256);
    assert(pow256(2) == 0x1_0000);
    assert(pow256(3) == 0x100_0000);
    assert(pow256(4) == 0x1_0000_0000);
    assert(pow256(5) == 0x100_0000_0000);
    assert(pow256(6) == 0x1_0000_0000_0000);
    assert(pow256(7) == 0x100_0000_0000_0000);
    assert(pow256(8) == 0x1_0000_0000_0000_0000);
    assert(pow256(9) == 256 * pow256(8));
    assert(pow256(10) == 256 * pow256(9));
    assert(pow256(11) == 256 * pow256(10));
    assert(pow256(12) == 256 * pow256(11));
}

/// The 12-byte version suffix denotes exactly the version rank.
proof fn lemma_version_suffix_val(block: u64, tx: u32)
    ensures
        be_val(be_bytes(block as nat, 8) + be_bytes(tx as nat, 4)) == vnum(block, tx),
{
    lemma_pow256_values();
    lemma_be_bytes_val(block as nat, 8);
    lemma_be_bytes_val(tx as nat, 4);
    lemma_be_bytes_len(tx as nat, 4);
    lemma_be_val_concat(be_bytes(block as nat, 8), be_bytes(tx as nat, 4));
}

/// Chronological ordering per raw key: among persisted keys that share a
/// raw key, byte-lexicographic order is exactly the order of the version
/// tags.  This is what lets "most recent value at or before version `V`"
/// be answered by a reverse seek positioned at `raw_key ‖ V`.
pub proof fn lemma_versioned_key_order(e1: Entry, e2: Entry)
    requires
        e1.raw_key@ == e2.raw_key@,
    ensures
        lex_lt(full_key(e1), full_key(e2)) <==> vnum(
            e1.block_number,
            e1.tx_index,
        ) < vnum(e2.block_number, e2.tx_index),
{
    let v1 = be_bytes(e1.block_number as nat, 8) + be_bytes(e1.tx_index as nat, 4);
    let v2 = be_bytes(e2.block_number as nat, 8) + be_bytes(e2.tx_index as nat, 4);
    assert(full_key(e1) =~= e1.raw_key@ + v1);
    assert(full_key(e2) =~= e1.raw_key@ + v2);
    lemma_lex_prefix_cancel(e1.raw_key@, v1, v2);
    lemma_be_bytes_len(e1.block_number as nat, 8);
    lemma_be_bytes_len(e1.tx_index as nat, 4);
    lemma_be_bytes_len(e2.block_number as nat, 8);
    lemma_be_bytes_len(e2.tx_index as nat, 4);
    lemma_lex_is_numeric(v1, v2);
    lemma_version_suffix_val(e1.block_number, e1.tx_index);
    lemma_version_suffix_val(e2.block_number, e2.tx_index);
}

} // verus!
