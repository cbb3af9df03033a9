//! The append-only, versioned column store.
//!
//! Every write appends an entry tagged with the `(block_number, tx_index)`
//! version at which it was made; entries are never mutated or removed in
//! place, so the full history stays available for replay and for reads at
//! older versions.  A read resolves a raw key at a version to the entry with
//! the greatest version tag at or below it, later appends winning ties.

use vstd::prelude::*;

use crate::h256::H256;

verus! {

/// The single-byte value marking a logical delete at a version.
pub const DELETE_FLAG_VALUE: u8 = 0;

/// Identifies one column family of the store.
#[derive(Clone, Copy, PartialEq, Eq, Structural, Debug)]
pub enum Col {
    /// Leaves of the account state tree.
    AccountSmtLeaf,
    /// Account scripts, keyed by script hash.
    Script,
    /// Contract code blobs, keyed by data hash.
    Data,
}

/// One versioned entry.  Its persisted key is the concatenation
/// `raw_key ‖ block_number (8 bytes, big-endian) ‖ tx_index (4 bytes,
/// big-endian)`, held here in structured form.
#[derive(Clone)]
pub struct Entry {
    pub raw_key: Vec<u8>,
    pub block_number: u64,
    pub tx_index: u32,
    pub value: Vec<u8>,
}

/// An entry of the block index: a block hash with the block's number and its
/// transaction count.
#[derive(Clone, Copy, PartialEq, Eq, Structural, Debug)]
pub struct BlockRecord {
    pub block_hash: H256,
    pub number: u64,
    pub tx_count: u32,
}

/// The numeric rank of a version tag: chronological order of `(block, tx)`.
pub open spec fn vnum(block: u64, tx: u32) -> int {
    block * 0x1_0000_0000 + tx
}

/// Version ranks order exactly as `(block, tx)` pairs do.
pub proof fn lemma_vnum_order(b1: u64, t1: u32, b2: u64, t2: u32)
    ensures
        vnum(b1, t1) <= vnum(b2, t2) <==> (b1 < b2 || (b1 == b2 && t1 <= t2)),
{
    assert(vnum(b1, t1) <= vnum(b2, t2) <==> (b1 < b2 || (b1 == b2 && t1 <= t2)))
        by (nonlinear_arith)
        requires
            t1 <= 0xFFFF_FFFFu32,
            t2 <= 0xFFFF_FFFFu32,
    ;
}

/// The value bytes mark a logical delete.
pub open spec fn is_tombstone(s: Seq<u8>) -> bool {
    s.len() == 1 && s[0] == DELETE_FLAG_VALUE
}

/// The entry's version tag lies at or below rank `v` and its raw key is
/// `raw`.
pub open spec fn entry_matches(e: Entry, raw: Seq<u8>, v: int) -> bool {
    e.raw_key@ == raw && vnum(e.block_number, e.tx_index) <= v
}

/// The index of the entry a read of `raw` at version rank `v` resolves to:
/// among matching entries, the one of greatest version, later appends winning
/// ties; `-1` when no entry matches.
pub open spec fn live_idx(col: Seq<Entry>, raw: Seq<u8>, v: int) -> int
    decreases col.len(),
{
    if col.len() == 0 {
        -1
    } else {
        let rest = live_idx(col.drop_last(), raw, v);
        if entry_matches(col.last(), raw, v) {
            if rest == -1 {
                col.len() - 1
            } else if vnum(col[rest].block_number, col[rest].tx_index)
                <= vnum(col.last().block_number, col.last().tx_index) {
                col.len() - 1
            } else {
                rest
            }
        } else {
            rest
        }
    }
}

/// The resolved index is in range and names a matching entry.
pub proof fn lemma_live_idx_bounds(col: Seq<Entry>, raw: Seq<u8>, v: int)
    ensures
        -1 <= live_idx(col, raw, v) < col.len(),
        live_idx(col, raw, v) >= 0 ==> entry_matches(col[live_idx(col, raw, v)], raw, v),
    decreases col.len(),
{
    if col.len() > 0 {
        lemma_live_idx_bounds(col.drop_last(), raw, v);
        let rest = live_idx(col.drop_last(), raw, v);
        if rest >= 0 {
            assert(col.drop_last()[rest] == col[rest]);
        }
    }
}

/// What appending one entry does to a read: the new entry wins exactly when
/// it matches and its version is at or above the old winner's.
pub proof fn lemma_live_idx_push(col: Seq<Entry>, e: Entry, raw: Seq<u8>, v: int)
    ensures
        live_idx(col.push(e), raw, v) == ({
            let rest = live_idx(col, raw, v);
            if entry_matches(e, raw, v) {
                if rest == -1 {
                    col.len() as int
                } else if vnum(col[rest].block_number, col[rest].tx_index)
                    <= vnum(e.block_number, e.tx_index) {
                    col.len() as int
                } else {
                    rest
                }
            } else {
                rest
            }
        }),
{
    assert(col.push(e).drop_last() =~= col);
    assert(col.push(e).last() == e);
    lemma_live_idx_bounds(col, raw, v);
    let rest = live_idx(col, raw, v);
    if rest >= 0 {
        assert(col.push(e)[rest] == col[rest]);
    }
}

/// Versioned reads are monotonic: a write appended at a version rank above
/// `v` changes no read at `v` — the log grows, but what a read at `(b, t)`
/// observes never includes a write made at `(b', t') > (b, t)`.
pub proof fn lemma_versioned_read_monotonic(col: Seq<Entry>, e: Entry, raw: Seq<u8>, v: int)
    requires
        vnum(e.block_number, e.tx_index) > v,
    ensures
        live_value(col.push(e), raw, v) == live_value(col, raw, v),
{
    lemma_live_idx_push(col, e, raw, v);
    lemma_live_idx_bounds(col, raw, v);
    if live_idx(col, raw, v) >= 0 {
        assert(col.push(e)[live_idx(col, raw, v)] == col[live_idx(col, raw, v)]);
    }
}

/// The value a read of `raw` at version rank `v` observes, `None` when no
/// entry matches or the winning entry is the tombstone.
pub open spec fn live_value(col: Seq<Entry>, raw: Seq<u8>, v: int) -> Option<Seq<u8>> {
    let li = live_idx(col, raw, v);
    if li == -1 {
        Option::None
    } else if is_tombstone(col[li].value@) {
        Option::None
    } else {
        Option::Some(col[li].value@)
    }
}

/// The backing store: three versioned columns, the persisted tree root and
/// account count, and the block index.  It persists across handles; a
/// `StateDBTransaction` wraps it together with one version tag.
pub struct StoreTransaction {
    pub leaf_col: Vec<Entry>,
    pub script_col: Vec<Entry>,
    pub data_col: Vec<Entry>,
    pub smt_root: H256,
    pub account_count: u32,
    pub blocks: Vec<BlockRecord>,
}

impl StoreTransaction {
    /// The entries of one column, oldest append first.
    pub open spec fn col_view(self, col: Col) -> Seq<Entry> {
        match col {
            Col::AccountSmtLeaf => self.leaf_col@,
            Col::Script => self.script_col@,
            Col::Data => self.data_col@,
        }
    }

    /// Block hashes of the index are pairwise distinct.
    pub open spec fn blocks_wf(self) -> bool {
        forall|i: int, j: int| 0 <= i < j < self.blocks@.len()
            ==> self.blocks@[i].block_hash != self.blocks@[j].block_hash
    }

    /// A fresh, empty store.
    pub fn new() -> (r: StoreTransaction)
        ensures
            r.leaf_col@.len() == 0,
            r.script_col@.len() == 0,
            r.data_col@.len() == 0,
            r.smt_root == H256::spec_zero(),
            r.account_count == 0,
            r.blocks@.len() == 0,
            r.blocks_wf(),
    {
        StoreTransaction {
            leaf_col: Vec::new(),
            script_col: Vec::new(),
            data_col: Vec::new(),
            smt_root: H256::zero(),
            account_count: 0,
            blocks: Vec::new(),
        }
    }

    /// Records one block in the index.
    pub fn insert_block(&mut self, rec: BlockRecord)
        requires
            old(self).blocks_wf(),
            forall|i: int| 0 <= i < old(self).blocks@.len()
                ==> old(self).blocks@[i].block_hash != rec.block_hash,
        ensures
            final(self).blocks@ == old(self).blocks@.push(rec),
            final(self).blocks_wf(),
            final(self).leaf_col@ == old(self).leaf_col@,
            final(self).script_col@ == old(self).script_col@,
            final(self).data_col@ == old(self).data_col@,
            final(self).smt_root == old(self).smt_root,
            final(self).account_count == old(self).account_count,
    {
        let ghost pre = self.blocks@;
        self.blocks.push(rec);
        proof {
            assert forall|i: int, j: int| 0 <= i < j < self.blocks@.len()
                implies self.blocks@[i].block_hash != self.blocks@[j].block_hash by {
                if j == self.blocks@.len() - 1 {
                    assert(self.blocks@[i] == pre[i]);
                } else {
                    assert(self.blocks@[i] == pre[i] && self.blocks@[j] == pre[j]);
                }
            }
        }
    }

    /// Looks a block hash up in the index.
    pub fn find_block(&self, hash: &H256) -> (r: Option<BlockRecord>)
        ensures
            match r {
                Option::Some(rec) => rec.block_hash == *hash
                    && (exists|i: int| 0 <= i < self.blocks@.len() && self.blocks@[i] == rec),
                Option::None => forall|i: int| 0 <= i < self.blocks@.len()
                    ==> self.blocks@[i].block_hash != *hash,
            },
    {
        let n: usize = self.blocks.len();
        let mut i: usize = 0;
        while i < n
            invariant
                n == self.blocks@.len(),
                forall|j: int| 0 <= j < i ==> self.blocks@[j].block_hash != *hash,
            decreases n - i,
        {
            let rec = self.blocks[i];
            if rec.block_hash.w0 == hash.w0 && rec.block_hash.w1 == hash.w1
                && rec.block_hash.w2 == hash.w2 && rec.block_hash.w3 == hash.w3 {
                return Option::Some(rec);
            }
            i = i + 1;
        }
        Option::None
    }
}

/// Byte-wise equality of two byte strings.
pub fn bytes_eq(a: &[u8], b: &[u8]) -> (r: bool)
    ensures
        r == (a@ == b@),
{
    if a.len() != b.len() {
        proof {
            assert(a@.len() != b@.len());
        }
        return false;
    }
    let n: usize = a.len();
    let mut i: usize = 0;
    while i < n
        invariant
            n == a@.len(),
            n == b@.len(),
            forall|j: int| 0 <= j < i ==> a@[j] == b@[j],
        decreases n - i,
    {
        if a[i] != b[i] {
            return false;
        }
        i = i + 1;
    }
    proof {
        assert(a@ =~= b@);
    }
    true
}

} // verus!
