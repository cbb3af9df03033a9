//! Version-scoped access to the column store.
//!
//! A `StateDBTransaction` pairs the backing store with one
//! `(block_number, tx_index)` version tag; every read resolves a raw key to
//! the most recent write at or before that tag, and every write appends a new
//! entry at the tag, so writes at later versions never disturb reads at
//! earlier ones.

use vstd::prelude::*;

use crate::error::Error;
use crate::h256::H256;
use crate::store::{
    entry_matches, is_tombstone, live_idx, live_value, lemma_live_idx_bounds,
    lemma_live_idx_push, lemma_vnum_order, vnum, Col, Entry, StoreTransaction,
    DELETE_FLAG_VALUE,
};

verus! {

/// A point-in-time view of the chain's state: the genesis state, a committed
/// block's post-state, or a transaction index within a block.
pub struct StateDBVersion {
    pub block_hash: Option<H256>,
    pub tx_index: Option<u32>,
}

impl StateDBVersion {
    /// A transaction index is only meaningful together with a block hash.
    pub open spec fn spec_wf(self) -> bool {
        self.block_hash is None ==> self.tx_index is None
    }

    pub fn from_genesis() -> (r: StateDBVersion)
        ensures
            r.block_hash is None,
            r.tx_index is None,
            r.spec_wf(),
    {
        StateDBVersion { block_hash: Option::None, tx_index: Option::None }
    }

    pub fn from_block_hash(block_hash: H256) -> (r: StateDBVersion)
        ensures
            r.block_hash == Option::Some(block_hash),
            r.tx_index is None,
            r.spec_wf(),
    {
        StateDBVersion { block_hash: Option::Some(block_hash), tx_index: Option::None }
    }

    pub fn from_tx_index(block_hash: H256, tx_index: u32) -> (r: StateDBVersion)
        ensures
            r.block_hash == Option::Some(block_hash),
            r.tx_index == Option::Some(tx_index),
            r.spec_wf(),
    {
        StateDBVersion {
            block_hash: Option::Some(block_hash),
            tx_index: Option::Some(tx_index),
        }
    }

    pub open spec fn spec_is_genesis_version(self) -> bool {
        self.block_hash is None && self.tx_index is None
    }

    pub fn is_genesis_version(&self) -> (r: bool)
        ensures
            r == self.spec_is_genesis_version(),
    {
        self.block_hash.is_none() && self.tx_index.is_none()
    }
}

/// The store scoped to one version tag.
pub struct StateDBTransaction {
    pub inner: StoreTransaction,
    pub block_num: u64,
    pub tx_index: u32,
}

impl StateDBTransaction {
    /// The numeric rank of this handle's version tag.
    pub open spec fn version(self) -> int {
        vnum(self.block_num, self.tx_index)
    }

    /// Scopes a store to a resolved version.  Resolving a non-genesis version
    /// needs the block index: an unknown block hash, or a transaction index
    /// at or past the block's transaction count, is a version-resolution
    /// failure.
    pub fn from_version(inner: StoreTransaction, ver: StateDBVersion) -> (r: Result<
        StateDBTransaction,
        Error,
    >)
        requires
            ver.spec_wf(),
            inner.blocks_wf(),
        ensures
            match r {
                Result::Ok(db) => {
                    &&& db.inner == inner
                    &&& if ver.spec_is_genesis_version() {
                        db.block_num == 0 && db.tx_index == 0
                    } else {
                        exists|i: int|
                            0 <= i < inner.blocks@.len()
                            && inner.blocks@[i].block_hash == ver.block_hash.unwrap()
                            && db.block_num == inner.blocks@[i].number
                            && (match ver.tx_index {
                                Option::Some(ti) => ti < inner.blocks@[i].tx_count
                                    && db.tx_index == ti,
                                Option::None => db.tx_index == inner.blocks@[i].tx_count,
                            })
                    }
                },
                Result::Err(e) => {
                    &&& e == Error::VersionNotFound
                    &&& !ver.spec_is_genesis_version()
                    &&& ((forall|i: int| 0 <= i < inner.blocks@.len()
                            ==> inner.blocks@[i].block_hash != ver.block_hash.unwrap())
                        || (exists|i: int|
                            0 <= i < inner.blocks@.len()
                            && inner.blocks@[i].block_hash == ver.block_hash.unwrap()
                            && ver.tx_index is Some
                            && ver.tx_index.unwrap() >= inner.blocks@[i].tx_count))
                },
            },
    {
        if ver.is_genesis_version() {
            return Result::Ok(StateDBTransaction { inner, block_num: 0, tx_index: 0 });
        }
        let hash = match &ver.block_hash {
            Option::Some(h) => *h,
            Option::None => {
                return Result::Err(Error::VersionNotFound);
            },
        };
        match inner.find_block(&hash) {
            Option::Some(rec) => {
                let tx_idx: u32 = match ver.tx_index {
                    Option::Some(ti) => {
                        if ti < rec.tx_count {
                            ti
                        } else {
                            return Result::Err(Error::VersionNotFound);
                        }
                    },
                    Option::None => rec.tx_count,
                };
                Result::Ok(StateDBTransaction {
                    inner,
                    block_num: rec.number,
                    tx_index: tx_idx,
                })
            },
            Option::None => Result::Err(Error::VersionNotFound),
        }
    }

    /// The caller owns atomicity: this store has nothing further to flush, so
    /// committing always succeeds.
    pub fn commit(&self) -> (r: Result<(), Error>)
        ensures
            r is Ok,
    {
        Result::Ok(())
    }

    /// Hands the backing store back, ending this version-scoped view.
    pub fn into_inner(self) -> (r: StoreTransaction)
        ensures
            r == self.inner,
    {
        self.inner
    }

    /// Reads `key` at this handle's version: the most recent write at or
    /// before the version tag, `None` when there is none or it is the
    /// tombstone.
    pub fn get(&self, col: Col, key: &[u8]) -> (r: Option<Vec<u8>>)
        ensures
            match r {
                Option::Some(v) => live_value(self.inner.col_view(col), key@, self.version())
                    == Option::Some(v@),
                Option::None => live_value(self.inner.col_view(col), key@, self.version())
                    is None,
            },
    {
        let entries: &Vec<Entry> = match col {
            Col::AccountSmtLeaf => &self.inner.leaf_col,
            Col::Script => &self.inner.script_col,
            Col::Data => &self.inner.data_col,
        };
        let ghost cs = self.inner.col_view(col);
        let ghost v = self.version();
        let n: usize = entries.len();
        let mut i: usize = 0;
        let mut best: Option<usize> = Option::None;
        while i < n
            invariant
                n == cs.len(),
                entries@ == cs,
                v == self.version(),
                match best {
                    Option::Some(b) => b < i <= n && live_idx(cs.take(i as int), key@, v) == b,
                    Option::None => i <= n && live_idx(cs.take(i as int), key@, v) == -1,
                },
            decreases n - i,
        {
            let e = &entries[i];
            let key_eq = crate::store::bytes_eq(e.raw_key.as_slice(), key);
            let at_or_below = e.block_number < self.block_num
                || (e.block_number == self.block_num && e.tx_index <= self.tx_index);
            proof {
                lemma_vnum_order(e.block_number, e.tx_index, self.block_num, self.tx_index);
                assert(*e == cs[i as int]);
                assert(vnum(e.block_number, e.tx_index) <= vnum(self.block_num, self.tx_index)
                    <==> (e.block_number < self.block_num
                        || (e.block_number == self.block_num && e.tx_index <= self.tx_index)));
                assert(v == vnum(self.block_num, self.tx_index));
                assert(at_or_below
                    == (vnum(cs[i as int].block_number, cs[i as int].tx_index) <= v));
                assert(key_eq == (cs[i as int].raw_key@ == key@));
            }
            let ghost prev = best;
            if key_eq && at_or_below {
                match best {
                    Option::Some(b) => {
                        let be = &entries[b];
                        let newer = be.block_number < e.block_number
                            || (be.block_number == e.block_number && be.tx_index <= e.tx_index);
                        proof {
                            lemma_vnum_order(be.block_number, be.tx_index, e.block_number,
                                e.tx_index);
                        }
                        if newer {
                            best = Option::Some(i);
                        }
                    },
                    Option::None => {
                        best = Option::Some(i);
                    },
                }
            }
            proof {
                let t1 = cs.take(i as int + 1);
                let t0 = cs.take(i as int);
                assert(t1.drop_last() =~= t0);
                assert(t1.last() == cs[i as int]);
                assert forall|j: int| 0 <= j < i + 1 implies t1[j] == cs[j] by {}
                let rest = live_idx(t0, key@, v);
                assert(live_idx(t1, key@, v) == ({
                    if entry_matches(cs[i as int], key@, v) {
                        if rest == -1 {
                            i as int
                        } else if vnum(t1[rest].block_number, t1[rest].tx_index)
                            <= vnum(cs[i as int].block_number, cs[i as int].tx_index) {
                            i as int
                        } else {
                            rest
                        }
                    } else {
                        rest
                    }
                }));
                match prev {
                    Option::Some(b) => {
                        assert(rest == b);
                        assert(t1[b as int] == cs[b as int]);
                    },
                    Option::None => {
                        assert(rest == -1);
                    },
                }
                match best {
                    Option::Some(b2) => {
                        assert(live_idx(t1, key@, v) == b2);
                    },
                    Option::None => {
                        assert(live_idx(t1, key@, v) == -1);
                    },
                }
            }
            i = i + 1;
        }
        proof {
            assert(cs.take(n as int) =~= cs);
        }
        match best {
            Option::Some(b) => {
                let e = &entries[b];
                if e.value.len() == 1 && e.value[0] == DELETE_FLAG_VALUE {
                    proof {
                        assert(is_tombstone(cs[b as int].value@));
                    }
                    Option::None
                } else {
                    let out = e.value.clone();
                    proof {
                        assert(!is_tombstone(cs[b as int].value@));
                        assert(out@ =~= cs[b as int].value@);
                    }
                    Option::Some(out)
                }
            },
            Option::None => Option::None,
        }
    }

    /// Appends a new entry for `key` at this handle's version; history stays
    /// intact, and reads of other keys or at earlier versions are unchanged.
    pub fn insert_raw(&mut self, col: Col, key: &[u8], value: &[u8]) -> (r: Result<(), Error>)
        ensures
            r is Ok,
            ({
                let c = final(self).inner.col_view(col);
                let o = old(self).inner.col_view(col);
                &&& c.len() == o.len() + 1
                &&& c == o.push(c.last())
                &&& c.last().raw_key@ == key@
                &&& c.last().block_number == old(self).block_num
                &&& c.last().tx_index == old(self).tx_index
                &&& c.last().value@ == value@
            }),
            forall|c2: Col| c2 != col
                ==> final(self).inner.col_view(c2) == old(self).inner.col_view(c2),
            final(self).inner.smt_root == old(self).inner.smt_root,
            final(self).inner.account_count == old(self).inner.account_count,
            final(self).inner.blocks@ == old(self).inner.blocks@,
            final(self).block_num == old(self).block_num,
            final(self).tx_index == old(self).tx_index,
    {
        let entry = Entry {
            raw_key: slice_to_vec_u8(key),
            block_number: self.block_num,
            tx_index: self.tx_index,
            value: slice_to_vec_u8(value),
        };
        match col {
            Col::AccountSmtLeaf => self.inner.leaf_col.push(entry),
            Col::Script => self.inner.script_col.push(entry),
            Col::Data => self.inner.data_col.push(entry),
        }
        Result::Ok(())
    }

    /// Logical delete: appends the tombstone for `key` at this handle's
    /// version.
    pub fn delete(&mut self, col: Col, key: &[u8]) -> (r: Result<(), Error>)
        ensures
            r is Ok,
            ({
                let c = final(self).inner.col_view(col);
                let o = old(self).inner.col_view(col);
                &&& c.len() == o.len() + 1
                &&& c == o.push(c.last())
                &&& c.last().raw_key@ == key@
                &&& c.last().block_number == old(self).block_num
                &&& c.last().tx_index == old(self).tx_index
                &&& is_tombstone(c.last().value@)
            }),
            forall|c2: Col| c2 != col
                ==> final(self).inner.col_view(c2) == old(self).inner.col_view(c2),
            final(self).inner.smt_root == old(self).inner.smt_root,
            final(self).inner.account_count == old(self).inner.account_count,
            final(self).inner.blocks@ == old(self).inner.blocks@,
            final(self).block_num == old(self).block_num,
            final(self).tx_index == old(self).tx_index,
    {
        let tomb: Vec<u8> = vec![DELETE_FLAG_VALUE];
        self.insert_raw(col, key, tomb.as_slice())
    }
}

impl StateDBTransaction {
    /// Full-state reset, used only for re-genesis and never in normal
    /// transaction flow: zeroes the persisted root and account count, and
    /// tombstones every leaf at this handle's version, so every raw key
    /// reads as absent here afterwards.
    pub fn clear_account_state_tree(&mut self) -> (r: Result<(), Error>)
        ensures
            r is Ok,
            final(self).inner.smt_root == H256::spec_zero(),
            final(self).inner.account_count == 0,
            forall|raw: Seq<u8>|
                (#[trigger] live_value(final(self).inner.leaf_col@, raw, final(self).version()))
                    is None,
            final(self).inner.script_col@ == old(self).inner.script_col@,
            final(self).inner.data_col@ == old(self).inner.data_col@,
            final(self).inner.blocks@ == old(self).inner.blocks@,
            final(self).block_num == old(self).block_num,
            final(self).tx_index == old(self).tx_index,
    {
        self.inner.smt_root = H256::zero();
        self.inner.account_count = 0;
        let ghost orig = self.inner.leaf_col@;
        let ghost v = self.version();
        let n: usize = self.inner.leaf_col.len();
        let mut i: usize = 0;
        proof {
            assert forall|raw: Seq<u8>|
                ((#[trigger] live_value(self.inner.leaf_col@, raw, v)) is None)
                || (exists|j: int| 0 <= j < n && orig[j].raw_key@ == raw) by {
                lemma_live_idx_bounds(orig, raw, v);
                if live_idx(orig, raw, v) >= 0 {
                    assert(orig[live_idx(orig, raw, v)].raw_key@ == raw);
                }
            }
        }
        while i < n
            invariant
                n == orig.len(),
                i <= n,
                v == self.version(),
                self.inner.leaf_col@.len() == n + i,
                forall|j: int| 0 <= j < n ==> ({
                    let c = #[trigger] self.inner.leaf_col@[j];
                    c.raw_key@ == orig[j].raw_key@
                    && c.block_number == orig[j].block_number
                    && c.tx_index == orig[j].tx_index
                    && c.value@ == orig[j].value@
                }),
                forall|raw: Seq<u8>|
                    ((#[trigger] live_value(self.inner.leaf_col@, raw, v)) is None)
                    || (exists|j: int| i <= j < n && orig[j].raw_key@ == raw),
                self.inner.smt_root == H256::spec_zero(),
                self.inner.account_count == 0,
                self.inner.script_col@ == old(self).inner.script_col@,
                self.inner.data_col@ == old(self).inner.data_col@,
                self.inner.blocks@ == old(self).inner.blocks@,
                self.block_num == old(self).block_num,
                self.tx_index == old(self).tx_index,
            decreases n - i,
        {
            let key = slice_to_vec_u8(self.inner.leaf_col[i].raw_key.as_slice());
            let ghost pre = self.inner.leaf_col@;
            let ghost pre_script = self.inner.script_col@;
            let ghost pre_data = self.inner.data_col@;
            match self.delete(Col::AccountSmtLeaf, key.as_slice()) {
                Result::Ok(_) => {},
                Result::Err(e) => {
                    return Result::Err(e);
                },
            }
            proof {
                assert(self.inner.col_view(Col::Script) == pre_script);
                assert(self.inner.col_view(Col::Data) == pre_data);
                let cur = self.inner.leaf_col@;
                let e = cur.last();
                assert(cur == pre.push(e));
                assert(e.raw_key@ == orig[i as int].raw_key@);
                assert(vnum(e.block_number, e.tx_index) == v);
                assert forall|raw: Seq<u8>|
                    ((#[trigger] live_value(cur, raw, v)) is None)
                    || (exists|j: int| i + 1 <= j < n && orig[j].raw_key@ == raw) by {
                    lemma_live_idx_push(pre, e, raw, v);
                    lemma_live_idx_bounds(pre, raw, v);
                    if raw == e.raw_key@ {
                        assert(entry_matches(e, raw, v));
                        assert(live_idx(cur, raw, v) == pre.len() as int);
                        assert(is_tombstone(cur[pre.len() as int].value@));
                    } else {
                        assert(live_idx(cur, raw, v) == live_idx(pre, raw, v));
                        if live_idx(pre, raw, v) >= 0 {
                            assert(cur[live_idx(pre, raw, v)] == pre[live_idx(pre, raw, v)]);
                        }
                        if !((live_value(pre, raw, v)) is None) {
                            let j = choose|j: int| i <= j < n && orig[j].raw_key@ == raw;
                            assert(j != i);
                        }
                    }
                }
            }
            i = i + 1;
        }
        proof {
            assert forall|raw: Seq<u8>|
                (#[trigger] live_value(self.inner.leaf_col@, raw, v)) is None by {
            }
        }
        Result::Ok(())
    }
}

/// Copies a byte slice into an owned vector.
pub fn slice_to_vec_u8(s: &[u8]) -> (r: Vec<u8>)
    ensures
        r@ == s@,
{
    let n: usize = s.len();
    let mut out: Vec<u8> = Vec::new();
    let mut i: usize = 0;
    while i < n
        invariant
            n == s@.len(),
            out@ == s@.take(i as int),
            i <= n,
        decreases n - i,
    {
        out.push(s[i]);
        proof {
            assert(out@ =~= s@.take(i as int + 1));
        }
        i = i + 1;
    }
    proof {
        assert(s@.take(n as int) =~= s@);
    }
    out
}

/// The set of raw state keys a sequence of recordings denotes.
pub open spec fn key_set_of(s: Seq<H256>) -> Set<H256> {
    Set::new(|k: H256| s.contains(k))
}

/// Records the raw state keys touched during a scoped operation; disabled it
/// is a no-op.
pub struct StateTracker {
    pub touched_keys: Option<Vec<H256>>,
}

impl StateTracker {
    /// The touched-key set, `None` while tracking is disabled.
    pub open spec fn touched_view(self) -> Option<Set<H256>> {
        match self.touched_keys {
            Option::Some(v) => Option::Some(key_set_of(v@)),
            Option::None => Option::None,
        }
    }

    pub fn new() -> (r: StateTracker)
        ensures
            r.touched_view() is None,
    {
        StateTracker { touched_keys: Option::None }
    }

    /// Enables state tracking; already-enabled trackers keep what they have.
    pub fn enable(&mut self)
        ensures
            final(self).touched_view() == match old(self).touched_view() {
                Option::Some(s) => Option::Some(s),
                Option::None => Option::Some(Set::<H256>::empty()),
            },
    {
        if self.touched_keys.is_none() {
            self.touched_keys = Option::Some(Vec::new());
            proof {
                assert(key_set_of(self.touched_keys.unwrap()@) =~= Set::<H256>::empty());
            }
        }
    }

    /// Returns the touched keys, `None` while tracking is disabled.
    pub fn touched_keys(&self) -> (r: Option<&Vec<H256>>)
        ensures
            match r {
                Option::Some(v) => self.touched_view() == Option::Some(key_set_of(v@)),
                Option::None => self.touched_view() is None,
            },
    {
        self.touched_keys.as_ref()
    }

    /// Records a key; a no-op while tracking is disabled.
    pub fn touch_key(&mut self, key: &H256)
        ensures
            final(self).touched_view() == match old(self).touched_view() {
                Option::Some(s) => Option::Some(s.insert(*key)),
                Option::None => Option::None,
            },
    {
        match &mut self.touched_keys {
            Option::Some(v) => {
                let ghost pre = v@;
                v.push(*key);
                proof {
                    assert forall|x: H256| key_set_of(pre.push(*key)).contains(x)
                        <==> key_set_of(pre).insert(*key).contains(x) by {
                        if x == *key {
                            assert(pre.push(*key)[pre.len() as int] == x);
                            assert(pre.push(*key).contains(x));
                        } else {
                            if pre.contains(x) {
                                let j = choose|j: int| 0 <= j < pre.len() && pre[j] == x;
                                assert(pre.push(*key)[j] == x);
                            }
                            if pre.push(*key).contains(x) {
                                let j = choose|j: int|
                                    0 <= j < pre.push(*key).len() && pre.push(*key)[j] == x;
                                assert(j < pre.len());
                                assert(pre[j] == x);
                            }
                        }
                    }
                    assert(key_set_of(pre.push(*key)) =~= key_set_of(pre).insert(*key));
                }
            },
            Option::None => {},
        }
    }
}

} // verus!
