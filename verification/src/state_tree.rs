//! The account state tree.
//!
//! Leaves are account-key to 256-bit-value pairs; absent leaves are
//! implicitly zero.  The handle keeps the live leaves in canonical form —
//! strictly sorted by key, zero values absent — so the root commitment is a
//! pure function of the set of non-zero leaves: two trees holding the same
//! leaves have the same root whatever order the updates came in.  Every leaf
//! update is also appended to the backing versioned store, which keeps the
//! full history readable.

use vstd::prelude::*;

use crate::error::Error;
use crate::h256::H256;
use crate::hashing::{
    blake2b_256, blake2b_of, h256_from_le_bytes, h256_from_le_bytes_spec, h256_le_bytes,
    lemma_h256_le_bytes_round_trip, push_h256_le_bytes,
};
use crate::kvlist::{
    lemma_map_of_contains, lemma_map_of_index, lemma_map_of_insert_at, lemma_map_of_remove_at,
    lemma_map_of_update_at, map_of, state_value, unique_keys,
};
use crate::state_db::{StateDBTransaction, StateTracker};
use crate::store::{is_tombstone, live_idx, live_value, lemma_live_idx_bounds, Col, Entry};

verus! {

/// The canonical leaf list: strictly sorted by key, no zero values.
pub open spec fn leaves_wf(s: Seq<(H256, H256)>) -> bool {
    &&& forall|i: int, j: int| 0 <= i < j < s.len() ==> s[i].0.spec_lt(s[j].0)
    &&& forall|i: int| 0 <= i < s.len() ==> !s[i].1.spec_is_zero()
}

/// Strict key order is a total order on 256-bit words.
pub proof fn lemma_h256_order(a: H256, b: H256)
    ensures
        a.spec_lt(b) ==> !b.spec_lt(a),
        a.spec_lt(b) ==> a != b,
        !a.spec_lt(b) && !b.spec_lt(a) ==> a == b,
{
}

/// Strict key order is transitive.
pub proof fn lemma_h256_order_trans(a: H256, b: H256, c: H256)
    requires
        a.spec_lt(b),
        b.spec_lt(c),
    ensures
        a.spec_lt(c),
{
}

/// A canonical leaf list has pairwise-distinct keys.
pub proof fn lemma_leaves_wf_unique(s: Seq<(H256, H256)>)
    requires
        leaves_wf(s),
    ensures
        unique_keys(s),
{
    assert forall|i: int, j: int| 0 <= i < j < s.len() implies s[i].0 != s[j].0 by {
        lemma_h256_order(s[i].0, s[j].0);
    }
}

/// Dropping the last leaf keeps the list canonical.
proof fn lemma_leaves_wf_drop_last(s: Seq<(H256, H256)>)
    requires
        leaves_wf(s),
        s.len() > 0,
    ensures
        leaves_wf(s.drop_last()),
{
    assert forall|i: int, j: int| 0 <= i < j < s.drop_last().len()
        implies s.drop_last()[i].0.spec_lt(s.drop_last()[j].0) by {
        assert(s.drop_last()[i] == s[i] && s.drop_last()[j] == s[j]);
    }
    assert forall|i: int| 0 <= i < s.drop_last().len()
        implies !s.drop_last()[i].1.spec_is_zero() by {
        assert(s.drop_last()[i] == s[i]);
    }
}

/// Canonical form is unique: two canonical leaf lists denoting the same map
/// are the same list.
pub proof fn lemma_leaves_canonical(a: Seq<(H256, H256)>, b: Seq<(H256, H256)>)
    requires
        leaves_wf(a),
        leaves_wf(b),
        map_of(a) == map_of(b),
    ensures
        a == b,
    decreases a.len(),
{
    lemma_leaves_wf_unique(a);
    lemma_leaves_wf_unique(b);
    if a.len() == 0 {
        if b.len() > 0 {
            lemma_map_of_index(b, b.len() - 1);
            lemma_map_of_contains(a, b.last().0);
        }
        assert(a =~= b);
    } else if b.len() == 0 {
        lemma_map_of_index(a, a.len() - 1);
        lemma_map_of_contains(b, a.last().0);
        assert(a =~= b);
    } else {
        let ka = a.last().0;
        let kb = b.last().0;
        lemma_map_of_index(a, a.len() - 1);
        lemma_map_of_index(b, b.len() - 1);
        lemma_map_of_contains(a, kb);
        lemma_map_of_contains(b, ka);
        let ia = choose|i: int| 0 <= i < a.len() && a[i].0 == kb;
        let ib = choose|i: int| 0 <= i < b.len() && b[i].0 == ka;
        if ia < a.len() - 1 {
            assert(a[ia].0.spec_lt(ka));
        }
        if ib < b.len() - 1 {
            assert(b[ib].0.spec_lt(kb));
        }
        lemma_h256_order(ka, kb);
        assert(ka == kb);
        assert(a.last().1 == map_of(a)[ka]);
        assert(b.last().1 == map_of(b)[ka]);
        assert(a.last() == b.last());
        lemma_leaves_wf_drop_last(a);
        lemma_leaves_wf_drop_last(b);
        lemma_map_of_contains(a.drop_last(), ka);
        lemma_map_of_contains(b.drop_last(), ka);
        assert(forall|i: int| 0 <= i < a.drop_last().len() ==> a.drop_last()[i] == a[i]);
        assert(forall|i: int| 0 <= i < b.drop_last().len() ==> b.drop_last()[i] == b[i]);
        assert(forall|i: int| 0 <= i < a.drop_last().len() ==> a.drop_last()[i].0 != ka);
        assert(forall|i: int| 0 <= i < b.drop_last().len() ==> b.drop_last()[i].0 != ka);
        assert(map_of(a.drop_last()) =~= map_of(a).remove(ka));
        assert(map_of(b.drop_last()) =~= map_of(b).remove(ka));
        lemma_leaves_canonical(a.drop_last(), b.drop_last());
        assert(a =~= b);
    }
}

/// One step of the root commitment: absorb a leaf into the accumulator.
pub open spec fn hash_step(acc: H256, k: H256, v: H256) -> H256 {
    h256_from_le_bytes_spec(blake2b_of(h256_le_bytes(acc) + h256_le_bytes(k) + h256_le_bytes(v)))
}

/// The root commitment of a canonical leaf list: the zero word for the empty
/// tree, else the digest chain over the leaves in key order.
pub open spec fn root_of(s: Seq<(H256, H256)>) -> H256
    decreases s.len(),
{
    if s.len() == 0 {
        H256::spec_zero()
    } else {
        hash_step(root_of(s.drop_last()), s.last().0, s.last().1)
    }
}

/// Equal canonical leaf maps give equal roots: the root is a pure function
/// of the set of non-zero leaves, whatever order built them.
pub proof fn lemma_root_deterministic(a: Seq<(H256, H256)>, b: Seq<(H256, H256)>)
    requires
        leaves_wf(a),
        leaves_wf(b),
        map_of(a) == map_of(b),
    ensures
        root_of(a) == root_of(b),
{
    lemma_leaves_canonical(a, b);
}

/// Binds a key to a non-zero value in a canonical leaf list.
fn leaf_put(leaves: &mut Vec<(H256, H256)>, k: H256, v: H256)
    requires
        leaves_wf(old(leaves)@),
        !v.spec_is_zero(),
    ensures
        leaves_wf(final(leaves)@),
        map_of(final(leaves)@) == map_of(old(leaves)@).insert(k, v),
{
    proof {
        lemma_leaves_wf_unique(leaves@);
    }
    let n: usize = leaves.len();
    let mut p: usize = 0;
    let mut stop = false;
    while !stop && p < n
        invariant
            n == leaves@.len(),
            leaves@ == old(leaves)@,
            leaves_wf(leaves@),
            p <= n,
            forall|j: int| 0 <= j < p ==> leaves@[j].0.spec_lt(k),
            stop ==> (p < n && !leaves@[p as int].0.spec_lt(k)),
        decreases n - p + (if stop { 0int } else { 1int }),
    {
        if leaves[p].0.lt(&k) {
            p = p + 1;
        } else {
            stop = true;
        }
    }
    if p < n && leaves[p].0 == k {
        proof {
            lemma_map_of_update_at(leaves@, p as int, v);
            assert forall|i: int, j: int| 0 <= i < j < leaves@.update(p as int, (k, v)).len()
                implies leaves@.update(p as int, (k, v))[i].0.spec_lt(
                    leaves@.update(p as int, (k, v))[j].0) by {
                assert(leaves@.update(p as int, (k, v))[i].0 == leaves@[i].0);
                assert(leaves@.update(p as int, (k, v))[j].0 == leaves@[j].0);
            }
        }
        leaves.set(p, (k, v));
    } else {
        proof {
            if p < n {
                lemma_h256_order(leaves@[p as int].0, k);
                assert(k.spec_lt(leaves@[p as int].0));
            }
            assert forall|j: int| p <= j < n implies k.spec_lt(leaves@[j].0) by {
                if j > p {
                    lemma_h256_order_trans(k, leaves@[p as int].0, leaves@[j].0);
                }
            }
            assert forall|j: int| 0 <= j < n implies leaves@[j].0 != k by {
                lemma_h256_order(leaves@[j].0, k);
            }
            lemma_map_of_insert_at(leaves@, p as int, k, v);
            let t = leaves@.insert(p as int, (k, v));
            assert forall|i: int, j: int| 0 <= i < j < t.len()
                implies t[i].0.spec_lt(t[j].0) by {
                if i < p && j < p {
                    assert(t[i] == leaves@[i] && t[j] == leaves@[j]);
                } else if i < p && j == p {
                    assert(t[i] == leaves@[i]);
                } else if i < p && j > p {
                    assert(t[i] == leaves@[i] && t[j] == leaves@[j - 1]);
                } else if i == p && j > p {
                    assert(t[j] == leaves@[j - 1]);
                } else {
                    assert(t[i] == leaves@[i - 1] && t[j] == leaves@[j - 1]);
                }
            }
            assert forall|i: int| 0 <= i < t.len() implies !t[i].1.spec_is_zero() by {
                if i < p {
                    assert(t[i] == leaves@[i]);
                } else if i > p {
                    assert(t[i] == leaves@[i - 1]);
                }
            }
        }
        leaves.insert(p, (k, v));
    }
}

/// Removes a key from a canonical leaf list.
fn leaf_del(leaves: &mut Vec<(H256, H256)>, k: H256)
    requires
        leaves_wf(old(leaves)@),
    ensures
        leaves_wf(final(leaves)@),
        map_of(final(leaves)@) == map_of(old(leaves)@).remove(k),
{
    proof {
        lemma_leaves_wf_unique(leaves@);
    }
    let n: usize = leaves.len();
    let mut p: usize = 0;
    while p < n
        invariant
            n == leaves@.len(),
            leaves@ == old(leaves)@,
            leaves_wf(leaves@),
            p <= n,
            forall|j: int| 0 <= j < p ==> leaves@[j].0 != k,
        decreases n - p,
    {
        if leaves[p].0 == k {
            proof {
                lemma_leaves_wf_unique(leaves@);
                lemma_map_of_remove_at(leaves@, p as int);
                let t = leaves@.remove(p as int);
                assert forall|i: int, j: int| 0 <= i < j < t.len()
                    implies t[i].0.spec_lt(t[j].0) by {
                    if j < p {
                        assert(t[i] == leaves@[i] && t[j] == leaves@[j]);
                    } else if i < p {
                        assert(t[i] == leaves@[i] && t[j] == leaves@[j + 1]);
                    } else {
                        assert(t[i] == leaves@[i + 1] && t[j] == leaves@[j + 1]);
                    }
                }
                assert forall|i: int| 0 <= i < t.len() implies !t[i].1.spec_is_zero() by {
                    if i < p {
                        assert(t[i] == leaves@[i]);
                    } else {
                        assert(t[i] == leaves@[i + 1]);
                    }
                }
            }
            leaves.remove(p);
            return ;
        }
        p = p + 1;
    }
    proof {
        lemma_map_of_contains(leaves@, k);
        assert(map_of(leaves@) =~= map_of(leaves@).remove(k));
    }
}

/// The leaf the backing store holds live for key `k` at version rank `v`:
/// the decoded value of the winning entry, `None` for the tombstone, a
/// malformed value, or the zero value.
pub open spec fn live_leaf_of(col: Seq<Entry>, k: H256, v: int) -> Option<H256> {
    match live_value(col, h256_le_bytes(k), v) {
        Option::Some(bytes) => {
            if bytes.len() == 32 && !h256_from_le_bytes_spec(bytes).spec_is_zero() {
                Option::Some(h256_from_le_bytes_spec(bytes))
            } else {
                Option::None
            }
        },
        Option::None => Option::None,
    }
}

/// A raw key no leaf entry ever named reads as absent at every version:
/// through the tree, a key never written reads as the zero value.
pub proof fn lemma_never_written_reads_zero(col: Seq<Entry>, k: H256, v: int)
    requires
        forall|i: int| 0 <= i < col.len() ==> col[i].raw_key@ != h256_le_bytes(k),
    ensures
        live_leaf_of(col, k, v) is None,
{
    lemma_live_idx_bounds(col, h256_le_bytes(k), v);
}

/// Updating a leaf to zero tombstones it at the handle's version: every
/// read of the key at that version is then absent, so the key is missing
/// from a leaf enumeration reconstructed there, whatever was written for
/// it before.
pub proof fn lemma_zero_update_hides_leaf(col: Seq<Entry>, e: Entry, k: H256, v: int)
    requires
        e.raw_key@ == h256_le_bytes(k),
        crate::store::vnum(e.block_number, e.tx_index) == v,
        is_tombstone(e.value@),
    ensures
        live_leaf_of(col.push(e), k, v) is None,
{
    crate::store::lemma_live_idx_push(col, e, h256_le_bytes(k), v);
    lemma_live_idx_bounds(col, h256_le_bytes(k), v);
    assert(live_idx(col.push(e), h256_le_bytes(k), v) == col.len() as int);
    assert(col.push(e)[col.len() as int] == e);
}

/// A state-tree handle: the canonical live leaves, the persisted account
/// count, the backing version-scoped store, and the optional change tracker.
/// It is constructed per logical transaction or block-application session
/// and discarded after `submit_tree`.
pub struct StateTree {
    pub db: StateDBTransaction,
    pub leaves: Vec<(H256, H256)>,
    pub account_count: u32,
    pub tracker: StateTracker,
}

impl StateTree {
    /// The finite map of non-zero leaves.
    pub open spec fn leaf_map(self) -> Map<H256, H256> {
        map_of(self.leaves@)
    }

    pub open spec fn wf(self) -> bool {
        leaves_wf(self.leaves@)
    }

    /// The tree's root: a pure function of the leaf map.
    pub open spec fn spec_root(self) -> H256 {
        root_of(self.leaves@)
    }

    pub fn new(db: StateDBTransaction, leaves: Vec<(H256, H256)>, account_count: u32) -> (r:
        StateTree)
        requires
            leaves_wf(leaves@),
        ensures
            r.db == db,
            r.leaves == leaves,
            r.account_count == account_count,
            r.wf(),
            r.tracker.touched_view() is None,
    {
        StateTree { db, leaves, account_count, tracker: StateTracker::new() }
    }

    /// The change tracker, to enable or inspect tracking.
    pub fn tracker_mut(&mut self) -> (r: &mut StateTracker)
        ensures
            *r == old(self).tracker,
            final(self).tracker == *final(r),
            final(self).db == old(self).db,
            final(self).leaves == old(self).leaves,
            final(self).account_count == old(self).account_count,
    {
        &mut self.tracker
    }

    /// Reads a raw state key: the stored leaf value, or zero when the key
    /// was never written (or was last written to zero).  Records the key in
    /// the change tracker.
    pub fn get_raw(&mut self, key: &H256) -> (r: Result<H256, Error>)
        requires
            old(self).wf(),
        ensures
            final(self).wf(),
            match r {
                Result::Ok(v) => v == state_value(old(self).leaf_map(), *key),
                Result::Err(_) => false,
            },
            final(self).db == old(self).db,
            final(self).leaves == old(self).leaves,
            final(self).account_count == old(self).account_count,
            final(self).tracker.touched_view() == match old(self).tracker.touched_view() {
                Option::Some(s) => Option::Some(s.insert(*key)),
                Option::None => Option::None::<Set<H256>>,
            },
    {
        self.tracker.touch_key(key);
        proof {
            lemma_leaves_wf_unique(self.leaves@);
        }
        match crate::kvlist::kv_get(&self.leaves, key) {
            Option::Some(v) => Result::Ok(v),
            Option::None => Result::Ok(H256::zero()),
        }
    }

    /// Updates a raw state key: a non-zero value replaces the leaf, the zero
    /// value removes it.  The write is also appended to the backing store at
    /// the handle's version — as the value for a non-zero update, as the
    /// tombstone for a zero one — so history stays intact.
    pub fn update_raw(&mut self, key: H256, value: H256) -> (r: Result<(), Error>)
        requires
            old(self).wf(),
        ensures
            r is Ok,
            final(self).wf(),
            final(self).leaf_map() == if value.spec_is_zero() {
                old(self).leaf_map().remove(key)
            } else {
                old(self).leaf_map().insert(key, value)
            },
            final(self).account_count == old(self).account_count,
            ({
                let c = final(self).db.inner.leaf_col@;
                let o = old(self).db.inner.leaf_col@;
                &&& c.len() == o.len() + 1
                &&& c == o.push(c.last())
                &&& c.last().raw_key@ == h256_le_bytes(key)
                &&& c.last().block_number == old(self).db.block_num
                &&& c.last().tx_index == old(self).db.tx_index
                &&& (value.spec_is_zero() ==> is_tombstone(c.last().value@))
                &&& (!value.spec_is_zero() ==> c.last().value@ == h256_le_bytes(value))
            }),
            final(self).db.inner.script_col@ == old(self).db.inner.script_col@,
            final(self).db.inner.data_col@ == old(self).db.inner.data_col@,
            final(self).db.inner.blocks@ == old(self).db.inner.blocks@,
            final(self).db.inner.smt_root == old(self).db.inner.smt_root,
            final(self).db.inner.account_count == old(self).db.inner.account_count,
            final(self).db.block_num == old(self).db.block_num,
            final(self).db.tx_index == old(self).db.tx_index,
            final(self).tracker.touched_view() == match old(self).tracker.touched_view() {
                Option::Some(s) => Option::Some(s.insert(key)),
                Option::None => Option::None::<Set<H256>>,
            },
    {
        self.tracker.touch_key(&key);
        let mut kb: Vec<u8> = Vec::new();
        push_h256_le_bytes(&mut kb, &key);
        proof {
            assert(kb@ =~= h256_le_bytes(key));
        }
        if value.is_zero() {
            match self.db.delete(Col::AccountSmtLeaf, kb.as_slice()) {
                Result::Ok(_) => {},
                Result::Err(e) => {
                    return Result::Err(e);
                },
            }
            leaf_del(&mut self.leaves, key);
        } else {
            let mut vb: Vec<u8> = Vec::new();
            push_h256_le_bytes(&mut vb, &value);
            proof {
                assert(vb@ =~= h256_le_bytes(value));
            }
            match self.db.insert_raw(Col::AccountSmtLeaf, kb.as_slice(), vb.as_slice()) {
                Result::Ok(_) => {},
                Result::Err(e) => {
                    return Result::Err(e);
                },
            }
            leaf_put(&mut self.leaves, key, value);
        }
        proof {
            assert(self.db.inner.col_view(Col::Script)
                == old(self).db.inner.col_view(Col::Script));
            assert(self.db.inner.col_view(Col::Data) == old(self).db.inner.col_view(Col::Data));
        }
        Result::Ok(())
    }

    pub fn get_account_count(&self) -> (r: Result<u32, Error>)
        ensures
            r == Result::<u32, Error>::Ok(self.account_count),
    {
        Result::Ok(self.account_count)
    }

    pub fn set_account_count(&mut self, count: u32) -> (r: Result<(), Error>)
        ensures
            r is Ok,
            final(self).account_count == count,
            final(self).db == old(self).db,
            final(self).leaves == old(self).leaves,
            final(self).tracker == old(self).tracker,
    {
        self.account_count = count;
        Result::Ok(())
    }

    /// The current root commitment, consistent after any sequence of
    /// `update_raw` calls through this handle; no flush is needed.
    pub fn calculate_root(&self) -> (r: Result<H256, Error>)
        ensures
            match r {
                Result::Ok(h) => h == self.spec_root(),
                Result::Err(_) => false,
            },
    {
        let n: usize = self.leaves.len();
        let mut acc = H256::zero();
        let mut i: usize = 0;
        while i < n
            invariant
                n == self.leaves@.len(),
                i <= n,
                acc == root_of(self.leaves@.take(i as int)),
            decreases n - i,
        {
            let (k, v) = self.leaves[i];
            let mut buf: Vec<u8> = Vec::new();
            push_h256_le_bytes(&mut buf, &acc);
            push_h256_le_bytes(&mut buf, &k);
            push_h256_le_bytes(&mut buf, &v);
            let digest = blake2b_256(&buf);
            let next = h256_from_le_bytes(digest.as_slice());
            proof {
                let t1 = self.leaves@.take(i as int + 1);
                assert(t1.drop_last() =~= self.leaves@.take(i as int));
                assert(t1.last() == self.leaves@[i as int]);
                assert(buf@ =~= h256_le_bytes(acc) + h256_le_bytes(k) + h256_le_bytes(v));
            }
            acc = next;
            i = i + 1;
        }
        proof {
            assert(self.leaves@.take(n as int) =~= self.leaves@);
        }
        Result::Ok(acc)
    }

    /// Persists the current root and account count into the backing store's
    /// metadata; it does not commit the store — the caller controls
    /// atomicity across the whole session.
    pub fn submit_tree(&mut self) -> (r: Result<(), Error>)
        ensures
            r is Ok,
            final(self).db.inner.smt_root == old(self).spec_root(),
            final(self).db.inner.account_count == old(self).account_count,
            final(self).db.inner.leaf_col@ == old(self).db.inner.leaf_col@,
            final(self).db.inner.script_col@ == old(self).db.inner.script_col@,
            final(self).db.inner.data_col@ == old(self).db.inner.data_col@,
            final(self).db.inner.blocks@ == old(self).db.inner.blocks@,
            final(self).db.block_num == old(self).db.block_num,
            final(self).db.tx_index == old(self).db.tx_index,
            final(self).leaves == old(self).leaves,
            final(self).account_count == old(self).account_count,
            final(self).tracker == old(self).tracker,
    {
        let root = match self.calculate_root() {
            Result::Ok(h) => h,
            Result::Err(e) => {
                return Result::Err(e);
            },
        };
        self.db.inner.smt_root = root;
        self.db.inner.account_count = self.account_count;
        Result::Ok(())
    }

    /// Hands the version-scoped store back, ending this handle.
    pub fn into_db(self) -> (r: StateDBTransaction)
        ensures
            r == self.db,
    {
        self.db
    }
}

impl StateDBTransaction {
    /// Builds the state-tree handle for this version: reconstructs the live
    /// leaves by enumerating the leaf column and resolving each touched key
    /// at the handle's version, and reads the persisted account count.
    pub fn account_state_tree(self) -> (r: Result<StateTree, Error>)
        ensures
            match r {
                Result::Ok(t) => {
                    &&& t.db == self
                    &&& t.wf()
                    &&& t.account_count == self.inner.account_count
                    &&& t.tracker.touched_view() is None
                    &&& forall|k: H256| ({
                        let ll = #[trigger] live_leaf_of(self.inner.leaf_col@, k, self.version());
                        match ll {
                            Option::Some(v) => t.leaf_map().dom().contains(k)
                                && t.leaf_map()[k] == v,
                            Option::None => !t.leaf_map().dom().contains(k),
                        }
                    })
                },
                Result::Err(_) => false,
            },
    {
        let ghost col = self.inner.leaf_col@;
        let ghost ver = self.version();
        let mut leaves: Vec<(H256, H256)> = Vec::new();
        let n: usize = self.inner.leaf_col.len();
        let mut i: usize = 0;
        while i < n
            invariant
                n == col.len(),
                i <= n,
                self.inner.leaf_col@ == col,
                ver == self.version(),
                leaves_wf(leaves@),
                forall|k: H256| #[trigger] map_of(leaves@).dom().contains(k)
                    ==> live_leaf_of(col, k, ver) == Option::Some(map_of(leaves@)[k]),
                forall|k: H256|
                    (#[trigger] live_leaf_of(col, k, ver)) is Some
                    && (exists|j: int| 0 <= j < i && col[j].raw_key@ == h256_le_bytes(k))
                    ==> map_of(leaves@).dom().contains(k),
            decreases n - i,
        {
            let ghost pre = leaves@;
            let e_key_len: usize = self.inner.leaf_col[i].raw_key.len();
            if e_key_len == 32 {
                let k = h256_from_le_bytes(self.inner.leaf_col[i].raw_key.as_slice());
                proof {
                    crate::hashing::lemma_h256_le_bytes_inverse(col[i as int].raw_key@);
                    assert(h256_le_bytes(k) == col[i as int].raw_key@);
                }
                let got = self.get(Col::AccountSmtLeaf, self.inner.leaf_col[i].raw_key.as_slice());
                match got {
                    Option::Some(bytes) => {
                        if bytes.len() == 32 {
                            let val = h256_from_le_bytes(bytes.as_slice());
                            if !val.is_zero() {
                                proof {
                                    assert(live_leaf_of(col, k, ver) == Option::Some(val));
                                }
                                leaf_put(&mut leaves, k, val);
                                proof {
                                    assert forall|k2: H256|
                                        #[trigger] map_of(leaves@).dom().contains(k2)
                                        implies live_leaf_of(col, k2, ver)
                                            == Option::Some(map_of(leaves@)[k2]) by {
                                        if k2 != k {
                                            assert(map_of(pre).dom().contains(k2));
                                            assert(map_of(leaves@)[k2] == map_of(pre)[k2]);
                                        }
                                    }
                                }
                            } else {
                                proof {
                                    assert(live_leaf_of(col, k, ver) is None);
                                }
                            }
                        } else {
                            proof {
                                assert(live_leaf_of(col, k, ver) is None);
                            }
                        }
                    },
                    Option::None => {
                        proof {
                            assert(live_leaf_of(col, k, ver) is None);
                        }
                    },
                }
                proof {
                    assert forall|k2: H256|
                        (#[trigger] live_leaf_of(col, k2, ver)) is Some
                        && (exists|j: int| 0 <= j < i + 1 && col[j].raw_key@ == h256_le_bytes(k2))
                        implies map_of(leaves@).dom().contains(k2) by {
                        let j = choose|j: int|
                            0 <= j < i + 1 && col[j].raw_key@ == h256_le_bytes(k2);
                        if j < i {
                            assert(map_of(pre).dom().contains(k2));
                        } else {
                            lemma_h256_le_bytes_round_trip(k2);
                            assert(h256_from_le_bytes_spec(col[i as int].raw_key@) == k2);
                            assert(k2 == k);
                        }
                    }
                }
            } else {
                proof {
                    assert forall|k2: H256|
                        (#[trigger] live_leaf_of(col, k2, ver)) is Some
                        && (exists|j: int| 0 <= j < i + 1 && col[j].raw_key@ == h256_le_bytes(k2))
                        implies map_of(leaves@).dom().contains(k2) by {
                        let j = choose|j: int|
                            0 <= j < i + 1 && col[j].raw_key@ == h256_le_bytes(k2);
                        lemma_h256_le_bytes_round_trip(k2);
                        assert(j < i);
                    }
                }
            }
            i = i + 1;
        }
        proof {
            assert forall|k: H256| (#[trigger] live_leaf_of(col, k, ver)) is Some
                implies map_of(leaves@).dom().contains(k) by {
                lemma_live_idx_bounds(col, h256_le_bytes(k), ver);
                let li = live_idx(col, h256_le_bytes(k), ver);
                assert(li >= 0);
                assert(col[li].raw_key@ == h256_le_bytes(k));
            }
        }
        let count: u32 = self.inner.account_count;
        Result::Ok(StateTree::new(self, leaves, count))
    }
}

} // verus!
