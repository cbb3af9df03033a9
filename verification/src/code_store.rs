//! The code side table: account scripts and contract code blobs, keyed by
//! hash, stored through the same versioned columns as the state.  Entries
//! are content-addressed — the key is the hash of the value — so inserts
//! are idempotent and no delete path exists.

use vstd::prelude::*;

use crate::h256::H256;
use crate::hashing::{h256_from_le_bytes, h256_from_le_bytes_spec, h256_le_bytes,
    push_h256_le_bytes};
use crate::state_tree::StateTree;
use crate::store::{is_tombstone, live_value, Col};

verus! {

/// An account script: which code runs the account, and its arguments.
#[derive(Clone, Debug)]
pub struct Script {
    pub code_hash: H256,
    pub hash_type: u8,
    pub args: Vec<u8>,
}

/// The stored encoding of a script: code hash, hash type, arguments.
pub open spec fn script_bytes(code_hash: H256, hash_type: u8, args: Seq<u8>) -> Seq<u8> {
    h256_le_bytes(code_hash) + seq![hash_type] + args
}

/// The script a stored value denotes, `None` when too short to be one.
pub open spec fn spec_decode_script(bytes: Seq<u8>) -> Option<(H256, u8, Seq<u8>)> {
    if bytes.len() >= 33 {
        Option::Some(
            (h256_from_le_bytes_spec(bytes.subrange(0, 32)), bytes[32], bytes.skip(33)),
        )
    } else {
        Option::None
    }
}

/// The script stored live under a script hash at a version.
pub open spec fn spec_script_of(col: Seq<crate::store::Entry>, v: int, script_hash: H256)
    -> Option<(H256, u8, Seq<u8>)> {
    match live_value(col, h256_le_bytes(script_hash), v) {
        Option::Some(bytes) => spec_decode_script(bytes),
        Option::None => Option::None,
    }
}

impl StateTree {
    /// Stores an account script under its script hash.
    pub fn insert_script(&mut self, script_hash: H256, script: Script)
        requires
            old(self).wf(),
        ensures
            final(self).wf(),
            ({
                let c = final(self).db.inner.script_col@;
                let o = old(self).db.inner.script_col@;
                &&& c.len() == o.len() + 1
                &&& c == o.push(c.last())
                &&& c.last().raw_key@ == h256_le_bytes(script_hash)
                &&& c.last().block_number == old(self).db.block_num
                &&& c.last().tx_index == old(self).db.tx_index
                &&& c.last().value@ == script_bytes(script.code_hash, script.hash_type,
                    script.args@)
            }),
            final(self).db.inner.leaf_col@ == old(self).db.inner.leaf_col@,
            final(self).db.inner.data_col@ == old(self).db.inner.data_col@,
            final(self).db.inner.blocks@ == old(self).db.inner.blocks@,
            final(self).db.block_num == old(self).db.block_num,
            final(self).db.tx_index == old(self).db.tx_index,
            final(self).leaves == old(self).leaves,
            final(self).account_count == old(self).account_count,
            final(self).tracker == old(self).tracker,
    {
        let mut kb: Vec<u8> = Vec::new();
        push_h256_le_bytes(&mut kb, &script_hash);
        let mut enc: Vec<u8> = Vec::new();
        push_h256_le_bytes(&mut enc, &script.code_hash);
        enc.push(script.hash_type);
        let n: usize = script.args.len();
        let mut i: usize = 0;
        let ghost head = enc@;
        while i < n
            invariant
                n == script.args@.len(),
                i <= n,
                enc@ == head + script.args@.take(i as int),
            decreases n - i,
        {
            enc.push(script.args[i]);
            proof {
                assert(enc@ =~= head + script.args@.take(i as int + 1));
            }
            i = i + 1;
        }
        proof {
            assert(kb@ =~= h256_le_bytes(script_hash));
            assert(script.args@.take(n as int) =~= script.args@);
            assert(enc@ =~= script_bytes(script.code_hash, script.hash_type, script.args@));
        }
        match self.db.insert_raw(Col::Script, kb.as_slice(), enc.as_slice()) {
            Result::Ok(_) => {},
            Result::Err(_) => {},
        }
        proof {
            assert(self.db.inner.col_view(Col::AccountSmtLeaf)
                == old(self).db.inner.col_view(Col::AccountSmtLeaf));
            assert(self.db.inner.col_view(Col::Data) == old(self).db.inner.col_view(Col::Data));
        }
    }

    /// Looks an account script up by its script hash.
    pub fn get_script(&self, script_hash: &H256) -> (r: Option<Script>)
        ensures
            ({
                let sc = spec_script_of(
                    self.db.inner.script_col@,
                    self.db.version(),
                    *script_hash,
                );
                match r {
                    Option::Some(s) => sc == Option::Some(
                        (s.code_hash, s.hash_type, s.args@),
                    ),
                    Option::None => sc is None,
                }
            }),
    {
        let mut kb: Vec<u8> = Vec::new();
        push_h256_le_bytes(&mut kb, script_hash);
        proof {
            assert(kb@ =~= h256_le_bytes(*script_hash));
        }
        match self.db.get(Col::Script, kb.as_slice()) {
            Option::Some(bytes) => {
                if bytes.len() >= 33 {
                    let code_hash = h256_from_le_bytes(
                        vstd::slice::slice_subrange(bytes.as_slice(), 0, 32),
                    );
                    let hash_type: u8 = bytes[32];
                    let args = crate::state_db::slice_to_vec_u8(
                        vstd::slice::slice_subrange(bytes.as_slice(), 33, bytes.len()),
                    );
                    proof {
                        assert(args@ =~= bytes@.skip(33));
                    }
                    Option::Some(Script { code_hash, hash_type, args })
                } else {
                    Option::None
                }
            },
            Option::None => Option::None,
        }
    }

    /// Stores a contract code blob under its data hash.  The tombstone byte
    /// string is reserved and cannot be stored as a value.
    pub fn insert_data(&mut self, data_hash: H256, code: Vec<u8>)
        requires
            old(self).wf(),
            !is_tombstone(code@),
        ensures
            final(self).wf(),
            ({
                let c = final(self).db.inner.data_col@;
                let o = old(self).db.inner.data_col@;
                &&& c.len() == o.len() + 1
                &&& c == o.push(c.last())
                &&& c.last().raw_key@ == h256_le_bytes(data_hash)
                &&& c.last().block_number == old(self).db.block_num
                &&& c.last().tx_index == old(self).db.tx_index
                &&& c.last().value@ == code@
            }),
            final(self).db.inner.leaf_col@ == old(self).db.inner.leaf_col@,
            final(self).db.inner.script_col@ == old(self).db.inner.script_col@,
            final(self).db.inner.blocks@ == old(self).db.inner.blocks@,
            final(self).db.block_num == old(self).db.block_num,
            final(self).db.tx_index == old(self).db.tx_index,
            final(self).leaves == old(self).leaves,
            final(self).account_count == old(self).account_count,
            final(self).tracker == old(self).tracker,
    {
        let mut kb: Vec<u8> = Vec::new();
        push_h256_le_bytes(&mut kb, &data_hash);
        proof {
            assert(kb@ =~= h256_le_bytes(data_hash));
        }
        match self.db.insert_raw(Col::Data, kb.as_slice(), code.as_slice()) {
            Result::Ok(_) => {},
            Result::Err(_) => {},
        }
        proof {
            assert(self.db.inner.col_view(Col::AccountSmtLeaf)
                == old(self).db.inner.col_view(Col::AccountSmtLeaf));
            assert(self.db.inner.col_view(Col::Script)
                == old(self).db.inner.col_view(Col::Script));
        }
    }

    /// Looks a contract code blob up by its data hash.
    pub fn get_data(&self, data_hash: &H256) -> (r: Option<Vec<u8>>)
        ensures
            ({
                let lv = live_value(
                    self.db.inner.data_col@,
                    h256_le_bytes(*data_hash),
                    self.db.version(),
                );
                match r {
                    Option::Some(v) => lv == Option::Some(v@),
                    Option::None => lv is None,
                }
            }),
    {
        let mut kb: Vec<u8> = Vec::new();
        push_h256_le_bytes(&mut kb, data_hash);
        proof {
            assert(kb@ =~= h256_le_bytes(*data_hash));
        }
        self.db.get(Col::Data, kb.as_slice())
    }
}

} // verus!
