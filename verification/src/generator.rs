//! The execution engine and the state-transition driver.
//!
//! The deterministic virtual machine runs outside this crate; what it asks
//! of the state arrives here as a sequence of syscall events.  This module
//! holds every decision: how reads and writes are captured into a run
//! result, the nonce-increment invariant enforced after a successful run,
//! deposit crediting, and block application.

use vstd::prelude::*;

use crate::account::{
    spec_addr_to_h256, spec_balance_key, spec_pubkey_script_hash, spec_registry_key,
    spec_nonce_of, addr_to_h256, build_balance_key, build_registry_key, pubkey_script_hash,
    RegistryAddress, ETH_REGISTRY_ACCOUNT_ID,
};
use crate::error::Error;
use crate::h256::{
    build_account_key, lemma_from_u128_zero, serialize_nonce, spec_account_key,
    spec_serialize_nonce, H256, GW_ACCOUNT_NONCE, GW_ACCOUNT_SCRIPT_HASH,
};
use crate::kvlist::{
    kv_get, kv_upsert, lemma_map_of_contains, map_of, state_value, unique_keys,
};
use crate::state_db::slice_to_vec_u8;
use crate::state_tree::StateTree;

verus! {

/// One deposit record: credit `value` of token `token_id` to the account,
/// creating it on first deposit.
#[derive(Clone, Copy, PartialEq, Eq, Structural, Debug)]
pub struct DepositionRequest {
    pub pubkey_hash: RegistryAddress,
    pub account_id: u32,
    pub token_id: H256,
    pub value: u128,
}

/// One syscall the running program made, as observed at the bridge.
#[derive(Clone, Debug)]
pub enum SyscallEvent {
    /// The program read a raw state key.
    ReadState { key: H256 },
    /// The program wrote a raw state key.
    WriteState { key: H256, value: H256 },
    /// The program emitted a log record.
    EmitLog { data: Vec<u8> },
}

/// The observable behaviour of one virtual-machine run: its syscalls in
/// order, and its exit code.
#[derive(Clone, Debug)]
pub struct ExecutionTrace {
    pub events: Vec<SyscallEvent>,
    pub exit_code: i8,
}

/// The captured footprint of one execution: the value observed on first
/// read of each key, the final value written to each key, and the emitted
/// logs.
#[derive(Clone, Debug)]
pub struct RunResult {
    pub read_values: Vec<(H256, H256)>,
    pub write_values: Vec<(H256, H256)>,
    pub logs: Vec<Vec<u8>>,
}

impl RunResult {
    pub open spec fn read_map(self) -> Map<H256, H256> {
        map_of(self.read_values@)
    }

    pub open spec fn write_map(self) -> Map<H256, H256> {
        map_of(self.write_values@)
    }

    pub open spec fn wf(self) -> bool {
        unique_keys(self.read_values@) && unique_keys(self.write_values@)
    }

    pub fn new() -> (r: RunResult)
        ensures
            r.wf(),
            r.read_map() == Map::<H256, H256>::empty(),
            r.write_map() == Map::<H256, H256>::empty(),
            r.logs@.len() == 0,
    {
        RunResult { read_values: Vec::new(), write_values: Vec::new(), logs: Vec::new() }
    }
}

/// The final value written to each key by a sequence of events, later
/// writes overwriting earlier ones.
pub open spec fn written_map(events: Seq<SyscallEvent>) -> Map<H256, H256>
    decreases events.len(),
{
    if events.len() == 0 {
        Map::empty()
    } else {
        match events.last() {
            SyscallEvent::WriteState { key, value } => written_map(
                events.drop_last(),
            ).insert(key, value),
            _ => written_map(events.drop_last()),
        }
    }
}

/// The set of keys a sequence of events read.
pub open spec fn read_keys(events: Seq<SyscallEvent>) -> Set<H256>
    decreases events.len(),
{
    if events.len() == 0 {
        Set::empty()
    } else {
        match events.last() {
            SyscallEvent::ReadState { key } => read_keys(events.drop_last()).insert(key),
            _ => read_keys(events.drop_last()),
        }
    }
}

/// The log records a sequence of events emitted, in order.
pub open spec fn logs_of(events: Seq<SyscallEvent>) -> Seq<Seq<u8>>
    decreases events.len(),
{
    if events.len() == 0 {
        Seq::empty()
    } else {
        match events.last() {
            SyscallEvent::EmitLog { data } => logs_of(events.drop_last()).push(data@),
            _ => logs_of(events.drop_last()),
        }
    }
}

/// A state map overwritten by a write map: written non-zero values replace,
/// written zero values delete, everything else stays.
pub open spec fn overwrite_zero(m: Map<H256, H256>, w: Map<H256, H256>) -> Map<H256, H256> {
    Map::new(
        |k: H256|
            if w.dom().contains(k) {
                !w[k].spec_is_zero()
            } else {
                m.dom().contains(k)
            },
        |k: H256| if w.dom().contains(k) { w[k] } else { m[k] },
    )
}

/// Records a read at the syscall bridge: the pre-image from the state tree
/// is captured into `read_values` on first occurrence only, and the value
/// the program observes is the pending write if one exists, else the state
/// value.
pub fn sys_load(state: &mut StateTree, rr: &mut RunResult, key: H256) -> (r: Result<H256, Error>)
    requires
        old(state).wf(),
        old(rr).wf(),
    ensures
        final(state).wf(),
        final(rr).wf(),
        final(state).db == old(state).db,
        final(state).leaves == old(state).leaves,
        final(state).account_count == old(state).account_count,
        final(rr).read_map() == if old(rr).read_map().dom().contains(key) {
            old(rr).read_map()
        } else {
            old(rr).read_map().insert(key, state_value(old(state).leaf_map(), key))
        },
        final(rr).write_values == old(rr).write_values,
        final(rr).logs == old(rr).logs,
        match r {
            Result::Ok(v) => v == if old(rr).write_map().dom().contains(key) {
                old(rr).write_map()[key]
            } else {
                state_value(old(state).leaf_map(), key)
            },
            Result::Err(_) => false,
        },
{
    let v0 = match state.get_raw(&key) {
        Result::Ok(v) => v,
        Result::Err(e) => {
            return Result::Err(e);
        },
    };
    let seen = match kv_get(&rr.read_values, &key) {
        Option::Some(_) => true,
        Option::None => false,
    };
    if !seen {
        kv_upsert(&mut rr.read_values, key, v0);
    }
    match kv_get(&rr.write_values, &key) {
        Option::Some(w) => Result::Ok(w),
        Option::None => Result::Ok(v0),
    }
}

/// Records a write at the syscall bridge: buffered into `write_values`,
/// later writes to the same key overwriting earlier ones; the state tree is
/// untouched.
pub fn sys_store(rr: &mut RunResult, key: H256, value: H256)
    requires
        old(rr).wf(),
    ensures
        final(rr).wf(),
        final(rr).write_map() == old(rr).write_map().insert(key, value),
        final(rr).read_values == old(rr).read_values,
        final(rr).logs == old(rr).logs,
{
    kv_upsert(&mut rr.write_values, key, value);
}

/// Applies a run result's writes onto the state tree, in order.
pub open spec fn apply_writes(m: Map<H256, H256>, s: Seq<(H256, H256)>) -> Map<H256, H256>
    decreases s.len(),
{
    if s.len() == 0 {
        m
    } else {
        let m1 = if s[0].1.spec_is_zero() {
            m.remove(s[0].0)
        } else {
            m.insert(s[0].0, s[0].1)
        };
        apply_writes(m1, s.skip(1))
    }
}

/// With pairwise-distinct keys, applying writes in order equals overwriting
/// with the denoted map.
pub proof fn lemma_apply_writes_overwrite(m: Map<H256, H256>, s: Seq<(H256, H256)>)
    requires
        unique_keys(s),
    ensures
        apply_writes(m, s) == overwrite_zero(m, map_of(s)),
    decreases s.len(),
{
    if s.len() == 0 {
        assert(apply_writes(m, s) =~= overwrite_zero(m, map_of(s)));
    } else {
        let k0 = s[0].0;
        let v0 = s[0].1;
        let m1 = if v0.spec_is_zero() {
            m.remove(k0)
        } else {
            m.insert(k0, v0)
        };
        let t = s.skip(1);
        assert(forall|i: int| 0 <= i < t.len() ==> t[i] == s[i + 1]);
        assert(unique_keys(t)) by {
            assert(forall|a: int, b: int| 0 <= a < b < t.len() ==> t[a].0 != t[b].0);
        }
        lemma_apply_writes_overwrite(m1, t);
        lemma_map_of_contains(t, k0);
        assert(forall|i: int| 0 <= i < t.len() ==> t[i].0 != k0);
        assert(!map_of(t).dom().contains(k0));
        crate::kvlist::lemma_map_of_index(s, 0);
        let lhs = overwrite_zero(m1, map_of(t));
        let rhs = overwrite_zero(m, map_of(s));
        assert forall|k: H256| #[trigger] lhs.dom().contains(k)
            implies rhs.dom().contains(k) && lhs[k] == rhs[k] by {
            lemma_map_of_contains(s, k);
            lemma_map_of_contains(t, k);
            if k != k0 {
                if map_of(t).dom().contains(k) {
                    let i = choose|i: int| 0 <= i < t.len() && t[i].0 == k;
                    crate::kvlist::lemma_map_of_index(t, i);
                    crate::kvlist::lemma_map_of_index(s, i + 1);
                } else if map_of(s).dom().contains(k) {
                    let i = choose|i: int| 0 <= i < s.len() && s[i].0 == k;
                    assert(i > 0);
                    assert(t[i - 1] == s[i]);
                }
            }
        }
        assert forall|k: H256| #[trigger] rhs.dom().contains(k)
            implies lhs.dom().contains(k) by {
            lemma_map_of_contains(s, k);
            lemma_map_of_contains(t, k);
            if k != k0 {
                if map_of(s).dom().contains(k) {
                    let i = choose|i: int| 0 <= i < s.len() && s[i].0 == k;
                    assert(i > 0);
                    assert(t[i - 1] == s[i]);
                    crate::kvlist::lemma_map_of_index(s, i);
                    crate::kvlist::lemma_map_of_index(t, i - 1);
                }
            }
        }
        assert(apply_writes(m, s) == apply_writes(m1, t));
        assert(lhs =~= rhs);
    }
}

/// Applies a run result's buffered writes onto the state tree, overwriting
/// prior leaf values at each key; a zero write removes the leaf.
pub fn apply_run_result(state: &mut StateTree, rr: &RunResult) -> (r: Result<(), Error>)
    requires
        old(state).wf(),
    ensures
        r is Ok,
        final(state).wf(),
        final(state).leaf_map() == apply_writes(old(state).leaf_map(), rr.write_values@),
        final(state).account_count == old(state).account_count,
        final(state).db.block_num == old(state).db.block_num,
        final(state).db.tx_index == old(state).db.tx_index,
        final(state).db.inner.blocks@ == old(state).db.inner.blocks@,
        final(state).db.inner.script_col@ == old(state).db.inner.script_col@,
        final(state).db.inner.data_col@ == old(state).db.inner.data_col@,
        rr.wf() ==> final(state).leaf_map() == overwrite_zero(
            old(state).leaf_map(),
            rr.write_map(),
        ),
{
    proof {
        if rr.wf() {
            lemma_apply_writes_overwrite(old(state).leaf_map(), rr.write_values@);
        }
    }
    let n: usize = rr.write_values.len();
    let mut i: usize = 0;
    proof {
        assert(rr.write_values@.skip(0) =~= rr.write_values@);
    }
    while i < n
        invariant
            n == rr.write_values@.len(),
            i <= n,
            state.wf(),
            apply_writes(old(state).leaf_map(), rr.write_values@) == apply_writes(
                state.leaf_map(),
                rr.write_values@.skip(i as int),
            ),
            state.account_count == old(state).account_count,
            state.db.block_num == old(state).db.block_num,
            state.db.tx_index == old(state).db.tx_index,
            state.db.inner.blocks@ == old(state).db.inner.blocks@,
            state.db.inner.script_col@ == old(state).db.inner.script_col@,
            state.db.inner.data_col@ == old(state).db.inner.data_col@,
        decreases n - i,
    {
        let (k, v) = rr.write_values[i];
        proof {
            let rest = rr.write_values@.skip(i as int);
            assert(rest[0] == rr.write_values@[i as int]);
            assert(rest.skip(1) =~= rr.write_values@.skip(i as int + 1));
        }
        match state.update_raw(k, v) {
            Result::Ok(_) => {},
            Result::Err(e) => {
                return Result::Err(e);
            },
        }
        i = i + 1;
    }
    proof {
        assert(rr.write_values@.skip(n as int) =~= Seq::<(H256, H256)>::empty());
    }
    Result::Ok(())
}

/// What one deposit does to the account-state map and the account count:
/// create the account on first deposit (script hash and registry mapping),
/// grow the account count, and credit the balance; `None` on balance
/// overflow.
pub open spec fn deposit_step(m: Map<H256, H256>, count: u32, req: DepositionRequest) -> Option<
    (Map<H256, H256>, u32),
> {
    let sh_key = spec_account_key(req.account_id, GW_ACCOUNT_SCRIPT_HASH);
    let psh = spec_pubkey_script_hash(req.pubkey_hash);
    let m1 = if state_value(m, sh_key).spec_is_zero() {
        m.insert(sh_key, psh).insert(
            spec_registry_key(ETH_REGISTRY_ACCOUNT_ID, psh),
            spec_addr_to_h256(req.pubkey_hash),
        )
    } else {
        m
    };
    let c1 = if req.account_id >= count {
        (req.account_id + 1) as u32
    } else {
        count
    };
    let bkey = spec_balance_key(req.token_id, req.pubkey_hash);
    let bal = state_value(m1, bkey).spec_to_u128();
    if bal + req.value > u128::MAX {
        Option::None
    } else {
        let nb = (bal + req.value) as u128;
        let m2 = if nb == 0 {
            m1.remove(bkey)
        } else {
            m1.insert(bkey, H256::spec_from_u128(nb))
        };
        Option::Some((m2, c1))
    }
}

/// Deposits applied in order; `None` as soon as one overflows.
pub open spec fn deposits_fold(
    m: Map<H256, H256>,
    count: u32,
    reqs: Seq<DepositionRequest>,
) -> Option<(Map<H256, H256>, u32)>
    decreases reqs.len(),
{
    if reqs.len() == 0 {
        Option::Some((m, count))
    } else {
        match deposit_step(m, count, reqs[0]) {
            Option::Some((m1, c1)) => deposits_fold(m1, c1, reqs.skip(1)),
            Option::None => Option::None,
        }
    }
}

impl StateTree {
    /// Applies a block's deposits, in order and unconditionally before any
    /// transaction: account creation on first deposit is implicit, balances
    /// are credited against the token identifier.
    pub fn apply_deposition_requests(&mut self, reqs: &Vec<DepositionRequest>) -> (r: Result<
        (),
        Error,
    >)
        requires
            old(self).wf(),
            forall|i: int| 0 <= i < reqs@.len() ==> reqs@[i].account_id < u32::MAX,
        ensures
            final(self).wf(),
            match r {
                Result::Ok(_) => deposits_fold(
                    old(self).leaf_map(),
                    old(self).account_count,
                    reqs@,
                ) == Option::Some((final(self).leaf_map(), final(self).account_count)),
                Result::Err(e) => e == Error::AmountOverflow && deposits_fold(
                    old(self).leaf_map(),
                    old(self).account_count,
                    reqs@,
                ) is None,
            },
            final(self).db.block_num == old(self).db.block_num,
            final(self).db.tx_index == old(self).db.tx_index,
            final(self).db.inner.blocks@ == old(self).db.inner.blocks@,
            final(self).db.inner.script_col@ == old(self).db.inner.script_col@,
            final(self).db.inner.data_col@ == old(self).db.inner.data_col@,
    {
        let n: usize = reqs.len();
        let mut i: usize = 0;
        proof {
            assert(reqs@.skip(0) =~= reqs@);
        }
        while i < n
            invariant
                n == reqs@.len(),
                i <= n,
                self.wf(),
                forall|j: int| 0 <= j < reqs@.len() ==> reqs@[j].account_id < u32::MAX,
                deposits_fold(old(self).leaf_map(), old(self).account_count, reqs@)
                    == deposits_fold(self.leaf_map(), self.account_count, reqs@.skip(i as int)),
                self.db.block_num == old(self).db.block_num,
                self.db.tx_index == old(self).db.tx_index,
                self.db.inner.blocks@ == old(self).db.inner.blocks@,
                self.db.inner.script_col@ == old(self).db.inner.script_col@,
                self.db.inner.data_col@ == old(self).db.inner.data_col@,
            decreases n - i,
        {
            proof {
                let rest = reqs@.skip(i as int);
                assert(rest[0] == reqs@[i as int]);
                assert(rest.skip(1) =~= reqs@.skip(i as int + 1));
            }
            let req = reqs[i];
            let sh = match self.get_script_hash(req.account_id) {
                Result::Ok(h) => h,
                Result::Err(e) => {
                    return Result::Err(e);
                },
            };
            if sh.is_zero() {
                let psh = pubkey_script_hash(&req.pubkey_hash);
                let sh_key = build_account_key(req.account_id, GW_ACCOUNT_SCRIPT_HASH);
                match self.update_raw(sh_key, psh) {
                    Result::Ok(_) => {},
                    Result::Err(e) => {
                        return Result::Err(e);
                    },
                }
                let rkey = build_registry_key(ETH_REGISTRY_ACCOUNT_ID, &psh);
                let addr_value = addr_to_h256(&req.pubkey_hash);
                proof {
                    assert(!addr_value.spec_is_zero());
                }
                match self.update_raw(rkey, addr_value) {
                    Result::Ok(_) => {},
                    Result::Err(e) => {
                        return Result::Err(e);
                    },
                }
            }
            if req.account_id >= self.account_count {
                match self.set_account_count(req.account_id + 1) {
                    Result::Ok(_) => {},
                    Result::Err(e) => {
                        return Result::Err(e);
                    },
                }
            }
            let bal = match self.get_sudt_balance(&req.token_id, &req.pubkey_hash) {
                Result::Ok(b) => b,
                Result::Err(e) => {
                    return Result::Err(e);
                },
            };
            if req.value > u128::MAX - bal {
                return Result::Err(Error::AmountOverflow);
            }
            let nb: u128 = bal + req.value;
            proof {
                lemma_from_u128_zero(nb);
            }
            let bkey = build_balance_key(&req.token_id, &req.pubkey_hash);
            match self.update_raw(bkey, H256::from_u128(nb)) {
                Result::Ok(_) => {},
                Result::Err(e) => {
                    return Result::Err(e);
                },
            }
            i = i + 1;
        }
        proof {
            assert(reqs@.skip(n as int) =~= Seq::<DepositionRequest>::empty());
        }
        Result::Ok(())
    }
}

/// The unsigned part of a transaction.
#[derive(Clone, Debug)]
pub struct RawL2Transaction {
    pub chain_id: u64,
    pub from_id: u32,
    pub to_id: u32,
    pub nonce: u32,
    pub args: Vec<u8>,
}

/// A transaction as received: raw part and signature.  Signature
/// verification is the caller's job, before this core is invoked.
#[derive(Clone, Debug)]
pub struct L2Transaction {
    pub raw: RawL2Transaction,
    pub signature: Vec<u8>,
}

/// The context one execution runs under; only message-call transactions are
/// accepted from end users, so the context is derived from the raw
/// transaction directly.
#[derive(Clone, Debug)]
pub struct CallContext {
    pub from_id: u32,
    pub to_id: u32,
    pub args: Vec<u8>,
}

impl RawL2Transaction {
    pub fn to_call_context(&self) -> (r: CallContext)
        ensures
            r.from_id == self.from_id,
            r.to_id == self.to_id,
            r.args@ == self.args@,
    {
        CallContext {
            from_id: self.from_id,
            to_id: self.to_id,
            args: slice_to_vec_u8(self.args.as_slice()),
        }
    }
}

/// A block's header fields as this core reads them.
#[derive(Clone, Copy, PartialEq, Eq, Structural, Debug)]
pub struct RawL2Block {
    pub number: u64,
    pub aggregator_id: u32,
    pub timestamp: u64,
    /// A block marked invalid is recorded but never applied.
    pub valid: bool,
    /// Whether the block submits its transactions for application.
    pub submit_transactions: bool,
}

/// A block: header and transactions.
#[derive(Clone, Debug)]
pub struct L2Block {
    pub raw: RawL2Block,
    pub transactions: Vec<L2Transaction>,
}

/// What the running program may ask about the enclosing block.
#[derive(Clone, Copy, PartialEq, Eq, Structural, Debug)]
pub struct BlockInfo {
    pub aggregator_id: u32,
    pub number: u64,
    pub timestamp: u64,
}

/// The block info handed to every execution in a block.
pub fn get_block_info(l2block: &RawL2Block) -> (r: BlockInfo)
    ensures
        r.aggregator_id == l2block.aggregator_id,
        r.number == l2block.number,
        r.timestamp == l2block.timestamp,
{
    BlockInfo {
        aggregator_id: l2block.aggregator_id,
        number: l2block.number,
        timestamp: l2block.timestamp,
    }
}

/// Everything one block application needs: the block, its deposits, and one
/// execution trace per transaction, observed from the virtual machine.
#[derive(Clone, Debug)]
pub struct StateTransitionArgs {
    pub l2block: L2Block,
    pub deposition_requests: Vec<DepositionRequest>,
    pub tx_traces: Vec<ExecutionTrace>,
}

/// The write map one successful execution commits: the program's writes,
/// with the sender's nonce forced to its old value plus one.
pub open spec fn tx_write_map(m: Map<H256, H256>, from_id: u32, events: Seq<SyscallEvent>)
    -> Map<H256, H256> {
    written_map(events).insert(
        spec_account_key(from_id, GW_ACCOUNT_NONCE),
        spec_serialize_nonce((spec_nonce_of(m, from_id) + 1) as u32),
    )
}

/// Transactions of a block replayed in order from index `i`: each must
/// carry the sender's exact current nonce, its execution must exit zero,
/// and its writes overwrite the state.
pub open spec fn replay_txs(
    m: Map<H256, H256>,
    txs: Seq<L2Transaction>,
    traces: Seq<ExecutionTrace>,
    i: int,
) -> Result<Map<H256, H256>, Error>
    decreases txs.len() - i,
{
    if i < 0 || i >= txs.len() {
        Result::Ok(m)
    } else {
        let expected = spec_nonce_of(m, txs[i].raw.from_id);
        if txs[i].raw.nonce != expected {
            Result::Err(Error::Nonce { expected, actual: txs[i].raw.nonce })
        } else if expected == u32::MAX {
            Result::Err(Error::AmountOverflow)
        } else if traces[i].exit_code != 0 {
            Result::Err(Error::InvalidExitCode(traces[i].exit_code))
        } else {
            replay_txs(
                overwrite_zero(m, tx_write_map(m, txs[i].raw.from_id, traces[i].events@)),
                txs,
                traces,
                i + 1,
            )
        }
    }
}

/// The execution engine: the deterministic program binaries live outside
/// this crate, and the contract-code store travels with the engine for the
/// virtual machine's code-lookup syscall.
#[verifier::reject_recursive_types(CS)]
pub struct Generator<CS> {
    pub code_store: CS,
}

impl<CS> Generator<CS> {
    pub fn new(code_store: CS) -> (r: Generator<CS>) {
        Generator { code_store }
    }

    /// Executes one transaction: replays the virtual machine's observed
    /// syscalls through the bridge, rejects a non-zero exit code, then
    /// enforces the nonce-increment invariant — whether or not the program
    /// touched the nonce key, `write_values` maps the sender's nonce key to
    /// exactly the old nonce plus one.  The sender's nonce counter must not
    /// be exhausted.  The state tree itself is untouched; the run result is
    /// the only side effect.
    pub fn execute(
        &self,
        state: &mut StateTree,
        block_info: &BlockInfo,
        call_context: &CallContext,
        trace: &ExecutionTrace,
    ) -> (r: Result<RunResult, Error>)
        requires
            old(state).wf(),
            spec_nonce_of(old(state).leaf_map(), call_context.from_id) < u32::MAX,
        ensures
            final(state).wf(),
            final(state).db == old(state).db,
            final(state).leaves == old(state).leaves,
            final(state).account_count == old(state).account_count,
            r is Ok <==> trace.exit_code == 0,
            match r {
                Result::Ok(rr) => ({
                    let m = old(state).leaf_map();
                    let nk = spec_account_key(call_context.from_id, GW_ACCOUNT_NONCE);
                    let n0 = spec_nonce_of(m, call_context.from_id);
                    &&& rr.wf()
                    &&& rr.write_map() == tx_write_map(m, call_context.from_id, trace.events@)
                    &&& rr.read_map().dom() == read_keys(trace.events@).insert(nk)
                    &&& forall|k: H256| #[trigger] read_keys(trace.events@).contains(k)
                        ==> rr.read_map()[k] == state_value(m, k)
                    &&& rr.read_map()[nk] == if read_keys(trace.events@).contains(nk) {
                        state_value(m, nk)
                    } else {
                        spec_serialize_nonce(n0)
                    }
                    &&& rr.logs@.len() == logs_of(trace.events@).len()
                    &&& forall|j: int| 0 <= j < rr.logs@.len()
                        ==> rr.logs@[j]@ == logs_of(trace.events@)[j]
                }),
                Result::Err(e) => e == Error::InvalidExitCode(trace.exit_code),
            },
    {
        let ghost m = old(state).leaf_map();
        let ghost ev = trace.events@;
        let mut rr = RunResult::new();
        let n: usize = trace.events.len();
        let mut i: usize = 0;
        proof {
            assert(ev.take(0) =~= Seq::<SyscallEvent>::empty());
            assert(rr.read_map().dom() =~= read_keys(ev.take(0)));
        }
        while i < n
            invariant
                n == ev.len(),
                i <= n,
                ev == trace.events@,
                state.wf(),
                m == state.leaf_map(),
                state.db == old(state).db,
                state.leaves == old(state).leaves,
                state.account_count == old(state).account_count,
                rr.wf(),
                rr.write_map() == written_map(ev.take(i as int)),
                rr.read_map().dom() == read_keys(ev.take(i as int)),
                forall|k: H256| #[trigger] rr.read_map().dom().contains(k)
                    ==> rr.read_map()[k] == state_value(m, k),
                rr.logs@.len() == logs_of(ev.take(i as int)).len(),
                forall|j: int| 0 <= j < rr.logs@.len()
                    ==> rr.logs@[j]@ == logs_of(ev.take(i as int))[j],
            decreases n - i,
        {
            proof {
                let t1 = ev.take(i as int + 1);
                assert(t1.drop_last() =~= ev.take(i as int));
                assert(t1.last() == ev[i as int]);
            }
            let ev_i = &trace.events[i];
            match ev_i {
                SyscallEvent::ReadState { key } => {
                    let ghost pre_dom = rr.read_map().dom();
                    let _observed = match sys_load(state, &mut rr, *key) {
                        Result::Ok(v) => v,
                        Result::Err(e) => {
                            return Result::Err(e);
                        },
                    };
                    proof {
                        if pre_dom.contains(*key) {
                            assert(rr.read_map().dom() =~= pre_dom.insert(*key));
                        }
                    }
                },
                SyscallEvent::WriteState { key, value } => {
                    sys_store(&mut rr, *key, *value);
                },
                SyscallEvent::EmitLog { data } => {
                    rr.logs.push(slice_to_vec_u8(data.as_slice()));
                },
            }
            i = i + 1;
        }
        proof {
            assert(ev.take(n as int) =~= ev);
        }
        if trace.exit_code != 0 {
            return Result::Err(Error::InvalidExitCode(trace.exit_code));
        }
        let nonce = match state.get_nonce(call_context.from_id) {
            Result::Ok(v) => v,
            Result::Err(e) => {
                return Result::Err(e);
            },
        };
        let nonce_key = build_account_key(call_context.from_id, GW_ACCOUNT_NONCE);
        let seen = match kv_get(&rr.read_values, &nonce_key) {
            Option::Some(_) => true,
            Option::None => false,
        };
        let ghost pre_dom = rr.read_map().dom();
        if !seen {
            kv_upsert(&mut rr.read_values, nonce_key, serialize_nonce(nonce));
        }
        proof {
            if seen {
                assert(rr.read_map().dom() =~= pre_dom.insert(nonce_key));
            }
        }
        kv_upsert(&mut rr.write_values, nonce_key, serialize_nonce(nonce + 1));
        Result::Ok(rr)
    }

    /// Applies one block: a block marked invalid is a deliberate no-op;
    /// deposits are applied first, unconditionally; then each transaction
    /// in block order must carry the sender's exact current nonce, is
    /// executed, and has its writes applied.  The first failure is fatal to
    /// the whole application — nothing is rolled back here, the caller owns
    /// atomicity through the underlying store transaction.
    pub fn apply_state_transition(&self, state: &mut StateTree, args: StateTransitionArgs)
        -> (r: Result<(), Error>)
        requires
            old(state).wf(),
            args.tx_traces@.len() == args.l2block.transactions@.len(),
            forall|i: int| 0 <= i < args.deposition_requests@.len()
                ==> args.deposition_requests@[i].account_id < u32::MAX,
        ensures
            final(state).wf(),
            !args.l2block.raw.valid ==> r is Ok && *final(state) == *old(state),
            args.l2block.raw.valid ==> ({
                let txs = if args.l2block.raw.submit_transactions {
                    args.l2block.transactions@
                } else {
                    Seq::<L2Transaction>::empty()
                };
                let dep = deposits_fold(
                    old(state).leaf_map(),
                    old(state).account_count,
                    args.deposition_requests@,
                );
                match r {
                    Result::Ok(_) => dep is Some && replay_txs(
                        dep.unwrap().0,
                        txs,
                        args.tx_traces@,
                        0,
                    ) == Result::<Map<H256, H256>, Error>::Ok(final(state).leaf_map())
                        && final(state).account_count == dep.unwrap().1,
                    Result::Err(e) => (dep is None && e == Error::AmountOverflow) || (dep is Some
                        && replay_txs(dep.unwrap().0, txs, args.tx_traces@, 0)
                            == Result::<Map<H256, H256>, Error>::Err(e)),
                }
            }),
    {
        if !args.l2block.raw.valid {
            return Result::Ok(());
        }
        match state.apply_deposition_requests(&args.deposition_requests) {
            Result::Ok(_) => {},
            Result::Err(e) => {
                return Result::Err(e);
            },
        }
        let ghost m1 = state.leaf_map();
        let ghost c1 = state.account_count;
        if args.l2block.raw.submit_transactions {
            let ghost txs = args.l2block.transactions@;
            let ghost traces = args.tx_traces@;
            let block_info = get_block_info(&args.l2block.raw);
            let n: usize = args.l2block.transactions.len();
            let mut i: usize = 0;
            while i < n
                invariant
                    n == txs.len(),
                    i <= n,
                    txs == args.l2block.transactions@,
                    traces == args.tx_traces@,
                    traces.len() == txs.len(),
                    args.l2block.raw.valid,
                    args.l2block.raw.submit_transactions,
                    deposits_fold(
                        old(state).leaf_map(),
                        old(state).account_count,
                        args.deposition_requests@,
                    ) == Option::Some((m1, c1)),
                    state.wf(),
                    state.account_count == c1,
                    replay_txs(m1, txs, traces, 0) == replay_txs(
                        state.leaf_map(),
                        txs,
                        traces,
                        i as int,
                    ),
                decreases n - i,
            {
                let tx = &args.l2block.transactions[i];
                let expected = match state.get_nonce(tx.raw.from_id) {
                    Result::Ok(v) => v,
                    Result::Err(e) => {
                        return Result::Err(e);
                    },
                };
                let actual: u32 = tx.raw.nonce;
                if actual != expected {
                    return Result::Err(Error::Nonce { expected, actual });
                }
                if expected == u32::MAX {
                    return Result::Err(Error::AmountOverflow);
                }
                let call_context = tx.raw.to_call_context();
                let rr = match self.execute(state, &block_info, &call_context,
                    &args.tx_traces[i]) {
                    Result::Ok(rr) => rr,
                    Result::Err(e) => {
                        return Result::Err(e);
                    },
                };
                match apply_run_result(state, &rr) {
                    Result::Ok(_) => {},
                    Result::Err(e) => {
                        return Result::Err(e);
                    },
                }
                i = i + 1;
            }
        }
        Result::Ok(())
    }
}

} // verus!
