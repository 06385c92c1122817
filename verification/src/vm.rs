//! The interpreter: an explicit stack of call frames over a shared
//! environment, substate and cached database, with one state backup
//! per open frame, restored verbatim on revert.

use vstd::prelude::*;
use crate::account::{Account, StorageSlot};
use crate::bytebuf::{bytes_clone, bytes_new, bytes_view};
use crate::call_frame::CallFrame;
use crate::db::{cache_model, cache_wf, read_through, CacheDB, GeneralizedDatabase};
use crate::environment::Environment;
use crate::errors::{ExecutionReport, InternalError, Log, OpcodeResult, TxResult, VMError};
use crate::fork::Fork;
use crate::kv::KvMap;
use crate::substate::{Substate, TransientStorage};
use crate::word::{Address, U256};

verus! {

/// Whether a transaction calls an existing account or creates one.
#[derive(Clone, Copy)]
pub enum TxKind {
    Call(Address),
    Create,
}

/// The fields of a transaction the interpreter core reads.
pub struct Transaction {
    pub to: TxKind,
    pub value: U256,
    pub data: bytes::Bytes,
    pub access_list: Vec<(Address, Vec<U256>)>,
    pub blob_versioned_hashes: Vec<U256>,
}

/// What a parent remembers about a pending subcall.
pub struct RetData {
    pub is_create: bool,
    pub ret_offset: U256,
    pub ret_size: usize,
    pub should_transfer_value: bool,
    pub to: Address,
    pub msg_sender: Address,
    pub value: U256,
    pub max_message_call_gas: u64,
}

/// A deep snapshot taken at frame entry and restored on revert:
/// cache, substate, refund counter and transient storage.
pub struct StateBackup {
    pub cache: CacheDB,
    pub substate: Substate,
    pub refunded_gas: u64,
    pub transient_storage: TransientStorage,
}

impl StateBackup {
    pub open spec fn wf(&self) -> bool {
        cache_wf(self.cache) && self.substate.wf() && self.transient_storage.wf()
    }

    pub fn new(
        cache: CacheDB,
        substate: Substate,
        refunded_gas: u64,
        transient_storage: TransientStorage,
    ) -> (r: StateBackup)
        ensures
            r.cache == cache,
            r.substate == substate,
            r.refunded_gas == refunded_gas,
            r.transient_storage == transient_storage,
    {
        StateBackup { cache, substate, refunded_gas, transient_storage }
    }
}

pub open spec fn frames_wf(s: Seq<CallFrame>) -> bool {
    forall|i: int| 0 <= i < s.len() ==> #[trigger] s[i].wf()
}

pub open spec fn backups_wf(s: Seq<StateBackup>) -> bool {
    forall|i: int| 0 <= i < s.len() ==> #[trigger] s[i].wf()
}

/// Gas still unspent across a stack of frames.
pub open spec fn frames_gas(s: Seq<CallFrame>) -> int
    decreases s.len(),
{
    if s.len() == 0 {
        0
    } else {
        frames_gas(s.drop_last()) + (s.last().gas_limit - s.last().gas_used)
    }
}

pub proof fn lemma_frames_gas_nonneg(s: Seq<CallFrame>)
    requires
        frames_wf(s),
    ensures
        frames_gas(s) >= 0,
    decreases s.len(),
{
    if s.len() > 0 {
        assert(frames_wf(s.drop_last())) by {
            assert(forall|i: int| 0 <= i < s.len() - 1 ==> s.drop_last()[i] == s[i]);
        }
        lemma_frames_gas_nonneg(s.drop_last());
        assert(s[s.len() - 1].wf());
    }
}

/// Everything outside the frame stack is untouched.
pub open spec fn same_world(a: VM, b: VM) -> bool {
    &&& b.env == a.env
    &&& b.db == a.db
    &&& b.accrued_substate == a.accrued_substate
    &&& b.tx_kind == a.tx_kind
    &&& b.access_list == a.access_list
    &&& b.cache_backup == a.cache_backup
    &&& b.return_data == a.return_data
    &&& b.backups == a.backups
}

/// No frame, return-data or backup entries came or went, and no
/// frame's gas allowance changed.
pub open spec fn stacks_unchanged(a: VM, b: VM) -> bool {
    &&& b.return_data == a.return_data
    &&& b.backups == a.backups
    &&& b.call_frames@.len() == a.call_frames@.len()
    &&& forall|i: int| 0 <= i < a.call_frames@.len()
        ==> #[trigger] b.call_frames@[i].gas_limit == a.call_frames@[i].gas_limit
}

/// Exactly one child frame was pushed, with its return-data and
/// backup entries beside it.
pub open spec fn stacks_extended_by_child(a: VM, b: VM) -> bool {
    &&& b.call_frames@.len() == a.call_frames@.len() + 1
    &&& b.return_data@.len() == a.return_data@.len() + 1
    &&& b.return_data@.drop_last() == a.return_data@
    &&& b.backups@.len() == a.backups@.len() + 1
    &&& b.backups@.drop_last() == a.backups@
    &&& b.return_data@.last().max_message_call_gas == b.cur().gas_limit
    &&& forall|i: int| 0 <= i < a.call_frames@.len()
        ==> #[trigger] b.call_frames@[i].gas_limit == a.call_frames@[i].gas_limit
}

/// The three parallel stacks stay aligned while the machine runs: one
/// backup per open frame, one pending return record per subframe, and
/// each record remembering its child frame's gas allowance.
pub open spec fn stacks_aligned(v: VM) -> bool {
    &&& v.backups@.len() == v.call_frames@.len()
    &&& v.return_data@.len() + 1 == v.call_frames@.len()
    &&& forall|i: int| 0 <= i < v.return_data@.len()
        ==> #[trigger] v.return_data@[i].max_message_call_gas == v.call_frames@[i + 1].gas_limit
}

/// The fields of a frame that an ordinary opcode never changes.
pub open spec fn ctx(f: CallFrame) -> (
    Address,
    Address,
    Address,
    bytes::Bytes,
    U256,
    bytes::Bytes,
    bool,
    u16,
    u64,
    Vec<usize>,
    bool,
) {
    (
        f.msg_sender,
        f.to,
        f.code_address,
        f.bytecode,
        f.msg_value,
        f.calldata,
        f.is_static,
        f.depth,
        f.gas_limit,
        f.valid_jump_destinations,
        f.is_create,
    )
}

/// Replacing the last frame changes the pooled gas by that frame's
/// unspent-gas difference.
pub proof fn lemma_frames_gas_update(s: Seq<CallFrame>, f: CallFrame)
    requires
        s.len() > 0,
    ensures
        frames_gas(s.update(s.len() - 1, f)) == frames_gas(s) - (s.last().gas_limit
            - s.last().gas_used) + (f.gas_limit - f.gas_used),
{
    let s2 = s.update(s.len() - 1, f);
    assert(s2.drop_last() =~= s.drop_last());
    assert(s2.last() == f);
}

/// Two stacks equal below the top differ in pooled gas only by their
/// top frames' unspent gas.
pub proof fn lemma_frames_gas_tail(a: Seq<CallFrame>, b: Seq<CallFrame>)
    requires
        a.len() == b.len(),
        a.len() > 0,
        b.drop_last() == a.drop_last(),
    ensures
        frames_gas(b) - frames_gas(a) == (b.last().gas_limit - b.last().gas_used) - (
        a.last().gas_limit - a.last().gas_used),
{
}

pub proof fn lemma_frames_gas_push(s: Seq<CallFrame>, f: CallFrame)
    ensures
        frames_gas(s.push(f)) == frames_gas(s) + (f.gas_limit - f.gas_used),
{
    assert(s.push(f).drop_last() =~= s);
    assert(s.push(f).last() == f);
}

pub proof fn lemma_frames_wf_push(s: Seq<CallFrame>, f: CallFrame)
    requires
        frames_wf(s),
        f.wf(),
    ensures
        frames_wf(s.push(f)),
{
    let s2 = s.push(f);
    assert forall|i: int| 0 <= i < s2.len() implies #[trigger] s2[i].wf() by {
        if i < s.len() {
            assert(s2[i] == s[i]);
        }
    }
}

pub proof fn lemma_frames_wf_drop(s: Seq<CallFrame>)
    requires
        frames_wf(s),
        s.len() > 0,
    ensures
        frames_wf(s.drop_last()),
{
    assert forall|i: int| 0 <= i < s.drop_last().len() implies #[trigger] s.drop_last()[i].wf() by {
        assert(s.drop_last()[i] == s[i]);
    }
}

/// The interpreter's full state for one transaction.
pub struct VM {
    pub call_frames: Vec<CallFrame>,
    pub env: Environment,
    pub accrued_substate: Substate,
    pub db: GeneralizedDatabase,
    pub tx_kind: TxKind,
    pub access_list: Vec<(Address, Vec<U256>)>,
    pub cache_backup: CacheDB,
    pub blob_versioned_hashes: Vec<U256>,
    pub return_data: Vec<RetData>,
    pub backups: Vec<StateBackup>,
}

impl VM {
    pub open spec fn wf(&self) -> bool {
        &&& self.env.wf()
        &&& self.db.wf()
        &&& self.accrued_substate.wf()
        &&& frames_wf(self.call_frames@)
        &&& backups_wf(self.backups@)
        &&& cache_wf(self.cache_backup)
    }

    /// The termination measure of the interpreter loop: twice the
    /// unspent gas over all frames, plus the number of open frames.
    pub open spec fn fuel(&self) -> int {
        2 * frames_gas(self.call_frames@) + self.call_frames@.len()
    }

    pub open spec fn cur(&self) -> CallFrame {
        self.call_frames@.last()
    }

    pub open spec fn has_frame(&self) -> bool {
        self.call_frames@.len() > 0
    }

    /// The frame stack with the current frame replaced.
    pub open spec fn with_cur(&self, f: CallFrame) -> Seq<CallFrame> {
        self.call_frames@.update(self.call_frames@.len() - 1, f)
    }

    pub fn current_call_frame(&self) -> (r: Result<&CallFrame, VMError>)
        ensures
            self.has_frame() ==> (r matches Ok(f) && *f == self.cur()),
            !self.has_frame() ==> r == Err::<&CallFrame, VMError>(
                VMError::Internal(InternalError::CouldNotAccessLastCallframe),
            ),
    {
        let n = self.call_frames.len();
        if n == 0 {
            Err(VMError::Internal(InternalError::CouldNotAccessLastCallframe))
        } else {
            Ok(&self.call_frames[n - 1])
        }
    }

    /// Remove the current frame; the caller must put it back.
    pub fn take_frame(&mut self) -> (r: CallFrame)
        requires
            old(self).has_frame(),
        ensures
            r == old(self).cur(),
            final(self).call_frames@ == old(self).call_frames@.drop_last(),
            final(self).env == old(self).env,
            final(self).accrued_substate == old(self).accrued_substate,
            final(self).db == old(self).db,
            final(self).tx_kind == old(self).tx_kind,
            final(self).access_list == old(self).access_list,
            final(self).cache_backup == old(self).cache_backup,
            final(self).return_data == old(self).return_data,
            final(self).backups == old(self).backups,
            final(self).blob_versioned_hashes == old(self).blob_versioned_hashes,
    {
        match self.call_frames.pop() {
            Some(f) => f,
            None => vstd::pervasive::unreached(),
        }
    }

    pub fn put_frame(&mut self, frame: CallFrame)
        ensures
            final(self).call_frames@ == old(self).call_frames@.push(frame),
            final(self).env == old(self).env,
            final(self).accrued_substate == old(self).accrued_substate,
            final(self).db == old(self).db,
            final(self).tx_kind == old(self).tx_kind,
            final(self).access_list == old(self).access_list,
            final(self).cache_backup == old(self).cache_backup,
            final(self).return_data == old(self).return_data,
            final(self).backups == old(self).backups,
            final(self).blob_versioned_hashes == old(self).blob_versioned_hashes,
    {
        self.call_frames.push(frame);
    }

    /// Put the world back as the backup recorded it: cache, substate,
    /// refund counter and transient storage.
    pub fn restore_state(&mut self, backup: StateBackup)
        requires
            backup.wf(),
        ensures
            final(self).db.cache == backup.cache,
            final(self).db.store == old(self).db.store,
            final(self).accrued_substate == backup.substate,
            final(self).env == (Environment {
                refunded_gas: backup.refunded_gas,
                transient_storage: backup.transient_storage,
                ..old(self).env
            }),
            final(self).call_frames == old(self).call_frames,
            final(self).backups == old(self).backups,
            final(self).return_data == old(self).return_data,
            final(self).tx_kind == old(self).tx_kind,
            final(self).access_list == old(self).access_list,
            final(self).cache_backup == old(self).cache_backup,
            old(self).wf() ==> final(self).wf(),
    {
        self.db.cache = backup.cache;
        self.accrued_substate = backup.substate;
        self.env.refunded_gas = backup.refunded_gas;
        self.env.transient_storage = backup.transient_storage;
    }

    pub fn is_create(&self) -> (r: bool)
        ensures
            r == (self.tx_kind is Create),
    {
        matches!(self.tx_kind, TxKind::Create)
    }

    /// Read a storage slot through the cache, warming it (Berlin on)
    /// and freezing its `original_value` on first access.
    pub fn access_storage_slot(&mut self, address: Address, key: U256) -> (r: Result<
        (StorageSlot, bool),
        VMError,
    >)
        requires
            old(self).wf(),
        ensures
            final(self).wf(),
            r is Ok,
            final(self).call_frames == old(self).call_frames,
            final(self).env == old(self).env,
            final(self).backups == old(self).backups,
            final(self).return_data == old(self).return_data,
            final(self).db.store == old(self).db.store,
            final(self).tx_kind == old(self).tx_kind,
            final(self).access_list == old(self).access_list,
            final(self).cache_backup == old(self).cache_backup,
            final(self).accrued_substate.touched_accounts == old(self).accrued_substate.touched_accounts,
            final(self).accrued_substate.selfdestruct_set == old(self).accrued_substate.selfdestruct_set,
            final(self).accrued_substate.created_accounts == old(self).accrued_substate.created_accounts,
            crate::fork::fork_num(old(self).env.config.fork) >= crate::fork::fork_num(
                Fork::Berlin,
            ) ==> crate::substate::slots_model(
                final(self).accrued_substate.touched_storage_slots,
            ).contains_key(address@) && crate::substate::slots_model(
                final(self).accrued_substate.touched_storage_slots,
            )[address@].contains(key@),
            crate::fork::fork_num(old(self).env.config.fork) < crate::fork::fork_num(Fork::Berlin)
                ==> final(self).accrued_substate.touched_storage_slots == old(
                self,
            ).accrued_substate.touched_storage_slots,
            r matches Ok(p) ==> ({
                let base = read_through(old(self).db.store, old(self).db.model(), address@);
                let acct = base[address@];
                let stored = old(self).db.store.slot_value(address@, key@);
                &&& (if acct.3.contains_key(key@) {
                    p.0 == acct.3[key@]
                } else {
                    p.0.original_value.as_nat() == stored && p.0.current_value.as_nat() == stored
                })
                &&& final(self).db.model() == base.insert(
                    address@,
                    (acct.0, acct.1, acct.2, acct.3.insert(key@, p.0)),
                )
                &&& acct.3.contains_key(key@) ==> final(self).db.model()[address@].3
                    == acct.3.insert(key@, acct.3[key@])
                &&& (if crate::fork::fork_num(old(self).env.config.fork)
                    >= crate::fork::fork_num(Fork::Berlin) {
                    p.1 == !(crate::substate::slots_model(
                        old(self).accrued_substate.touched_storage_slots,
                    ).contains_key(address@) && crate::substate::slots_model(
                        old(self).accrued_substate.touched_storage_slots,
                    )[address@].contains(key@))
                } else {
                    p.1 == false
                })
            }),
    {
        let storage_slot_was_cold = if self.env.config.fork.at_least(Fork::Berlin) {
            self.accrued_substate.touch_slot(&address, &key)
        } else {
            false
        };
        let mut account = self.db.get_account(&address);
        let slot = match account.storage.get(&key) {
            Some(s) => *s,
            None => {
                let value = self.db.store.get_storage_slot(&address, &key);
                StorageSlot { original_value: value, current_value: value }
            },
        };
        account.storage.insert(key, slot);
        self.db.insert_account(&address, account);
        proof {
            let base = read_through(old(self).db.store, old(self).db.model(), address@);
            let acct = base[address@];
            assert(final(self).db.model() =~= base.insert(
                address@,
                (acct.0, acct.1, acct.2, acct.3.insert(key@, slot)),
            ));
            if acct.3.contains_key(key@) {
                assert(acct.3.insert(key@, slot) =~= acct.3.insert(key@, acct.3[key@]));
            }
        }
        Ok((slot, storage_slot_was_cold))
    }

    /// Write a slot's `current_value`, keeping its frozen
    /// `original_value` (a fresh entry gets original zero).
    pub fn update_account_storage(&mut self, address: Address, key: U256, new_value: U256) -> (r:
        Result<(), VMError>)
        requires
            old(self).wf(),
        ensures
            final(self).wf(),
            r is Ok,
            final(self).call_frames == old(self).call_frames,
            final(self).env == old(self).env,
            final(self).backups == old(self).backups,
            final(self).return_data == old(self).return_data,
            final(self).db.store == old(self).db.store,
            final(self).tx_kind == old(self).tx_kind,
            final(self).access_list == old(self).access_list,
            final(self).cache_backup == old(self).cache_backup,
            final(self).accrued_substate == old(self).accrued_substate,
            ({
                let base = read_through(old(self).db.store, old(self).db.model(), address@);
                let acct = base[address@];
                exists|slot: StorageSlot| {
                    &&& slot.current_value == new_value
                    &&& slot.original_value.as_nat() == (if acct.3.contains_key(key@) {
                        acct.3[key@].original_value.as_nat()
                    } else {
                        0
                    })
                    &&& final(self).db.model() == base.insert(
                        address@,
                        (acct.0, acct.1, acct.2, acct.3.insert(key@, slot)),
                    )
                }
            }),
    {
        let mut account = self.db.get_account(&address);
        let original = match account.storage.get(&key) {
            Some(s) => s.original_value,
            None => {
                let z = U256::zero();
                z
            },
        };
        let slot = StorageSlot { original_value: original, current_value: new_value };
        account.storage.insert(key, slot);
        self.db.insert_account(&address, account);
        proof {
            let base = read_through(old(self).db.store, old(self).db.model(), address@);
            let acct = base[address@];
            assert(final(self).db.model() =~= base.insert(
                address@,
                (acct.0, acct.1, acct.2, acct.3.insert(key@, slot)),
            ));
            if !acct.3.contains_key(key@) {
                crate::word::lemma_be_nat_zero(slot.original_value@);
            }
        }
        Ok(())
    }

    /// A backup of the present cache, substate, refund counter and
    /// transient storage.
    pub fn snapshot(&self) -> (r: StateBackup)
        requires
            self.wf(),
        ensures
            r.wf(),
            cache_model(r.cache) == self.db.model(),
            r.substate.model() == self.accrued_substate.model(),
            r.refunded_gas == self.env.refunded_gas,
            r.transient_storage@ == self.env.transient_storage@,
    {
        let cache = duplicate_cache(&self.db.cache);
        let substate = self.accrued_substate.duplicate();
        let transient_storage = self.env.transient_storage.duplicate();
        StateBackup::new(cache, substate, self.env.refunded_gas, transient_storage)
    }
}

/// The opcodes this machine dispatches to a handler; everything else
/// is an invalid opcode.
pub open spec fn spec_dispatched_opcode(op: u8) -> bool {
    op == 0x00 || (0x30 <= op <= 0x3F) || (0x50 <= op <= 0x5F) || (0x60 <= op <= 0x9F)
        || op == 0xF0 || op == 0xF1 || op == 0xF2 || op == 0xF3 || op == 0xF4 || op == 0xF5
        || op == 0xFA || op == 0xFD || op == 0xFE || op == 0xFF
}

/// A step of the machine keeps the three stacks aligned.
pub proof fn lemma_aligned_step(a: VM, b: VM)
    requires
        stacks_aligned(a),
        stacks_unchanged(a, b) || stacks_extended_by_child(a, b),
    ensures
        stacks_aligned(b),
{
    if stacks_unchanged(a, b) {
        assert forall|i: int| 0 <= i < b.return_data@.len()
            implies #[trigger] b.return_data@[i].max_message_call_gas
                == b.call_frames@[i + 1].gas_limit by {
            assert(b.call_frames@[i + 1].gas_limit == a.call_frames@[i + 1].gas_limit);
        }
    } else {
        assert forall|i: int| 0 <= i < b.return_data@.len()
            implies #[trigger] b.return_data@[i].max_message_call_gas
                == b.call_frames@[i + 1].gas_limit by {
            if i < a.return_data@.len() {
                assert(b.return_data@[i] == b.return_data@.drop_last()[i]);
                assert(b.call_frames@[i + 1].gas_limit == a.call_frames@[i + 1].gas_limit);
            } else {
                assert(b.return_data@[i] == b.return_data@.last());
            }
        }
    }
}

impl VM {
    /// Fetch-free dispatch: run one opcode's handler on the current
    /// frame. Every continuing outcome burns fuel; a halt or an error
    /// never adds any.
    pub fn handle_current_opcode(&mut self, opcode: u8) -> (r: Result<OpcodeResult, VMError>)
        requires
            old(self).wf(),
            old(self).has_frame(),
        ensures
            final(self).wf(),
            final(self).has_frame(),
            final(self).db.store == old(self).db.store,
            final(self).tx_kind == old(self).tx_kind,
            final(self).access_list == old(self).access_list,
            final(self).cache_backup == old(self).cache_backup,
            stacks_unchanged(*old(self), *final(self)) || stacks_extended_by_child(
                *old(self),
                *final(self),
            ),
            r matches Ok(res) ==> (res is Continue ==> final(self).fuel() < old(self).fuel()),
            r matches Ok(res) ==> (res is Halt ==> final(self).fuel() <= old(self).fuel()
                && stacks_unchanged(*old(self), *final(self))),
            r is Err ==> final(self).fuel() <= old(self).fuel() && stacks_unchanged(
                *old(self),
                *final(self),
            ),
            opcode == 0 ==> r == Ok::<OpcodeResult, VMError>(OpcodeResult::Halt) && *final(self)
                == *old(self),
            !spec_dispatched_opcode(opcode) ==> r == Err::<OpcodeResult, VMError>(
                VMError::InvalidOpcode,
            ) && *final(self) == *old(self),
            final(self).env.config == old(self).env.config,
            final(self).env.gas_limit == old(self).env.gas_limit,
            final(self).env.gas_price == old(self).env.gas_price,
    {
        proof {
            assert(old(self).call_frames@[old(self).call_frames@.len() - 1].wf());
        }
        let r = match opcode {
            0x00 => Ok(OpcodeResult::Halt),
            0x30 => self.op_address(),
            0x31 => self.op_balance(),
            0x32 => self.op_origin(),
            0x33 => self.op_caller(),
            0x34 => self.op_callvalue(),
            0x35 => self.op_calldataload(),
            0x36 => self.op_calldatasize(),
            0x37 => self.op_calldatacopy(),
            0x38 => self.op_codesize(),
            0x39 => self.op_codecopy(),
            0x3A => self.op_gasprice(),
            0x3B => self.op_extcodesize(),
            0x3C => self.op_extcodecopy(),
            0x3D => self.op_returndatasize(),
            0x3E => self.op_returndatacopy(),
            0x3F => self.op_extcodehash(),
            0x50 => self.op_pop(),
            0x51 => self.op_mload(),
            0x52 => self.op_mstore(),
            0x53 => self.op_mstore8(),
            0x54 => self.op_sload(),
            0x55 => self.op_sstore(),
            0x56 => self.op_jump(),
            0x57 => self.op_jumpi(),
            0x58 => self.op_pc(),
            0x59 => self.op_msize(),
            0x5A => self.op_gas(),
            0x5B => self.op_jumpdest(),
            0x5C => self.op_tload(),
            0x5D => self.op_tstore(),
            0x5E => self.op_mcopy(),
            0x5F => {
                if self.env.config.fork.at_least(Fork::Shanghai) {
                    self.op_push(0)
                } else {
                    Err(VMError::InvalidOpcode)
                }
            },
            0x60..=0x7F => self.op_push((opcode - 0x5F) as usize),
            0x80..=0x8F => self.op_dup((opcode - 0x7F) as usize),
            0x90..=0x9F => self.op_swap((opcode - 0x8F) as usize),
            0xF0 => self.op_create(),
            0xF1 => self.op_call(),
            0xF2 => self.op_callcode(),
            0xF3 => self.op_return(),
            0xF4 => self.op_delegatecall(),
            0xF5 => self.op_create2(),
            0xFA => self.op_staticcall(),
            0xFD => self.op_revert(),
            0xFE => self.op_invalid(),
            0xFF => self.op_selfdestruct(),
            _ => Err(VMError::InvalidOpcode),
        };
        proof {
            let a = *old(self);
            let b = *self;
            if b.call_frames@.len() == a.call_frames@.len()
                && b.call_frames@.drop_last() == a.call_frames@.drop_last()
                && ctx(b.cur()) == ctx(a.cur()) {
                assert forall|i: int| 0 <= i < a.call_frames@.len()
                    implies #[trigger] b.call_frames@[i].gas_limit
                        == a.call_frames@[i].gas_limit by {
                    if i < a.call_frames@.len() - 1 {
                        assert(b.call_frames@[i] == a.call_frames@.drop_last()[i]);
                    }
                }
                lemma_frames_gas_tail(a.call_frames@, b.call_frames@);
            }
        }
        r
    }

    /// A frame halted of its own accord: pop its backup and, for a
    /// create frame, validate and deposit the new code; a failed
    /// deployment reverts with all the frame's gas consumed.
    pub fn handle_opcode_result(&mut self, call_frame: &mut CallFrame) -> (r: Result<
        ExecutionReport,
        VMError,
    >)
        requires
            old(self).wf(),
            old(call_frame).wf(),
        ensures
            final(self).wf(),
            final(call_frame).wf(),
            final(call_frame).gas_limit == old(call_frame).gas_limit,
            final(self).db.store == old(self).db.store,
            final(self).tx_kind == old(self).tx_kind,
            final(self).access_list == old(self).access_list,
            final(self).cache_backup == old(self).cache_backup,
            final(self).call_frames == old(self).call_frames,
            final(self).return_data == old(self).return_data,
            final(self).env.config == old(self).env.config,
            final(self).env.gas_limit == old(self).env.gas_limit,
            final(self).env.gas_price == old(self).env.gas_price,
            old(self).backups@.len() == 0 ==> r == Err::<ExecutionReport, VMError>(
                VMError::Internal(InternalError::CouldNotPopCallframe),
            ),
            r is Ok ==> old(self).backups@.len() > 0
                && final(self).backups@ == old(self).backups@.drop_last(),
            r matches Ok(rep) ==> rep.gas_used >= old(call_frame).gas_used
                && rep.gas_used <= old(call_frame).gas_limit,
            r matches Ok(rep) ==> (rep.result is Success ==> rep.output_view() == old(
                call_frame,
            ).output_view()),
            r matches Ok(rep) ==> rep.gas_refunded == final(self).env.refunded_gas,
            r matches Ok(rep) ==> (rep.result is Success ==> rep.gas_used
                == final(call_frame).gas_used
                && rep.output_view() == final(call_frame).output_view()),
            old(self).backups@.len() > 0 && !old(call_frame).is_create ==> (r matches Ok(rep)
                && rep.result is Success && rep.gas_used == old(call_frame).gas_used
                && *final(call_frame) == *old(call_frame)
                && final(self).db.model() == old(self).db.model()
                && final(self).env == old(self).env
                && final(self).accrued_substate == old(self).accrued_substate),
            ({
                let code = old(call_frame).output_view();
                let fork = old(self).env.config.fork;
                let ok_code = (code.len() <= 24576 || crate::fork::fork_num(fork)
                    < crate::fork::fork_num(Fork::SpuriousDragon)) && (code.len() == 0
                    || code[0] != 0xEF || crate::fork::fork_num(fork) < crate::fork::fork_num(
                    Fork::London,
                )) && old(call_frame).gas_used + 200 * code.len() <= old(call_frame).gas_limit;
                let to = old(call_frame).to;
                let m1 = read_through(old(self).db.store, old(self).db.model(), to@);
                &&& (old(self).backups@.len() > 0 && old(call_frame).is_create && ok_code ==> (
                r matches Ok(rep) && rep.result is Success
                    && final(call_frame).gas_used == old(call_frame).gas_used + 200 * code.len()
                    && rep.gas_used == final(call_frame).gas_used
                    && final(self).db.model() == m1.insert(
                    to@,
                    (m1[to@].0, m1[to@].1, code, m1[to@].3),
                )))
                &&& (old(self).backups@.len() > 0 && old(call_frame).is_create && !ok_code ==> (
                r matches Ok(rep) && rep.result is Revert
                    && rep.gas_used == old(call_frame).gas_limit
                    && final(self).db.cache == old(self).backups@.last().cache
                    && final(self).accrued_substate == old(self).backups@.last().substate
                    && final(self).env.refunded_gas == old(self).backups@.last().refunded_gas))
            }),
    {
        let backup = match self.backups.pop() {
            Some(b) => b,
            None => {
                return Err(VMError::Internal(InternalError::CouldNotPopCallframe));
            },
        };
        proof {
            assert(old(self).backups@[old(self).backups@.len() - 1].wf());
            assert forall|i: int| 0 <= i < self.backups@.len()
                implies #[trigger] self.backups@[i].wf() by {
                assert(self.backups@[i] == old(self).backups@[i]);
            }
        }
        if call_frame.is_create {
            let code_len = crate::bytebuf::bytes_len(&call_frame.output);
            let mut failure: Option<VMError> = None;
            if code_len > 24576 && self.env.config.fork.at_least(Fork::SpuriousDragon) {
                failure = Some(VMError::OutOfGas(crate::errors::OutOfGasError::ConsumedGasOverflow));
            } else if code_len > 0 && crate::bytebuf::bytes_get(&call_frame.output, 0) == 0xEF
                && self.env.config.fork.at_least(Fork::London) {
                failure = Some(VMError::InvalidOpcode);
            } else {
                match (code_len as u64).checked_mul(200) {
                    Some(deposit) => {
                        if let Err(e) = call_frame.increase_consumed_gas(deposit) {
                            failure = Some(e);
                        }
                    },
                    None => {
                        failure = Some(
                            VMError::OutOfGas(crate::errors::OutOfGasError::ConsumedGasOverflow),
                        );
                    },
                }
            }
            match failure {
                Some(e) => {
                    self.restore_state(backup);
                    return Ok(
                        ExecutionReport {
                            result: TxResult::Revert(e),
                            gas_used: call_frame.gas_limit,
                            gas_refunded: self.env.refunded_gas,
                            logs: Vec::new(),
                            output: bytes_new(),
                        },
                    );
                },
                None => {
                    let code = bytes_clone(&call_frame.output);
                    self.db.set_account_bytecode(&call_frame.to, code);
                },
            }
        }
        Ok(
            ExecutionReport {
                result: TxResult::Success,
                gas_used: call_frame.gas_used,
                gas_refunded: self.env.refunded_gas,
                logs: duplicate_logs(&call_frame.logs),
                output: bytes_clone(&call_frame.output),
            },
        )
    }

    /// A frame failed: pop its backup and restore the world to it.
    /// `RevertOpcode` keeps the frame's gas and output; every other
    /// error consumes all the frame's gas and returns nothing.
    pub fn handle_opcode_error(&mut self, error: VMError, call_frame: &CallFrame) -> (r: Result<
        ExecutionReport,
        VMError,
    >)
        requires
            old(self).wf(),
            call_frame.wf(),
        ensures
            final(self).wf(),
            final(self).db.store == old(self).db.store,
            final(self).tx_kind == old(self).tx_kind,
            final(self).access_list == old(self).access_list,
            final(self).cache_backup == old(self).cache_backup,
            final(self).call_frames == old(self).call_frames,
            final(self).return_data == old(self).return_data,
            final(self).env.config == old(self).env.config,
            final(self).env.gas_limit == old(self).env.gas_limit,
            final(self).env.gas_price == old(self).env.gas_price,
            error.is_internal() ==> r == Err::<ExecutionReport, VMError>(error),
            !error.is_internal() && old(self).backups@.len() == 0 ==> r == Err::<
                ExecutionReport,
                VMError,
            >(VMError::Internal(InternalError::CouldNotPopCallframe)),
            r is Ok ==> old(self).backups@.len() > 0
                && final(self).backups@ == old(self).backups@.drop_last()
                && final(self).db.cache == old(self).backups@.last().cache
                && final(self).accrued_substate == old(self).backups@.last().substate
                && final(self).env.refunded_gas == old(self).backups@.last().refunded_gas
                && final(self).env.transient_storage == old(
                    self,
                ).backups@.last().transient_storage,
            !error.is_internal() && old(self).backups@.len() > 0 ==> r is Ok,
            r matches Ok(rep) ==> rep.gas_refunded == final(self).env.refunded_gas,
            r matches Ok(rep) ==> rep.gas_used >= call_frame.gas_used
                && rep.gas_used <= call_frame.gas_limit
                && rep.result == TxResult::Revert(error)
                && (error == VMError::RevertOpcode ==> rep.gas_used == call_frame.gas_used
                    && rep.output_view() == call_frame.output_view())
                && (error != VMError::RevertOpcode ==> rep.gas_used == call_frame.gas_limit
                    && rep.output_view() == Seq::<u8>::empty()),
    {
        if matches!(error, VMError::Internal(_)) {
            return Err(error);
        }
        let backup = match self.backups.pop() {
            Some(b) => b,
            None => {
                return Err(VMError::Internal(InternalError::CouldNotPopCallframe));
            },
        };
        proof {
            assert(old(self).backups@[old(self).backups@.len() - 1].wf());
            assert forall|i: int| 0 <= i < self.backups@.len()
                implies #[trigger] self.backups@[i].wf() by {
                assert(self.backups@[i] == old(self).backups@[i]);
            }
        }
        self.restore_state(backup);
        let is_revert_opcode = matches!(error, VMError::RevertOpcode);
        let gas_used = if is_revert_opcode {
            call_frame.gas_used
        } else {
            call_frame.gas_limit
        };
        let output = if is_revert_opcode {
            bytes_clone(&call_frame.output)
        } else {
            bytes_new()
        };
        Ok(
            ExecutionReport {
                result: TxResult::Revert(error),
                gas_used,
                gas_refunded: self.env.refunded_gas,
                logs: Vec::new(),
                output,
            },
        )
    }

    /// A precompile frame finished: pop its backup and turn the
    /// supplied outcome — the precompile's `(output, gas used)` or its
    /// error — into a report, charging the gas on success and
    /// consuming all the frame's gas on failure.
    pub fn handle_precompile_result(
        &mut self,
        outcome: Result<(Vec<u8>, u64), VMError>,
        call_frame: &mut CallFrame,
    ) -> (r: Result<ExecutionReport, VMError>)
        requires
            old(self).wf(),
            old(call_frame).wf(),
        ensures
            final(self).wf(),
            final(call_frame).wf(),
            final(call_frame).gas_limit == old(call_frame).gas_limit,
            final(self).db.store == old(self).db.store,
            final(self).tx_kind == old(self).tx_kind,
            final(self).access_list == old(self).access_list,
            final(self).cache_backup == old(self).cache_backup,
            final(self).call_frames == old(self).call_frames,
            final(self).return_data == old(self).return_data,
            final(self).env.config == old(self).env.config,
            final(self).env.gas_limit == old(self).env.gas_limit,
            final(self).env.gas_price == old(self).env.gas_price,
            outcome matches Err(e) ==> (e.is_internal() ==> r == Err::<ExecutionReport, VMError>(
                e,
            )),
            outcome is Ok && old(self).backups@.len() == 0 ==> r == Err::<
                ExecutionReport,
                VMError,
            >(VMError::Internal(InternalError::CouldNotPopCallframe)),
            outcome matches Err(e) ==> (!e.is_internal() && old(self).backups@.len() == 0 ==> r
                == Err::<ExecutionReport, VMError>(
                VMError::Internal(InternalError::CouldNotPopCallframe),
            )),
            r is Ok ==> old(self).backups@.len() > 0
                && final(self).backups@ == old(self).backups@.drop_last(),
            r matches Ok(rep) ==> rep.gas_used >= old(call_frame).gas_used
                && rep.gas_used <= old(call_frame).gas_limit
                && rep.gas_refunded == final(self).env.refunded_gas,
            r matches Ok(rep) ==> (rep.result is Success ==> rep.gas_used
                == final(call_frame).gas_used
                && rep.output_view() == final(call_frame).output_view()),
            old(self).backups@.len() > 0 ==> ({
                &&& (outcome matches Ok(p) ==> (old(call_frame).gas_used + p.1
                    <= old(call_frame).gas_limit ==> (r matches Ok(rep)
                    && rep.result is Success
                    && rep.gas_used == old(call_frame).gas_used + p.1
                    && rep.output_view() == p.0@
                    && final(self).db.model() == old(self).db.model()
                    && final(self).env == old(self).env)))
                &&& (outcome matches Err(e) ==> (!e.is_internal() ==> (r matches Ok(rep)
                    && rep.result == TxResult::Revert(e)
                    && rep.gas_used == old(call_frame).gas_limit
                    && final(self).db.cache == old(self).backups@.last().cache
                    && final(self).accrued_substate == old(self).backups@.last().substate
                    && final(self).env.refunded_gas == old(self).backups@.last().refunded_gas)))
            }),
    {
        if let Err(e) = &outcome {
            if matches!(e, VMError::Internal(_)) {
                return Err(*e);
            }
        }
        let backup = match self.backups.pop() {
            Some(b) => b,
            None => {
                return Err(VMError::Internal(InternalError::CouldNotPopCallframe));
            },
        };
        proof {
            assert(old(self).backups@[old(self).backups@.len() - 1].wf());
            assert forall|i: int| 0 <= i < self.backups@.len()
                implies #[trigger] self.backups@[i].wf() by {
                assert(self.backups@[i] == old(self).backups@[i]);
            }
        }
        match outcome {
            Ok((output, gas_used)) => {
                match call_frame.increase_consumed_gas(gas_used) {
                    Ok(()) => {
                        call_frame.output = crate::bytebuf::bytes_from_vec(output);
                        Ok(
                            ExecutionReport {
                                result: TxResult::Success,
                                gas_used: call_frame.gas_used,
                                gas_refunded: self.env.refunded_gas,
                                logs: Vec::new(),
                                output: bytes_clone(&call_frame.output),
                            },
                        )
                    },
                    Err(_) => {
                        self.restore_state(backup);
                        Ok(
                            ExecutionReport {
                                result: TxResult::Revert(
                                    VMError::OutOfGas(
                                        crate::errors::OutOfGasError::MaxGasLimitExceeded,
                                    ),
                                ),
                                gas_used: call_frame.gas_limit,
                                gas_refunded: self.env.refunded_gas,
                                logs: Vec::new(),
                                output: bytes_new(),
                            },
                        )
                    },
                }
            },
            Err(e) => {
                self.restore_state(backup);
                Ok(
                    ExecutionReport {
                        result: TxResult::Revert(e),
                        gas_used: call_frame.gas_limit,
                        gas_refunded: self.env.refunded_gas,
                        logs: Vec::new(),
                        output: bytes_new(),
                    },
                )
            },
        }
    }

    /// The interpreter loop: fetch, dispatch, and on a halt or error
    /// unwind one frame through the return protocol, until the root
    /// frame finishes. Gas bounds the loop: every step either burns
    /// gas or closes a frame.
    pub fn run_execution(&mut self) -> (r: Result<ExecutionReport, VMError>)
        requires
            old(self).wf(),
            old(self).has_frame(),
            stacks_aligned(*old(self)),
        ensures
            final(self).wf(),
            final(self).db.store == old(self).db.store,
            final(self).tx_kind == old(self).tx_kind,
            final(self).cache_backup == old(self).cache_backup,
            r is Ok ==> final(self).has_frame(),
            final(self).env.config == old(self).env.config,
            final(self).env.gas_limit == old(self).env.gas_limit,
            final(self).env.gas_price == old(self).env.gas_price,
            r matches Ok(rep) ==> rep.gas_used <= final(self).cur().gas_limit,
            r matches Ok(rep) ==> (rep.result is Success ==> rep.gas_used
                == final(self).cur().gas_used
                && rep.output_view() == final(self).cur().output_view()),
            ({
                // A finished root frame is owed a success report with
                // exactly its consumed gas.
                let f = old(self).cur();
                !crate::precompiles::spec_is_precompile(
                    f.code_address@,
                    old(self).env.config.fork,
                ) && f.depth == 0 && f.pc >= f.code_view().len() && !f.is_create ==> (r matches Ok(
                    rep,
                ) && rep.result is Success && rep.gas_used == f.gas_used
                    && rep.gas_refunded == final(self).env.refunded_gas)
            }),
    {
        let ghost idle_root = !crate::precompiles::spec_is_precompile(
            old(self).cur().code_address@,
            old(self).env.config.fork,
        ) && old(self).cur().depth == 0 && old(self).cur().pc >= old(self).cur().code_view().len()
            && !old(self).cur().is_create;
        loop
            invariant
                self.wf(),
                self.has_frame(),
                stacks_aligned(*self),
                self.db.store == old(self).db.store,
                self.tx_kind == old(self).tx_kind,
                self.cache_backup == old(self).cache_backup,
                self.env.config == old(self).env.config,
                self.env.gas_limit == old(self).env.gas_limit,
                self.env.gas_price == old(self).env.gas_price,
                idle_root == (!crate::precompiles::spec_is_precompile(
                    old(self).cur().code_address@,
                    old(self).env.config.fork,
                ) && old(self).cur().depth == 0 && old(self).cur().pc
                    >= old(self).cur().code_view().len() && !old(self).cur().is_create),
                idle_root ==> *self == *old(self),
            decreases self.fuel(),
        {
            proof {
                lemma_frames_gas_nonneg(self.call_frames@);
            }
            let ghost at_entry = *self;
            if crate::precompiles::is_precompile(
                &self.current_call_frame()?.code_address,
                self.env.config.fork,
            ) {
                let ghost at_pre = *self;
                let mut frame = self.take_frame();
                proof {
                    assert(at_pre.call_frames@[at_pre.call_frames@.len() - 1].wf());
                    lemma_frames_wf_drop(at_pre.call_frames@);
                }
                let ghost popped_rem = frame.gas_limit - frame.gas_used;
                let remaining = frame.gas_limit - frame.gas_used;
                let outcome = crate::precompiles::execute_precompile(
                    &frame.code_address,
                    &frame.calldata,
                    remaining,
                    self.env.config.fork,
                );
                let report = match self.handle_precompile_result(outcome, &mut frame) {
                    Ok(rep) => rep,
                    Err(e) => {
                        return Err(e);
                    },
                };
                let ghost before_ret = *self;
                let continue_loop = match self.handle_return(frame, &report) {
                    Ok(c) => c,
                    Err(e) => {
                        return Err(e);
                    },
                };
                if continue_loop {
                    proof {
                        assert(stacks_aligned(*self)) by {
                            assert(self.backups@.len() == at_pre.backups@.len() - 1);
                            assert(self.return_data@.len() == at_pre.return_data@.len() - 1);
                            assert forall|i: int| 0 <= i < self.return_data@.len()
                                implies #[trigger] self.return_data@[i].max_message_call_gas
                                    == self.call_frames@[i + 1].gas_limit by {
                                assert(self.return_data@[i] == at_pre.return_data@[i]);
                                assert(self.call_frames@[i + 1].gas_limit
                                    == before_ret.call_frames@[i + 1].gas_limit);
                            }
                        }
                        assert(self.fuel() < at_pre.fuel()) by {
                            assert(frames_gas(before_ret.call_frames@) == frames_gas(
                                at_pre.call_frames@,
                            ) - popped_rem);
                            assert(at_pre.return_data@[at_pre.return_data@.len() - 1]
                                == at_pre.return_data@.last());
                            assert(at_pre.return_data@.last().max_message_call_gas
                                == at_pre.cur().gas_limit);
                            lemma_frames_gas_nonneg(self.call_frames@);
                        }
                    }
                    let ghost before_pc = *self;
                    let mut parent = self.take_frame();
                    proof {
                        assert(before_pc.call_frames@[before_pc.call_frames@.len() - 1].wf());
                        lemma_frames_wf_drop(before_pc.call_frames@);
                    }
                    let moved = parent.increment_pc_by(1);
                    self.put_frame(parent);
                    proof {
                        assert(self.call_frames@.drop_last()
                            =~= before_pc.call_frames@.drop_last());
                        assert(self.call_frames@.last().wf());
                        lemma_frames_wf_push(
                            before_pc.call_frames@.drop_last(),
                            self.call_frames@.last(),
                        );
                        lemma_frames_gas_update(
                            before_pc.call_frames@,
                            self.call_frames@.last(),
                        );
                        assert(self.call_frames@ =~= before_pc.call_frames@.update(
                            before_pc.call_frames@.len() - 1,
                            self.call_frames@.last(),
                        ));
                        assert forall|i: int| 0 <= i < before_pc.call_frames@.len()
                            implies #[trigger] self.call_frames@[i].gas_limit
                                == before_pc.call_frames@[i].gas_limit by {
                            if i < before_pc.call_frames@.len() - 1 {
                                assert(self.call_frames@[i]
                                    == before_pc.call_frames@.drop_last()[i]);
                            }
                        }
                        lemma_aligned_step(before_pc, *self);
                        assert(self.fuel() == before_pc.fuel());
                    }
                    if let Err(e) = moved {
                        return Err(e);
                    }
                    proof {
                        lemma_frames_gas_nonneg(self.call_frames@);
                    }
                    continue;
                } else {
                    return Ok(report);
                }
            }
            let opcode = self.current_call_frame()?.next_opcode();
            let op_result = self.handle_current_opcode(opcode);
            proof {
                lemma_aligned_step(at_entry, *self);
            }
            match op_result {
                Ok(OpcodeResult::Continue { pc_increment }) => {
                    let ghost before_pc = *self;
                    let mut frame = self.take_frame();
                    proof {
                        assert(before_pc.call_frames@[before_pc.call_frames@.len() - 1].wf());
                        lemma_frames_wf_drop(before_pc.call_frames@);
                    }
                    let moved = frame.increment_pc_by(pc_increment);
                    self.put_frame(frame);
                    proof {
                        assert(self.call_frames@.drop_last() =~= before_pc.call_frames@.drop_last());
                        assert(self.call_frames@.last().wf());
                        lemma_frames_wf_push(
                            before_pc.call_frames@.drop_last(),
                            self.call_frames@.last(),
                        );
                        lemma_frames_gas_update(before_pc.call_frames@, self.call_frames@.last());
                        assert(self.call_frames@ =~= before_pc.call_frames@.update(
                            before_pc.call_frames@.len() - 1,
                            self.call_frames@.last(),
                        ));
                        assert forall|i: int| 0 <= i < before_pc.call_frames@.len()
                            implies #[trigger] self.call_frames@[i].gas_limit
                                == before_pc.call_frames@[i].gas_limit by {
                            if i < before_pc.call_frames@.len() - 1 {
                                assert(self.call_frames@[i]
                                    == before_pc.call_frames@.drop_last()[i]);
                            }
                        }
                        lemma_aligned_step(before_pc, *self);
                        assert(self.fuel() == before_pc.fuel());
                    }
                    if let Err(e) = moved {
                        return Err(e);
                    }
                },
                Ok(OpcodeResult::Halt) => {
                    let ghost at_halt = *self;
                    let mut frame = self.take_frame();
                    proof {
                        assert(at_halt.call_frames@[at_halt.call_frames@.len() - 1].wf());
                        lemma_frames_wf_drop(at_halt.call_frames@);
                    }
                    let ghost popped_rem = frame.gas_limit - frame.gas_used;
                    let report = match self.handle_opcode_result(&mut frame) {
                        Ok(rep) => rep,
                        Err(e) => {
                            return Err(e);
                        },
                    };
                    let ghost before_ret = *self;
                    let continue_loop = match self.handle_return(frame, &report) {
                        Ok(c) => c,
                        Err(e) => {
                            return Err(e);
                        },
                    };
                    if continue_loop {
                        proof {
                            assert(stacks_aligned(*self)) by {
                                assert(self.backups@.len() == at_halt.backups@.len() - 1);
                                assert(self.return_data@.len() == at_halt.return_data@.len() - 1);
                                assert forall|i: int| 0 <= i < self.return_data@.len()
                                    implies #[trigger] self.return_data@[i].max_message_call_gas
                                        == self.call_frames@[i + 1].gas_limit by {
                                    assert(self.return_data@[i] == at_halt.return_data@[i]);
                                    assert(self.call_frames@[i + 1].gas_limit
                                        == before_ret.call_frames@[i + 1].gas_limit);
                                }
                            }
                            assert(self.fuel() < at_halt.fuel()) by {
                                assert(frames_gas(before_ret.call_frames@) == frames_gas(
                                    at_halt.call_frames@,
                                ) - popped_rem);
                                assert(at_halt.return_data@[at_halt.return_data@.len() - 1]
                                    == at_halt.return_data@.last());
                                assert(at_halt.return_data@.last().max_message_call_gas
                                    == at_halt.cur().gas_limit);
                                lemma_frames_gas_nonneg(self.call_frames@);
                            }
                        }
                        let ghost before_pc = *self;
                        let mut parent = self.take_frame();
                        proof {
                            assert(before_pc.call_frames@[before_pc.call_frames@.len() - 1].wf());
                            lemma_frames_wf_drop(before_pc.call_frames@);
                        }
                        let moved = parent.increment_pc_by(1);
                        self.put_frame(parent);
                        proof {
                            assert(self.call_frames@.drop_last()
                                =~= before_pc.call_frames@.drop_last());
                            assert(self.call_frames@.last().wf());
                            lemma_frames_wf_push(
                                before_pc.call_frames@.drop_last(),
                                self.call_frames@.last(),
                            );
                            lemma_frames_gas_update(
                                before_pc.call_frames@,
                                self.call_frames@.last(),
                            );
                            assert(self.call_frames@ =~= before_pc.call_frames@.update(
                                before_pc.call_frames@.len() - 1,
                                self.call_frames@.last(),
                            ));
                            assert forall|i: int| 0 <= i < before_pc.call_frames@.len()
                                implies #[trigger] self.call_frames@[i].gas_limit
                                    == before_pc.call_frames@[i].gas_limit by {
                                if i < before_pc.call_frames@.len() - 1 {
                                    assert(self.call_frames@[i]
                                        == before_pc.call_frames@.drop_last()[i]);
                                }
                            }
                            lemma_aligned_step(before_pc, *self);
                            assert(self.fuel() == before_pc.fuel());
                        }
                        if let Err(e) = moved {
                            return Err(e);
                        }
                    } else {
                        return Ok(report);
                    }
                },
                Err(error) => {
                    let ghost at_err = *self;
                    let mut frame = self.take_frame();
                    proof {
                        assert(at_err.call_frames@[at_err.call_frames@.len() - 1].wf());
                        lemma_frames_wf_drop(at_err.call_frames@);
                    }
                    let ghost popped_rem = frame.gas_limit - frame.gas_used;
                    let report = match self.handle_opcode_error(error, &frame) {
                        Ok(rep) => rep,
                        Err(e) => {
                            return Err(e);
                        },
                    };
                    let ghost before_ret = *self;
                    let continue_loop = match self.handle_return(frame, &report) {
                        Ok(c) => c,
                        Err(e) => {
                            return Err(e);
                        },
                    };
                    if continue_loop {
                        proof {
                            assert(stacks_aligned(*self)) by {
                                assert(self.backups@.len() == at_err.backups@.len() - 1);
                                assert(self.return_data@.len() == at_err.return_data@.len() - 1);
                                assert forall|i: int| 0 <= i < self.return_data@.len()
                                    implies #[trigger] self.return_data@[i].max_message_call_gas
                                        == self.call_frames@[i + 1].gas_limit by {
                                    assert(self.return_data@[i] == at_err.return_data@[i]);
                                    assert(self.call_frames@[i + 1].gas_limit
                                        == before_ret.call_frames@[i + 1].gas_limit);
                                }
                            }
                            assert(self.fuel() < at_err.fuel()) by {
                                assert(frames_gas(before_ret.call_frames@) == frames_gas(
                                    at_err.call_frames@,
                                ) - popped_rem);
                                assert(at_err.return_data@[at_err.return_data@.len() - 1]
                                    == at_err.return_data@.last());
                                assert(at_err.return_data@.last().max_message_call_gas
                                    == at_err.cur().gas_limit);
                                lemma_frames_gas_nonneg(self.call_frames@);
                            }
                        }
                        let ghost before_pc = *self;
                        let mut parent = self.take_frame();
                        proof {
                            assert(before_pc.call_frames@[before_pc.call_frames@.len() - 1].wf());
                            lemma_frames_wf_drop(before_pc.call_frames@);
                        }
                        let moved = parent.increment_pc_by(1);
                        self.put_frame(parent);
                        proof {
                            assert(self.call_frames@.drop_last()
                                =~= before_pc.call_frames@.drop_last());
                            assert(self.call_frames@.last().wf());
                            lemma_frames_wf_push(
                                before_pc.call_frames@.drop_last(),
                                self.call_frames@.last(),
                            );
                            lemma_frames_gas_update(
                                before_pc.call_frames@,
                                self.call_frames@.last(),
                            );
                            assert(self.call_frames@ =~= before_pc.call_frames@.update(
                                before_pc.call_frames@.len() - 1,
                                self.call_frames@.last(),
                            ));
                            assert forall|i: int| 0 <= i < before_pc.call_frames@.len()
                                implies #[trigger] self.call_frames@[i].gas_limit
                                    == before_pc.call_frames@[i].gas_limit by {
                                if i < before_pc.call_frames@.len() - 1 {
                                    assert(self.call_frames@[i]
                                        == before_pc.call_frames@.drop_last()[i]);
                                }
                            }
                            lemma_aligned_step(before_pc, *self);
                            assert(self.fuel() == before_pc.fuel());
                        }
                        if let Err(e) = moved {
                            return Err(e);
                        }
                    } else {
                        return Ok(report);
                    }
                },
            }
            proof {
                lemma_frames_gas_nonneg(self.call_frames@);
            }
        }
    }
}

impl VM {
    /// Set up one transaction: warm the origin, the coinbase from
    /// Shanghai, the access list and the precompile addresses; freeze
    /// the cache's storage originals; and build the root frame, a
    /// call's code resolved through EIP-7702, a create's address
    /// derived from the deployer's nonce.
    #[verifier::rlimit(60)]
    pub fn new(env: Environment, db: GeneralizedDatabase, tx: &Transaction) -> (r: Result<
        VM,
        VMError,
    >)
        requires
            env.wf(),
            db.wf(),
        ensures
            r is Ok,
            r matches Ok(vm) ==> {
                &&& vm.cur().calldata_view() == crate::bytebuf::bytes_view(tx.data)
                &&& (tx.to is Create ==> vm.cur().to@ == crate::hashing::keccak_of(
                    crate::utils::rlp_address_nonce(
                        env.origin@,
                        read_through(db.store, db.model(), env.origin@)[env.origin@].1,
                    ),
                ).skip(12))
                &&& (forall|k: Seq<u8>| #[trigger] db.model().contains_key(k) ==> {
                    // The transaction-start freeze: every cached
                    // slot's original value now equals its current
                    // value.
                    &&& vm.db.model().contains_key(k)
                    &&& (forall|q: Seq<u8>| #[trigger] db.model()[k].3.contains_key(q) ==> {
                        &&& vm.db.model()[k].3.contains_key(q)
                        &&& vm.db.model()[k].3[q].current_value
                            == db.model()[k].3[q].current_value
                        &&& vm.db.model()[k].3[q].original_value
                            == db.model()[k].3[q].current_value
                    })
                })
                &&& vm.wf()
                &&& vm.call_frames@.len() == 1
                &&& vm.backups@.len() == 0
                &&& vm.return_data@.len() == 0
                &&& vm.env == env
                &&& vm.db.store == db.store
                &&& vm.cur().msg_sender == env.origin
                &&& vm.cur().code_address == vm.cur().to
                &&& vm.cur().gas_limit == env.gas_limit
                &&& vm.cur().gas_used == 0
                &&& vm.cur().depth == 0
                &&& !vm.cur().is_static
                &&& vm.cur().msg_value == tx.value
                &&& vm.accrued_substate.touched_accounts@.contains(env.origin@)
                &&& (crate::fork::fork_num(env.config.fork) >= crate::fork::fork_num(
                    Fork::Shanghai,
                ) ==> vm.accrued_substate.touched_accounts@.contains(env.coinbase@))
                &&& (forall|t: int| 0 <= t < tx.access_list@.len()
                    ==> vm.accrued_substate.touched_accounts@.contains(
                    #[trigger] tx.access_list@[t].0@,
                ))
                &&& (forall|t: int| 0 <= t < tx.access_list@.len()
                    ==> crate::substate::slots_model(
                    vm.accrued_substate.touched_storage_slots,
                ).contains_key(#[trigger] tx.access_list@[t].0@))
                // For the last entry naming an address (later entries
                // replace earlier ones), every listed key is warm.
                &&& (forall|t: int|
                    #![trigger tx.access_list@[t]]
                    0 <= t < tx.access_list@.len() && (forall|u: int| t < u < tx.access_list@.len()
                        ==> tx.access_list@[u].0@ != tx.access_list@[t].0@)
                        ==> (forall|u: int| 0 <= u < tx.access_list@[t].1@.len()
                        ==> crate::substate::slots_model(
                        vm.accrued_substate.touched_storage_slots,
                    )[tx.access_list@[t].0@].contains(#[trigger] tx.access_list@[t].1@[u]@)))
                &&& (forall|a: Seq<u8>| a.len() == 20 && 1 <= crate::word::be_nat(a)
                    <= crate::precompiles::spec_max_precompile_address(env.config.fork)
                    ==> #[trigger] vm.accrued_substate.touched_accounts@.contains(a))
                &&& (tx.to matches TxKind::Call(callee) ==> vm.cur().to == callee
                    && vm.accrued_substate.touched_accounts@.contains(callee@)
                    && !vm.cur().is_create
                    && vm.accrued_substate.created_accounts@ == Set::<Seq<u8>>::empty()
                    && vm.tx_kind is Call)
                &&& (tx.to is Create ==> vm.accrued_substate.created_accounts@
                    == Set::<Seq<u8>>::empty().insert(vm.cur().to@)
                    && vm.accrued_substate.touched_accounts@.contains(vm.cur().to@)
                    && vm.cur().code_view() == Seq::<u8>::empty()
                    && vm.tx_kind is Create)
                &&& vm.accrued_substate.selfdestruct_set@ == Set::<Seq<u8>>::empty()
            },
    {
        let mut db = db;
        let mut default_touched_accounts: crate::kv::KeySet<Address> = crate::kv::KeySet::new();
        let _ = default_touched_accounts.insert(env.origin);
        if env.config.fork.at_least(Fork::Shanghai) {
            let _ = default_touched_accounts.insert(env.coinbase);
        }
        let mut default_touched_storage_slots: KvMap<Address, crate::kv::KeySet<U256>> =
            KvMap::new();
        let al_len = tx.access_list.len();
        let mut t: usize = 0;
        while t < al_len
            invariant
                t <= al_len,
                al_len == tx.access_list@.len(),
                default_touched_accounts.wf(),
                default_touched_storage_slots.wf(),
                forall|k: Seq<u8>| #[trigger] default_touched_storage_slots@.contains_key(k)
                    ==> default_touched_storage_slots@[k].wf(),
                default_touched_accounts@.contains(env.origin@),
                crate::fork::fork_num(env.config.fork) >= crate::fork::fork_num(Fork::Shanghai)
                    ==> default_touched_accounts@.contains(env.coinbase@),
                forall|u: int| 0 <= u < t ==> default_touched_accounts@.contains(
                    #[trigger] tx.access_list@[u].0@,
                ),
                forall|x: int| 0 <= x < t ==> crate::substate::slots_model(
                    default_touched_storage_slots,
                ).contains_key(#[trigger] tx.access_list@[x].0@),
                forall|x: int|
                    #![trigger tx.access_list@[x]]
                    0 <= x < t && (forall|u: int| x < u < t ==> tx.access_list@[u].0@
                        != tx.access_list@[x].0@) ==> (forall|u: int| 0 <= u
                        < tx.access_list@[x].1@.len() ==> crate::substate::slots_model(
                        default_touched_storage_slots,
                    )[tx.access_list@[x].0@].contains(#[trigger] tx.access_list@[x].1@[u]@)),
            decreases al_len - t,
        {
            let entry = &tx.access_list[t];
            let ghost before_slots = default_touched_storage_slots@;
            let ghost before_model = crate::substate::slots_model(default_touched_storage_slots);
            let _ = default_touched_accounts.insert(entry.0);
            let mut warm_slots: crate::kv::KeySet<U256> = crate::kv::KeySet::new();
            let sl = entry.1.len();
            let mut s: usize = 0;
            while s < sl
                invariant
                    s <= sl,
                    sl == entry.1@.len(),
                    warm_slots.wf(),
                    forall|u: int| 0 <= u < s ==> warm_slots@.contains(
                        #[trigger] entry.1@[u]@,
                    ),
                decreases sl - s,
            {
                let _ = warm_slots.insert(entry.1[s]);
                s += 1;
            }
            default_touched_storage_slots.insert(entry.0, warm_slots);
            proof {
                assert forall|k: Seq<u8>| #[trigger] default_touched_storage_slots@.contains_key(k)
                    implies default_touched_storage_slots@[k].wf() by {
                    if k != entry.0@ {
                        assert(before_slots.contains_key(k));
                    }
                }
                let after_model = crate::substate::slots_model(default_touched_storage_slots);
                assert(after_model =~= before_model.insert(entry.0@, warm_slots@));
                assert forall|x: int| 0 <= x < t + 1 implies crate::substate::slots_model(
                    default_touched_storage_slots,
                ).contains_key(#[trigger] tx.access_list@[x].0@) by {
                    if x < t {
                        assert(before_model.contains_key(tx.access_list@[x].0@));
                    }
                }
                assert forall|x: int|
                    #![trigger tx.access_list@[x]]
                    0 <= x < t + 1 && (forall|u: int| x < u < t + 1 ==> tx.access_list@[u].0@
                        != tx.access_list@[x].0@) implies (forall|u: int| 0 <= u
                        < tx.access_list@[x].1@.len() ==> after_model[
                        tx.access_list@[x].0@
                    ].contains(#[trigger] tx.access_list@[x].1@[u]@)) by {
                    if x == t {
                        assert(after_model[entry.0@] == warm_slots@);
                    } else {
                        assert(tx.access_list@[t as int].0@ != tx.access_list@[x].0@);
                        assert(after_model[tx.access_list@[x].0@]
                            == before_model[tx.access_list@[x].0@]);
                    }
                }
            }
            t += 1;
        }
        let max_precompile_address = crate::precompiles::max_precompile_address(env.config.fork);
        let mut p: u64 = 1;
        while p <= max_precompile_address
            invariant
                1 <= p <= max_precompile_address + 1,
                max_precompile_address == crate::precompiles::spec_max_precompile_address(
                    env.config.fork,
                ),
                default_touched_accounts.wf(),
                default_touched_accounts@.contains(env.origin@),
                crate::fork::fork_num(env.config.fork) >= crate::fork::fork_num(Fork::Shanghai)
                    ==> default_touched_accounts@.contains(env.coinbase@),
                forall|u: int| 0 <= u < tx.access_list@.len()
                    ==> default_touched_accounts@.contains(#[trigger] tx.access_list@[u].0@),
                forall|a: Seq<u8>| a.len() == 20 && 1 <= crate::word::be_nat(a) < p
                    ==> #[trigger] default_touched_accounts@.contains(a),
                forall|x: int| 0 <= x < tx.access_list@.len() ==> crate::substate::slots_model(
                    default_touched_storage_slots,
                ).contains_key(#[trigger] tx.access_list@[x].0@),
                forall|x: int|
                    #![trigger tx.access_list@[x]]
                    0 <= x < tx.access_list@.len() && (forall|u: int| x < u
                        < tx.access_list@.len() ==> tx.access_list@[u].0@
                        != tx.access_list@[x].0@) ==> (forall|u: int| 0 <= u
                        < tx.access_list@[x].1@.len() ==> crate::substate::slots_model(
                        default_touched_storage_slots,
                    )[tx.access_list@[x].0@].contains(#[trigger] tx.access_list@[x].1@[u]@)),
            decreases max_precompile_address + 1 - p,
        {
            let addr = Address::from_low_u64(p);
            let _ = default_touched_accounts.insert(addr);
            proof {
                assert forall|a: Seq<u8>| a.len() == 20 && 1 <= crate::word::be_nat(a) < p + 1
                    implies #[trigger] default_touched_accounts@.contains(a) by {
                    if crate::word::be_nat(a) == p {
                        crate::word::lemma_be_nat_inj(a, addr@);
                        assert(a =~= addr@);
                    }
                }
            }
            p += 1;
        }
        db.reset_original_values();
        match tx.to {
            TxKind::Call(address_to) => {
                let _ = default_touched_accounts.insert(address_to);
                let mut substate = Substate {
                    selfdestruct_set: crate::kv::KeySet::new(),
                    touched_accounts: default_touched_accounts,
                    touched_storage_slots: default_touched_storage_slots,
                    created_accounts: crate::kv::KeySet::new(),
                };
                let (_is_delegation, _eip7702_gas_consumed, _code_address, bytecode) =
                    crate::utils::eip7702_get_code(&mut db, &mut substate, address_to);
                let initial_call_frame = CallFrame::new(
                    env.origin,
                    address_to,
                    address_to,
                    bytecode,
                    tx.value,
                    bytes_clone(&tx.data),
                    false,
                    env.gas_limit,
                    0,
                    0,
                    false,
                );
                let cache_backup = duplicate_cache(&db.cache);
                let mut call_frames: Vec<CallFrame> = Vec::new();
                call_frames.push(initial_call_frame);
                let mut access_list: Vec<(Address, Vec<U256>)> = Vec::new();
                Ok(
                    VM {
                        call_frames,
                        env,
                        accrued_substate: substate,
                        db,
                        tx_kind: TxKind::Call(address_to),
                        access_list,
                        cache_backup,
                        blob_versioned_hashes: duplicate_words(&tx.blob_versioned_hashes),
                        return_data: Vec::new(),
                        backups: Vec::new(),
                    },
                )
            },
            TxKind::Create => {
                let sender_account = db.get_account(&env.origin);
                let sender_nonce = sender_account.info.nonce;
                let new_contract_address = crate::utils::calculate_create_address(
                    env.origin,
                    sender_nonce,
                );
                let _ = default_touched_accounts.insert(new_contract_address);
                let mut created_accounts: crate::kv::KeySet<Address> = crate::kv::KeySet::new();
                let _ = created_accounts.insert(new_contract_address);
                proof {
                    assert(created_accounts@ =~= Set::<Seq<u8>>::empty().insert(
                        new_contract_address@,
                    ));
                }
                let substate = Substate {
                    selfdestruct_set: crate::kv::KeySet::new(),
                    touched_accounts: default_touched_accounts,
                    touched_storage_slots: default_touched_storage_slots,
                    created_accounts,
                };
                let initial_call_frame = CallFrame::new(
                    env.origin,
                    new_contract_address,
                    new_contract_address,
                    bytes_new(),
                    tx.value,
                    bytes_clone(&tx.data),
                    false,
                    env.gas_limit,
                    0,
                    0,
                    false,
                );
                let cache_backup = duplicate_cache(&db.cache);
                let mut call_frames: Vec<CallFrame> = Vec::new();
                call_frames.push(initial_call_frame);
                let access_list: Vec<(Address, Vec<U256>)> = Vec::new();
                Ok(
                    VM {
                        call_frames,
                        env,
                        accrued_substate: substate,
                        db,
                        tx_kind: TxKind::Create,
                        access_list,
                        cache_backup,
                        blob_versioned_hashes: duplicate_words(&tx.blob_versioned_hashes),
                        return_data: Vec::new(),
                        backups: Vec::new(),
                    },
                )
            },
        }
    }

    /// The EIP-7623 floor on a transaction's total gas (Prague on):
    /// a base charge plus ten gas per calldata token.
    pub fn get_min_gas_used(&self, initial_call_frame: &CallFrame) -> (r: Result<u64, VMError>)
        ensures
            r matches Ok(m) ==> m == crate::gas_cost::TX_BASE_COST
                + crate::gas_cost::TOTAL_COST_FLOOR_PER_TOKEN * crate::gas_cost::calldata_tokens(
                if self.tx_kind is Create {
                    initial_call_frame.code_view()
                } else {
                    initial_call_frame.calldata_view()
                },
            ),
            21000 + 10 * crate::gas_cost::calldata_tokens(
                if self.tx_kind is Create {
                    initial_call_frame.code_view()
                } else {
                    initial_call_frame.calldata_view()
                },
            ) <= u64::MAX ==> r is Ok,
    {
        let calldata = if self.is_create() {
            crate::bytebuf::bytes_to_vec(&initial_call_frame.bytecode)
        } else {
            crate::bytebuf::bytes_to_vec(&initial_call_frame.calldata)
        };
        let scaled = crate::gas_cost::tx_calldata(&calldata)?;
        let tokens_in_calldata: u64 = scaled / crate::gas_cost::STANDARD_TOKEN_COST;
        proof {
            let tk = crate::gas_cost::calldata_tokens(calldata@);
            assert(tk >= 0) by {
                lemma_calldata_tokens_nonneg(calldata@);
            }
            assert((4 * tk) / 4 == tk) by (nonlinear_arith);
        }
        let min_gas_used: u64 = match tokens_in_calldata.checked_mul(
            crate::gas_cost::TOTAL_COST_FLOOR_PER_TOKEN,
        ) {
            Some(m) => m,
            None => {
                return Err(VMError::Internal(InternalError::GasOverflow));
            },
        };
        match min_gas_used.checked_add(crate::gas_cost::TX_BASE_COST) {
            Some(m) => Ok(m),
            None => Err(VMError::Internal(InternalError::GasOverflow)),
        }
    }

    /// The default pre-execution hook: charge the intrinsic gas, bump
    /// the sender's nonce, deduct the up-front fee and move the call
    /// value.
    pub fn prepare_execution(&mut self, initial_call_frame: &mut CallFrame) -> (r: Result<
        (),
        VMError,
    >)
        requires
            old(self).wf(),
            old(initial_call_frame).wf(),
        ensures
            final(self).wf(),
            final(initial_call_frame).wf(),
            final(initial_call_frame).gas_limit == old(initial_call_frame).gas_limit,
            final(self).db.store == old(self).db.store,
            final(self).env == old(self).env,
            final(self).call_frames == old(self).call_frames,
            final(self).backups == old(self).backups,
            final(self).return_data == old(self).return_data,
            final(self).tx_kind == old(self).tx_kind,
            final(self).cache_backup == old(self).cache_backup,
            r is Ok ==> final(initial_call_frame).gas_used >= old(initial_call_frame).gas_used,
            *final(initial_call_frame) == (CallFrame {
                gas_used: final(initial_call_frame).gas_used,
                ..*old(initial_call_frame)
            }),
            ({
                // Success is owed when the intrinsic gas fits the
                // limit, the sender can pay the up-front fee and the
                // value, and the counters do not saturate.
                let f = *old(initial_call_frame);
                let tokens4 = 4 * crate::gas_cost::calldata_tokens(f.calldata_view());
                let create_extra: int = if old(self).tx_kind is Create {
                    32000 + (if crate::fork::fork_num(old(self).env.config.fork)
                        >= crate::fork::fork_num(Fork::Shanghai) {
                        2 * crate::gas_cost::words32(f.calldata_view().len() as int)
                    } else {
                        0
                    })
                } else {
                    0
                };
                let intrinsic = 21000 + tokens4 + create_extra;
                let origin = old(self).env.origin;
                let m1 = read_through(old(self).db.store, old(self).db.model(), origin@);
                let m2 = m1.insert(
                    origin@,
                    (m1[origin@].0, (m1[origin@].1 + 1) as u64, m1[origin@].2, m1[origin@].3),
                );
                let fee = old(self).env.gas_limit * old(self).env.gas_price.as_nat();
                let m3 = m2.insert(
                    origin@,
                    ((m2[origin@].0 - fee) as nat, m2[origin@].1, m2[origin@].2, m2[origin@].3),
                );
                let m4 = m3.insert(
                    origin@,
                    (
                        (m3[origin@].0 - f.msg_value.as_nat()) as nat,
                        m3[origin@].1,
                        m3[origin@].2,
                        m3[origin@].3,
                    ),
                );
                let m5 = read_through(old(self).db.store, m4, f.to@);
                let credited = m5.insert(
                    f.to@,
                    (
                        (m5[f.to@].0 + f.msg_value.as_nat()) as nat,
                        m5[f.to@].1,
                        m5[f.to@].2,
                        m5[f.to@].3,
                    ),
                );
                let conditions = {
                    &&& f.gas_used + intrinsic <= f.gas_limit
                    &&& m1[origin@].1 < u64::MAX
                    &&& old(self).env.gas_price.as_nat() <= u64::MAX
                    &&& fee <= m2[origin@].0
                    &&& f.msg_value.as_nat() <= m3[origin@].0
                    &&& old(self).blob_versioned_hashes@.len() == 0
                    &&& (old(self).tx_kind is Create || m5[f.to@].0 + f.msg_value.as_nat()
                        < crate::word::pow256(32))
                };
                &&& (f.gas_used + intrinsic > f.gas_limit ==> r is Err)
                &&& (conditions ==> r is Ok)
                &&& (conditions && r is Ok ==> final(initial_call_frame).gas_used == f.gas_used
                    + intrinsic)
                &&& (conditions && r is Ok && !(old(self).tx_kind is Create)
                    ==> final(self).db.model() == credited)
                &&& (conditions && r is Ok && old(self).tx_kind is Create
                    ==> final(self).db.model() == m4)
            }),
    {
        let calldata = crate::bytebuf::bytes_to_vec(&initial_call_frame.calldata);
        let scaled = crate::gas_cost::tx_calldata(&calldata)?;
        let mut intrinsic: u64 = match crate::gas_cost::TX_BASE_COST.checked_add(scaled) {
            Some(g) => g,
            None => {
                return Err(VMError::OutOfGas(crate::errors::OutOfGasError::GasCostOverflow));
            },
        };
        if self.is_create() {
            intrinsic = match intrinsic.checked_add(crate::gas_cost::CREATE_BASE_COST) {
                Some(g) => g,
                None => {
                    return Err(VMError::OutOfGas(crate::errors::OutOfGasError::GasCostOverflow));
                },
            };
            if self.env.config.fork.at_least(Fork::Shanghai) {
                let words = crate::gas_cost::copy_words_cost(calldata.len())?;
                let init_cost = match words.checked_mul(2) {
                    Some(w) => w / 3,
                    None => {
                        return Err(
                            VMError::OutOfGas(crate::errors::OutOfGasError::GasCostOverflow),
                        );
                    },
                };
                intrinsic = match intrinsic.checked_add(init_cost) {
                    Some(g) => g,
                    None => {
                        return Err(
                            VMError::OutOfGas(crate::errors::OutOfGasError::GasCostOverflow),
                        );
                    },
                };
            }
        }
        initial_call_frame.increase_consumed_gas(intrinsic)?;
        let origin = self.env.origin;
        self.db.increment_account_nonce(&origin)?;
        let gas_price = match self.env.gas_price.to_u64() {
            Some(p) => p,
            None => {
                return Err(VMError::BalanceUnderflow);
            },
        };
        proof {
            lemma_u64_mul_fits(old(self).env.gas_limit, gas_price);
        }
        let fee = (self.env.gas_limit as u128) * (gas_price as u128);
        let fee_word = U256::from_u128(fee);
        self.db.decrease_account_balance(&origin, &fee_word)?;
        let value = initial_call_frame.msg_value;
        self.db.decrease_account_balance(&origin, &value)?;
        if self.env.config.fork.at_least(Fork::Cancun) && self.blob_versioned_hashes.len() > 0 {
            let count = self.blob_versioned_hashes.len();
            let blob_price = match self.env.blob_gas_price.to_u64() {
                Some(p) => p,
                None => {
                    return Err(VMError::BalanceUnderflow);
                },
            };
            proof {
                lemma_u64_mul_fits(count as u64, 131072);
            }
            let blob_gas: u128 = (count as u128) * 131072;
            let blob_fee = match blob_gas.checked_mul(blob_price as u128) {
                Some(fe) => fe,
                None => {
                    return Err(VMError::BalanceUnderflow);
                },
            };
            let blob_fee_word = U256::from_u128(blob_fee);
            self.db.decrease_account_balance(&origin, &blob_fee_word)?;
        }
        if !self.is_create() {
            let to = initial_call_frame.to;
            self.db.increase_account_balance(&to, &value)?;
        }
        Ok(())
    }

    /// The default post-execution hook: cap and pay the refund, pay
    /// the coinbase its tip, delete the scheduled and the empty
    /// touched accounts, and clear the transient storage.
    pub fn finalize_execution(&mut self, report: &mut ExecutionReport) -> (r: Result<(), VMError>)
        requires
            old(self).wf(),
            old(self).has_frame(),
            old(report).gas_used <= old(self).env.gas_limit,
        ensures
            final(self).wf(),
            final(self).has_frame(),
            final(self).db.store == old(self).db.store,
            final(self).accrued_substate == old(self).accrued_substate,
            final(report).result == old(report).result,
            r is Ok ==> ({
                let denom: int = if crate::fork::fork_num(old(self).env.config.fork)
                    >= crate::fork::fork_num(Fork::London) {
                    5
                } else {
                    2
                };
                &&& final(report).gas_refunded <= old(report).gas_used as int / denom
                &&& final(report).gas_refunded <= (final(report).gas_used
                    + final(report).gas_refunded) as int / denom
                &&& final(self).env.transient_storage@ == Map::<Seq<u8>, U256>::empty()
                &&& (forall|k: Seq<u8>|
                    #[trigger] old(self).accrued_substate.selfdestruct_set@.contains(k)
                        ==> !final(self).db.model().contains_key(k))
            }),
            r is Ok && !(old(report).result is Success) ==> final(report).gas_refunded == 0,
            r is Ok && !(old(report).result is Success) && old(report).gas_used == old(
                self,
            ).env.gas_limit ==> final(report).gas_used == old(self).env.gas_limit,
            // Success is owed on the common path: a zero gas price
            // means nothing to credit back, and before the EIP-7623
            // floor there is no token arithmetic to saturate.
            old(self).env.gas_price.as_nat() == 0 && crate::fork::fork_num(
                old(self).env.config.fork,
            ) < crate::fork::fork_num(Fork::Prague) ==> r is Ok,
    {
        let frame = self.take_frame();
        proof {
            assert(old(self).call_frames@[old(self).call_frames@.len() - 1].wf());
            lemma_frames_wf_drop(old(self).call_frames@);
        }
        let fork = self.env.config.fork;
        if matches!(report.result, TxResult::Success) {
            let denom: u64 = if fork.at_least(Fork::London) {
                5
            } else {
                2
            };
            let cap = report.gas_used / denom;
            let refund = if report.gas_refunded < cap {
                report.gas_refunded
            } else {
                cap
            };
            proof {
                // The cap also bounds the refund against the reported
                // gas after subtraction plus the refund itself.
                vstd::arithmetic::div_mod::lemma_div_is_ordered(
                    (report.gas_used - refund + refund) as int,
                    (report.gas_used) as int,
                    denom as int,
                );
            }
            report.gas_used = report.gas_used - refund;
            report.gas_refunded = refund;
        } else {
            report.gas_refunded = 0;
        }
        if fork.at_least(Fork::Prague) {
            let min_gas = match self.get_min_gas_used(&frame) {
                Ok(m) => m,
                Err(e) => {
                    self.put_frame(frame);
                    proof {
                        lemma_frames_wf_push(
                            old(self).call_frames@.drop_last(),
                            self.call_frames@.last(),
                        );
                    }
                    return Err(e);
                },
            };
            if report.gas_used < min_gas && min_gas <= self.env.gas_limit {
                report.gas_used = min_gas;
            }
        }
        let origin = self.env.origin;
        let unused: u64 = if report.gas_used <= self.env.gas_limit {
            self.env.gas_limit - report.gas_used
        } else {
            0
        };
        let gas_price = match self.env.gas_price.to_u64() {
            Some(p) => p,
            None => 0,
        };
        proof {
            lemma_u64_mul_fits(unused, gas_price);
        }
        proof {
            if gas_price == 0 {
                assert((unused as u128) * (gas_price as u128) == 0) by (nonlinear_arith)
                    requires
                        gas_price == 0,
                ;
            }
        }
        let give_back = U256::from_u128((unused as u128) * (gas_price as u128));
        proof {
            crate::db::lemma_read_through_balance_bound(self.db, origin@);
        }
        let credited = self.db.increase_account_balance(&origin, &give_back);
        if let Err(e) = credited {
            self.put_frame(frame);
            proof {
                lemma_frames_wf_push(old(self).call_frames@.drop_last(), self.call_frames@.last());
            }
            return Err(e);
        }
        let base_fee = match self.env.base_fee_per_gas.to_u64() {
            Some(b) => b,
            None => 0,
        };
        let tip: u64 = if fork.at_least(Fork::London) {
            if gas_price > base_fee {
                gas_price - base_fee
            } else {
                0
            }
        } else {
            gas_price
        };
        let coinbase = self.env.coinbase;
        proof {
            lemma_u64_mul_fits(report.gas_used, tip);
        }
        proof {
            if tip == 0 {
                assert((report.gas_used as u128) * (tip as u128) == 0) by (nonlinear_arith)
                    requires
                        tip == 0,
                ;
            }
        }
        let coinbase_fee = U256::from_u128((report.gas_used as u128) * (tip as u128));
        proof {
            crate::db::lemma_read_through_balance_bound(self.db, coinbase@);
        }
        let paid = self.db.increase_account_balance(&coinbase, &coinbase_fee);
        if let Err(e) = paid {
            self.put_frame(frame);
            proof {
                lemma_frames_wf_push(old(self).call_frames@.drop_last(), self.call_frames@.last());
            }
            return Err(e);
        }
        if fork.at_least(Fork::SpuriousDragon) {
            let touched_len = self.accrued_substate.touched_accounts.len();
            let mut t: usize = 0;
            while t < touched_len
                invariant
                    t <= touched_len,
                    self.wf(),
                    touched_len == self.accrued_substate.touched_accounts.elems@.len(),
                    self.accrued_substate == old(self).accrued_substate,
                    self.db.store == old(self).db.store,
                    self.env == old(self).env,
                    self.call_frames@ == old(self).call_frames@.drop_last(),
                decreases touched_len - t,
            {
                let candidate = *self.accrued_substate.touched_accounts.key_at(t);
                if self.db.account_exists(&candidate) {
                    let account = self.db.get_account(&candidate);
                    if account.info.is_empty() {
                        self.db.remove_account(&candidate);
                    }
                }
                t += 1;
            }
        }
        let sd_len = self.accrued_substate.selfdestruct_set.len();
        let mut i: usize = 0;
        while i < sd_len
            invariant
                i <= sd_len,
                self.wf(),
                sd_len == self.accrued_substate.selfdestruct_set.elems@.len(),
                self.accrued_substate == old(self).accrued_substate,
                self.db.store == old(self).db.store,
                self.env == old(self).env,
                forall|t: int| 0 <= t < i ==> !self.db.model().contains_key(
                    #[trigger] self.accrued_substate.selfdestruct_set.elems@[t]@,
                ),
            decreases sd_len - i,
        {
            let victim = *self.accrued_substate.selfdestruct_set.key_at(i);
            self.db.remove_account(&victim);
            proof {
                assert forall|t: int| 0 <= t < i + 1
                    implies !self.db.model().contains_key(
                    #[trigger] self.accrued_substate.selfdestruct_set.elems@[t]@,
                ) by {
                    if t < i {
                        if self.accrued_substate.selfdestruct_set.elems@[t]@ == victim@ {
                        }
                    }
                }
            }
            i += 1;
        }
        proof {
            crate::kv::lemma_elems_set(self.accrued_substate.selfdestruct_set.elems@);
            assert forall|k: Seq<u8>|
                #[trigger] old(self).accrued_substate.selfdestruct_set@.contains(k)
                implies !self.db.model().contains_key(k) by {
                let t = choose|t: int| 0 <= t
                    < self.accrued_substate.selfdestruct_set.elems@.len()
                    && self.accrued_substate.selfdestruct_set.elems@[t]@ == k;
                assert(!self.db.model().contains_key(
                    self.accrued_substate.selfdestruct_set.elems@[t]@,
                ));
            }
        }
        self.env.transient_storage = KvMap::new();
        self.put_frame(frame);
        proof {
            lemma_frames_wf_push(old(self).call_frames@.drop_last(), self.call_frames@.last());
        }
        Ok(())
    }

    /// A CREATE transaction whose target address is occupied reverts
    /// the whole transaction, consuming all its gas (EIP-684).
    pub fn handle_create_non_empty_account(&mut self) -> (r: Result<ExecutionReport, VMError>)
        requires
            old(self).wf(),
            old(self).has_frame(),
        ensures
            final(self).wf(),
            final(self).has_frame(),
            final(self).db.store == old(self).db.store,
            r matches Ok(rep) ==> rep.result == TxResult::Revert(VMError::AddressAlreadyOccupied),
            r matches Ok(rep) ==> rep.gas_used == old(self).env.gas_limit,
            r matches Ok(rep) ==> (rep.gas_refunded == 0
                && final(self).env.transient_storage@ == Map::<Seq<u8>, U256>::empty()
                && (forall|k: Seq<u8>|
                    #[trigger] final(self).accrued_substate.selfdestruct_set@.contains(k)
                        ==> !final(self).db.model().contains_key(k))),
            old(self).env.gas_price.as_nat() == 0 && crate::fork::fork_num(
                old(self).env.config.fork,
            ) < crate::fork::fork_num(Fork::Prague) ==> r is Ok,
    {
        let mut report = ExecutionReport {
            result: TxResult::Revert(VMError::AddressAlreadyOccupied),
            gas_used: self.env.gas_limit,
            gas_refunded: 0,
            logs: Vec::new(),
            output: bytes_new(),
        };
        self.finalize_execution(&mut report)?;
        Ok(report)
    }

    /// Run the whole transaction: prepare, seed a created contract,
    /// snapshot, interpret, finalize.
    pub fn execute(&mut self) -> (r: Result<ExecutionReport, VMError>)
        requires
            old(self).wf(),
            old(self).has_frame(),
            old(self).call_frames@.len() == 1,
            old(self).backups@.len() == 0,
            old(self).return_data@.len() == 0,
        ensures
            final(self).wf(),
            final(self).db.store == old(self).db.store,
            r matches Ok(rep) ==> ({
                let denom: int = if crate::fork::fork_num(old(self).env.config.fork)
                    >= crate::fork::fork_num(Fork::London) {
                    5
                } else {
                    2
                };
                &&& rep.gas_refunded <= (rep.gas_used + rep.gas_refunded) as int / denom
                &&& final(self).env.transient_storage@ == Map::<Seq<u8>, U256>::empty()
                &&& (forall|k: Seq<u8>|
                    #[trigger] final(self).accrued_substate.selfdestruct_set@.contains(k)
                        ==> !final(self).db.model().contains_key(k))
            }),
            ({
                // A transaction whose intrinsic gas passes its limit
                // fails, and the failed pre-check leaves the cache as
                // it was for the next transaction.
                let f = old(self).cur();
                let tokens4 = 4 * crate::gas_cost::calldata_tokens(f.calldata_view());
                let create_extra: int = if old(self).tx_kind is Create {
                    32000 + (if crate::fork::fork_num(old(self).env.config.fork)
                        >= crate::fork::fork_num(Fork::Shanghai) {
                        2 * crate::gas_cost::words32(f.calldata_view().len() as int)
                    } else {
                        0
                    })
                } else {
                    0
                };
                let intrinsic = 21000 + tokens4 + create_extra;
                f.gas_used + intrinsic > f.gas_limit ==> (r is Err
                    && final(self).db.model() == old(self).db.model())
            }),
            ({
                // The conditions under which the transaction is owed
                // an outcome: the pre-check's own success conditions.
                let f = old(self).cur();
                let tokens4 = 4 * crate::gas_cost::calldata_tokens(f.calldata_view());
                let create_extra: int = if old(self).tx_kind is Create {
                    32000 + (if crate::fork::fork_num(old(self).env.config.fork)
                        >= crate::fork::fork_num(Fork::Shanghai) {
                        2 * crate::gas_cost::words32(f.calldata_view().len() as int)
                    } else {
                        0
                    })
                } else {
                    0
                };
                let intrinsic = 21000 + tokens4 + create_extra;
                let origin = old(self).env.origin;
                let m1 = read_through(old(self).db.store, old(self).db.model(), origin@);
                let m2 = m1.insert(
                    origin@,
                    (m1[origin@].0, (m1[origin@].1 + 1) as u64, m1[origin@].2, m1[origin@].3),
                );
                let fee = old(self).env.gas_limit * old(self).env.gas_price.as_nat();
                let m3 = m2.insert(
                    origin@,
                    ((m2[origin@].0 - fee) as nat, m2[origin@].1, m2[origin@].2, m2[origin@].3),
                );
                let m4 = m3.insert(
                    origin@,
                    (
                        (m3[origin@].0 - f.msg_value.as_nat()) as nat,
                        m3[origin@].1,
                        m3[origin@].2,
                        m3[origin@].3,
                    ),
                );
                let m5 = read_through(old(self).db.store, m4, f.to@);
                let prep_ok = {
                    &&& f.gas_used + intrinsic <= f.gas_limit
                    &&& m1[origin@].1 < u64::MAX
                    &&& old(self).env.gas_price.as_nat() <= u64::MAX
                    &&& fee <= m2[origin@].0
                    &&& f.msg_value.as_nat() <= m3[origin@].0
                    &&& old(self).blob_versioned_hashes@.len() == 0
                    &&& (old(self).tx_kind is Create || m5[f.to@].0 + f.msg_value.as_nat()
                        < crate::word::pow256(32))
                };
                let target_after = read_through(old(self).db.store, m4, f.to@);
                let occupied = target_after[f.to@].1 != 0 || target_after[f.to@].2.len() != 0;
                let seed_fits = target_after[f.to@].0 + f.msg_value.as_nat()
                    < crate::word::pow256(32);
                let finalize_plain = old(self).env.gas_price.as_nat() == 0
                    && crate::fork::fork_num(old(self).env.config.fork) < crate::fork::fork_num(
                    Fork::Prague,
                );
                &&& (prep_ok && old(self).tx_kind is Create && occupied && seed_fits ==> (
                r matches Ok(rep) ==> rep.result == TxResult::Revert(
                    VMError::AddressAlreadyOccupied,
                ) && rep.gas_used == old(self).env.gas_limit && rep.gas_refunded == 0))
                &&& (prep_ok && old(self).tx_kind is Create && occupied && seed_fits
                    && finalize_plain ==> r is Ok)
                &&& (prep_ok && !(old(self).tx_kind is Create) && f.code_view().len() == 0
                    && f.pc == 0 && f.depth == 0 && !f.is_create
                    && !crate::precompiles::spec_is_precompile(
                    f.code_address@,
                    old(self).env.config.fork,
                ) && f.gas_limit == old(self).env.gas_limit
                    && old(self).env.gas_price.as_nat() == 0 && crate::fork::fork_num(
                    old(self).env.config.fork,
                ) < crate::fork::fork_num(Fork::Prague) ==> r is Ok)
            }),
    {
        self.cache_backup = duplicate_cache(&self.db.cache);
        let mut initial_call_frame = self.take_frame();
        proof {
            assert(old(self).call_frames@[old(self).call_frames@.len() - 1].wf());
            lemma_frames_wf_drop(old(self).call_frames@);
        }
        let ghost g_f = old(self).cur();
        let ghost g_tokens4 = 4 * crate::gas_cost::calldata_tokens(g_f.calldata_view());
        let ghost g_create_extra: int = if old(self).tx_kind is Create {
            32000 + (if crate::fork::fork_num(old(self).env.config.fork)
                >= crate::fork::fork_num(Fork::Shanghai) {
                2 * crate::gas_cost::words32(g_f.calldata_view().len() as int)
            } else {
                0
            })
        } else {
            0
        };
        let ghost g_intrinsic = 21000 + g_tokens4 + g_create_extra;
        let ghost g_origin = old(self).env.origin;
        let ghost g_m1 = read_through(old(self).db.store, old(self).db.model(), g_origin@);
        let ghost g_m2 = g_m1.insert(
            g_origin@,
            (g_m1[g_origin@].0, (g_m1[g_origin@].1 + 1) as u64, g_m1[g_origin@].2, g_m1[g_origin@].3),
        );
        let ghost g_fee = old(self).env.gas_limit * old(self).env.gas_price.as_nat();
        let ghost g_m3 = g_m2.insert(
            g_origin@,
            ((g_m2[g_origin@].0 - g_fee) as nat, g_m2[g_origin@].1, g_m2[g_origin@].2, g_m2[g_origin@].3),
        );
        let ghost g_m4 = g_m3.insert(
            g_origin@,
            (
                (g_m3[g_origin@].0 - g_f.msg_value.as_nat()) as nat,
                g_m3[g_origin@].1,
                g_m3[g_origin@].2,
                g_m3[g_origin@].3,
            ),
        );
        let ghost g_m5 = read_through(old(self).db.store, g_m4, g_f.to@);
        let ghost g_prep_ok = g_f.gas_used + g_intrinsic <= g_f.gas_limit
            && g_m1[g_origin@].1 < u64::MAX && old(self).env.gas_price.as_nat() <= u64::MAX
            && g_fee <= g_m2[g_origin@].0 && g_f.msg_value.as_nat() <= g_m3[g_origin@].0
            && old(self).blob_versioned_hashes@.len() == 0 && (old(self).tx_kind is Create
            || g_m5[g_f.to@].0 + g_f.msg_value.as_nat() < crate::word::pow256(32));
        let ghost g_occupied = g_m5[g_f.to@].1 != 0 || g_m5[g_f.to@].2.len() != 0;
        if let Err(e) = self.prepare_execution(&mut initial_call_frame) {
            self.db.cache = duplicate_cache(&self.cache_backup);
            self.put_frame(initial_call_frame);
            proof {
                lemma_frames_wf_push(self.call_frames@.drop_last(), self.call_frames@.last());
                assert(self.call_frames@.drop_last() =~= old(self).call_frames@.drop_last());
            }
            return Err(e);
        }
        proof {
            if g_prep_ok && old(self).tx_kind is Create {
                assert(self.db.model() == g_m4);
            }
        }
        if self.is_create() {
            let new_contract_address = initial_call_frame.to;
            let new_account = self.db.get_account(&new_contract_address);
            proof {
                if g_prep_ok {
                    assert(new_account.model() == g_m5[g_f.to@]);
                }
            }
            let value = initial_call_frame.msg_value;
            let balance = match new_account.info.balance.checked_add(&value) {
                Some(b) => b,
                None => {
                    self.put_frame(initial_call_frame);
                    proof {
                        lemma_frames_wf_push(
                            self.call_frames@.drop_last(),
                            self.call_frames@.last(),
                        );
                    }
                    return Err(VMError::Internal(InternalError::ArithmeticOperationOverflow));
                },
            };
            if new_account.has_code_or_nonce() {
                self.put_frame(initial_call_frame);
                proof {
                    lemma_frames_wf_push(self.call_frames@.drop_last(), self.call_frames@.last());
                }
                return match self.handle_create_non_empty_account() {
                    Ok(rep) => {
                        proof {
                            let denom: int = if crate::fork::fork_num(old(self).env.config.fork)
                                >= crate::fork::fork_num(Fork::London) {
                                5
                            } else {
                                2
                            };
                            assert((rep.gas_used + rep.gas_refunded) as int / denom >= 0)
                                by (nonlinear_arith)
                                requires
                                    denom == 5 || denom == 2,
                                    rep.gas_used + rep.gas_refunded >= 0,
                            ;
                        }
                        Ok(rep)
                    },
                    Err(e) => Err(e),
                };
            }
            proof {
                if g_prep_ok {
                    assert(!g_occupied);
                }
            }
            let nonce: u64 = if self.env.config.fork.before(Fork::SpuriousDragon) {
                0
            } else {
                1
            };
            let created_contract = Account::new(balance, bytes_new(), nonce, KvMap::new());
            self.db.insert_account(&new_contract_address, created_contract);
        }
        self.put_frame(initial_call_frame);
        proof {
            lemma_frames_wf_push(self.call_frames@.drop_last(), self.call_frames@.last());
        }
        let backup = self.snapshot();
        self.backups.push(backup);
        proof {
            assert(backups_wf(self.backups@)) by {
                assert(forall|i: int| 0 <= i < self.backups@.len() - 1
                    ==> self.backups@[i] == old(self).backups@[i]);
                assert(self.backups@[self.backups@.len() - 1].wf());
            }
            assert(stacks_aligned(*self));
        }
        let mut report = match self.run_execution() {
            Ok(rep) => rep,
            Err(e) => {
                return Err(e);
            },
        };
        if report.gas_used > self.env.gas_limit {
            return Err(VMError::Internal(InternalError::GasOverflow));
        }
        self.finalize_execution(&mut report)?;
        Ok(report)
    }

    /// Execute, then put the cache back as it was: no observable state
    /// change survives.
    pub fn stateless_execute(&mut self) -> (r: Result<ExecutionReport, VMError>)
        requires
            old(self).wf(),
            old(self).has_frame(),
            old(self).call_frames@.len() == 1,
            old(self).backups@.len() == 0,
            old(self).return_data@.len() == 0,
        ensures
            final(self).wf(),
            final(self).db.store == old(self).db.store,
            r is Ok ==> final(self).db.model() == old(self).db.model(),
            ({
                // Success is owed under the same plain conditions as
                // for `execute`.
                let f = old(self).cur();
                let tokens4 = 4 * crate::gas_cost::calldata_tokens(f.calldata_view());
                let create_extra: int = if old(self).tx_kind is Create {
                    32000 + (if crate::fork::fork_num(old(self).env.config.fork)
                        >= crate::fork::fork_num(Fork::Shanghai) {
                        2 * crate::gas_cost::words32(f.calldata_view().len() as int)
                    } else {
                        0
                    })
                } else {
                    0
                };
                let intrinsic = 21000 + tokens4 + create_extra;
                let origin = old(self).env.origin;
                let m1 = read_through(old(self).db.store, old(self).db.model(), origin@);
                let m2 = m1.insert(
                    origin@,
                    (m1[origin@].0, (m1[origin@].1 + 1) as u64, m1[origin@].2, m1[origin@].3),
                );
                let fee = old(self).env.gas_limit * old(self).env.gas_price.as_nat();
                let m3 = m2.insert(
                    origin@,
                    ((m2[origin@].0 - fee) as nat, m2[origin@].1, m2[origin@].2, m2[origin@].3),
                );
                let m4 = m3.insert(
                    origin@,
                    (
                        (m3[origin@].0 - f.msg_value.as_nat()) as nat,
                        m3[origin@].1,
                        m3[origin@].2,
                        m3[origin@].3,
                    ),
                );
                let m5 = read_through(old(self).db.store, m4, f.to@);
                let prep_ok = {
                    &&& f.gas_used + intrinsic <= f.gas_limit
                    &&& m1[origin@].1 < u64::MAX
                    &&& old(self).env.gas_price.as_nat() <= u64::MAX
                    &&& fee <= m2[origin@].0
                    &&& f.msg_value.as_nat() <= m3[origin@].0
                    &&& old(self).blob_versioned_hashes@.len() == 0
                    &&& (old(self).tx_kind is Create || m5[f.to@].0 + f.msg_value.as_nat()
                        < crate::word::pow256(32))
                };
                prep_ok && !(old(self).tx_kind is Create) && f.code_view().len() == 0 && f.pc == 0
                    && f.depth == 0 && !f.is_create && !crate::precompiles::spec_is_precompile(
                    f.code_address@,
                    old(self).env.config.fork,
                ) && f.gas_limit == old(self).env.gas_limit
                    && old(self).env.gas_price.as_nat() == 0 && crate::fork::fork_num(
                    old(self).env.config.fork,
                ) < crate::fork::fork_num(Fork::Prague) ==> r is Ok
            }),
    {
        let cache_backup = duplicate_cache(&self.db.cache);
        let report = match self.execute() {
            Ok(rep) => rep,
            Err(e) => {
                return Err(e);
            },
        };
        self.db.cache = cache_backup;
        Ok(report)
    }
}

proof fn lemma_u64_mul_fits(a: u64, b: u64)
    ensures
        (a as int) * (b as int) < 0x1_0000_0000_0000_0000_0000_0000_0000_0000,
{
    assert((a as int) * (b as int) <= 0xFFFF_FFFF_FFFF_FFFF * 0xFFFF_FFFF_FFFF_FFFF)
        by (nonlinear_arith)
        requires
            0 <= a <= 0xFFFF_FFFF_FFFF_FFFF,
            0 <= b <= 0xFFFF_FFFF_FFFF_FFFF,
    ;
}

proof fn lemma_calldata_tokens_nonneg(data: Seq<u8>)
    ensures
        crate::gas_cost::calldata_tokens(data) >= 0,
    decreases data.len(),
{
    if data.len() > 0 {
        lemma_calldata_tokens_nonneg(data.drop_last());
    }
}

/// A copy of a word list.
pub fn duplicate_words(words: &Vec<U256>) -> (r: Vec<U256>)
    ensures
        r@ == words@,
{
    let mut out: Vec<U256> = Vec::new();
    let n = words.len();
    let mut i: usize = 0;
    while i < n
        invariant
            i <= n,
            n == words@.len(),
            out@ =~= words@.take(i as int),
        decreases n - i,
    {
        out.push(words[i]);
        i += 1;
    }
    proof {
        assert(out@ =~= words@);
    }
    out
}

/// A copy of the cache with the same observable content.
pub fn duplicate_cache(cache: &CacheDB) -> (r: CacheDB)
    requires
        cache_wf(*cache),
    ensures
        cache_wf(r),
        cache_model(r) == cache_model(*cache),
{
    let mut entries: Vec<(Address, Account)> = Vec::new();
    let n = cache.entries.len();
    let mut i: usize = 0;
    while i < n
        invariant
            i <= n,
            cache_wf(*cache),
            n == cache.entries@.len(),
            entries@.len() == i,
            forall|t: int| #![all_triggers] 0 <= t < i ==> entries@[t].0 == cache.entries@[t].0
                && entries@[t].1.model() == cache.entries@[t].1.model()
                && entries@[t].1.wf(),
        decreases n - i,
    {
        proof {
            crate::kv::lemma_entries_map(cache.entries@);
            assert(cache@.contains_key(cache.entries@[i as int].0@));
            assert(cache@[cache.entries@[i as int].0@] == cache.entries@[i as int].1);
        }
        let e = &cache.entries[i];
        let dup = e.1.duplicate();
        entries.push((e.0, dup));
        i += 1;
    }
    let r = KvMap { entries };
    proof {
        assert(crate::kv::keys_unique(r.entries@)) by {
            assert(forall|a: int, b: int| 0 <= a < b < n
                ==> cache.entries@[a].0@ != cache.entries@[b].0@);
        }
        crate::kv::lemma_entries_map(r.entries@);
        crate::kv::lemma_entries_map(cache.entries@);
        assert forall|k: Seq<u8>| #[trigger] r@.contains_key(k) implies r@[k].wf() by {
            let t = choose|t: int| 0 <= t < r.entries@.len() && r.entries@[t].0@ == k;
            assert(r@[k] == r.entries@[t].1);
        }
        let m1 = cache_model(r);
        let m2 = cache_model(*cache);
        assert forall|k: Seq<u8>| m1.contains_key(k) implies m2.contains_key(k) && m1[k] == m2[k] by {
            let t = choose|t: int| 0 <= t < r.entries@.len() && r.entries@[t].0@ == k;
            assert(cache.entries@[t].0@ == k);
            assert(r@[k] == r.entries@[t].1);
            assert(cache@[k] == cache.entries@[t].1);
        }
        assert forall|k: Seq<u8>| m2.contains_key(k) implies m1.contains_key(k) by {
            let t = choose|t: int| 0 <= t < cache.entries@.len() && cache.entries@[t].0@ == k;
            assert(r.entries@[t].0@ == k);
        }
        assert(m1 =~= m2);
    }
    r
}

/// A copy of a log list with the same observable content.
pub fn duplicate_logs(logs: &Vec<Log>) -> (r: Vec<Log>)
    ensures
        r@.len() == logs@.len(),
        forall|i: int| #![all_triggers] 0 <= i < logs@.len() ==> r@[i].address == logs@[i].address
            && r@[i].topics@ == logs@[i].topics@ && r@[i].data@ == logs@[i].data@,
{
    let mut out: Vec<Log> = Vec::new();
    let n = logs.len();
    let mut i: usize = 0;
    while i < n
        invariant
            i <= n,
            n == logs@.len(),
            out@.len() == i,
            forall|t: int| #![all_triggers] 0 <= t < i ==> out@[t].address == logs@[t].address
                && out@[t].topics@ == logs@[t].topics@ && out@[t].data@ == logs@[t].data@,
        decreases n - i,
    {
        let src = &logs[i];
        let mut topics: Vec<U256> = Vec::new();
        let tn = src.topics.len();
        let mut t: usize = 0;
        while t < tn
            invariant
                t <= tn,
                tn == src.topics@.len(),
                topics@ =~= src.topics@.take(t as int),
            decreases tn - t,
        {
            topics.push(src.topics[t]);
            t += 1;
        }
        let mut data: Vec<u8> = Vec::new();
        let dn = src.data.len();
        let mut d: usize = 0;
        while d < dn
            invariant
                d <= dn,
                dn == src.data@.len(),
                data@ =~= src.data@.take(d as int),
            decreases dn - d,
        {
            data.push(src.data[d]);
            d += 1;
        }
        proof {
            assert(topics@ =~= src.topics@);
            assert(data@ =~= src.data@);
        }
        out.push(Log { address: src.address, topics, data });
        i += 1;
    }
    out
}

} // verus!
