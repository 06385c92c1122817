//! The general laws the interpreter obeys, stated and proved once,
//! over the same spec functions the contracts use.

use vstd::prelude::*;
use crate::call_frame::CallFrame;
use crate::fork::{fork_num, Fork};
use crate::memory::{expand_view, round32, write_view};
use crate::opcode_handlers::stack_memory_storage_flow::sstore_refund_delta;
use crate::vm::{frames_wf, VM};
use crate::word::U256;

verus! {

/// In every well-formed machine state, each frame spends no more gas
/// than its limit, keeps its operand stack within 1024 words and its
/// call depth within 1024, and holds a whole number of 32-byte memory
/// words.
pub proof fn lemma_reachable_frame_bounds(v: VM, i: int)
    requires
        v.wf(),
        0 <= i < v.call_frames@.len(),
    ensures
        v.call_frames@[i].gas_used <= v.call_frames@[i].gas_limit,
        v.call_frames@[i].stack@.len() <= 1024,
        v.call_frames@[i].depth <= 1024,
        v.call_frames@[i].memory@.len() % 32 == 0,
{
    assert(v.call_frames@[i].wf());
}

/// The warm-account set only grows: every access inserts, nothing
/// within a transaction removes.
pub proof fn lemma_touched_accounts_grow(touched: Set<Seq<u8>>, address: Seq<u8>)
    ensures
        touched.subset_of(touched.insert(address)),
{
}

/// Storing a 32-byte word and loading at the same offset, with no
/// write in between, yields the word back.
pub proof fn lemma_mstore_then_mload(memory: Seq<u8>, off: int, value: U256)
    requires
        0 <= off,
    ensures
        write_view(expand_view(memory, round32(off + 32)), off, value@).subrange(off, off + 32)
            =~= value@,
{
    crate::memory::lemma_round32(off + 32);
}

/// A push followed by a pop leaves the operand stack and the memory
/// exactly as they were; the hypotheses are the success
/// postconditions of the PUSH and POP handlers.
pub proof fn lemma_push_then_pop(f0: CallFrame, f1: CallFrame, f2: CallFrame, value: U256)
    requires
        f1.stack@ == f0.stack@.push(value),
        f1.memory@ == f0.memory@,
        f2.stack@ == f1.stack@.drop_last(),
        f2.memory@ == f1.memory@,
    ensures
        f2.stack@ == f0.stack@,
        f2.memory@ == f0.memory@,
{
    assert(f0.stack@.push(value).drop_last() =~= f0.stack@);
}

/// Writing a slot and then writing its original value back leaves the
/// stored value as it was.
pub proof fn lemma_sstore_value_roundtrip(
    storage: Map<Seq<u8>, crate::account::StorageSlot>,
    key: Seq<u8>,
    mid: crate::account::StorageSlot,
    back: crate::account::StorageSlot,
)
    requires
        storage.contains_key(key),
        back.current_value == storage[key].current_value,
    ensures
        storage.insert(key, mid).insert(key, back)[key].current_value
            == storage[key].current_value,
{
}

/// Writing a value into an untouched slot and then writing the
/// original back moves the refund counter by a net zero — when the
/// value written back equals the value written out. (When they
/// differ the counter moves: writing 1 into a zero slot and zero back
/// adds 19900 from Berlin on.)
pub proof fn lemma_sstore_refund_roundtrip(original: nat, new: nat, fork: Fork)
    requires
        fork_num(fork) >= fork_num(Fork::Berlin),
        new == original,
    ensures
        sstore_refund_delta(original, original, new, fork) + sstore_refund_delta(
            original,
            new,
            original,
            fork,
        ) == 0,
{
}

/// The EIP-150 cap: what a frame forwards never exceeds all but a
/// 64th of what it had left after the fixed charges.
pub proof fn lemma_forwarded_gas_cap(stack_gas: int, available: int)
    requires
        available >= 0,
    ensures
        vstd::math::min(stack_gas, crate::gas_cost::l64(available)) <= crate::gas_cost::l64(
            available,
        ),
        crate::gas_cost::l64(available) <= available,
{
}

/// Every frame of a well-formed stack contributes nonnegative unspent
/// gas, so the interpreter's fuel never goes below zero.
pub proof fn lemma_fuel_nonnegative(v: VM)
    requires
        v.wf(),
    ensures
        v.fuel() >= 0,
{
    crate::vm::lemma_frames_gas_nonneg(v.call_frames@);
}

} // verus!
