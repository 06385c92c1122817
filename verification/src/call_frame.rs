//! One invocation's execution context: code, data, stack, memory, gas
//! and the set of valid jump targets, computed once at construction.

use vstd::prelude::*;
use vstd::math::min as spec_min;
use crate::bytebuf::{bytes_get, bytes_len, bytes_view};
use crate::errors::{InternalError, Log, OutOfGasError, VMError};
use crate::memory::Memory;
use crate::stack::Stack;
use crate::word::{Address, U256};

verus! {

pub const JUMPDEST_OPCODE: u8 = 0x5B;

pub const PUSH1_OPCODE: u8 = 0x60;

pub const PUSH32_OPCODE: u8 = 0x7F;

/// The valid jump targets of `code` from position `i` on: positions
/// holding a JUMPDEST byte that lies outside any PUSH immediate window.
pub open spec fn jumpdests_from(code: Seq<u8>, i: int) -> Set<int>
    decreases code.len() - i,
    when i >= 0
{
    if i < 0 || i >= code.len() {
        Set::empty()
    } else if code[i] == JUMPDEST_OPCODE {
        jumpdests_from(code, i + 1).insert(i)
    } else if PUSH1_OPCODE <= code[i] <= PUSH32_OPCODE {
        jumpdests_from(code, spec_min(i + (code[i] - 0x5F) + 1, code.len() as int))
    } else {
        jumpdests_from(code, i + 1)
    }
}

pub open spec fn spec_valid_jumpdests(code: Seq<u8>) -> Set<int> {
    jumpdests_from(code, 0)
}

/// Every valid target from `i` lies in `[i, len)`.
pub proof fn lemma_jumpdests_range(code: Seq<u8>, i: int)
    requires
        i >= 0,
    ensures
        forall|p: int| #[trigger] jumpdests_from(code, i).contains(p) ==> i <= p < code.len(),
    decreases code.len() - i,
{
    if i >= code.len() {
    } else if code[i] == JUMPDEST_OPCODE {
        lemma_jumpdests_range(code, i + 1);
        assert forall|p: int| #[trigger] jumpdests_from(code, i).contains(p)
            implies i <= p < code.len() by {
            if p != i {
                assert(jumpdests_from(code, i + 1).contains(p));
            }
        }
    } else if PUSH1_OPCODE <= code[i] <= PUSH32_OPCODE {
        let next = spec_min(i + (code[i] - 0x5F) + 1, code.len() as int);
        lemma_jumpdests_range(code, next);
        assert forall|p: int| #[trigger] jumpdests_from(code, i).contains(p)
            implies i <= p < code.len() by {
            assert(jumpdests_from(code, next).contains(p));
        }
    } else {
        lemma_jumpdests_range(code, i + 1);
        assert forall|p: int| #[trigger] jumpdests_from(code, i).contains(p)
            implies i <= p < code.len() by {
            assert(jumpdests_from(code, i + 1).contains(p));
        }
    }
}

/// One pass over the code, collecting valid JUMPDEST positions and
/// skipping PUSH immediates.
pub fn get_valid_jump_destinations(code: &bytes::Bytes) -> (r: Vec<usize>)
    ensures
        forall|p: usize| #[trigger] r@.contains(p) <==> spec_valid_jumpdests(bytes_view(*code))
            .contains(p as int),
{
    let n = bytes_len(code);
    let ghost v = bytes_view(*code);
    let ghost s_all = spec_valid_jumpdests(v);
    let mut out: Vec<usize> = Vec::new();
    let mut i: usize = 0;
    proof {
        lemma_jumpdests_range(v, 0);
    }
    while i < n
        invariant
            i <= n,
            n == v.len(),
            v == bytes_view(*code),
            s_all == spec_valid_jumpdests(v),
            forall|t: int| 0 <= t < out@.len() ==> #[trigger] out@[t] < i,
            forall|p: usize| #[trigger] out@.contains(p) ==> s_all.contains(p as int),
            forall|p: int| #[trigger] jumpdests_from(v, i as int).contains(p)
                ==> s_all.contains(p),
            forall|p: int| #[trigger] s_all.contains(p)
                ==> jumpdests_from(v, i as int).contains(p) || out@.contains(p as usize),
        decreases n - i,
    {
        let ghost from_here = jumpdests_from(v, i as int);
        let op = bytes_get(code, i);
        if op == JUMPDEST_OPCODE {
            let ghost prev = out@;
            out.push(i);
            proof {
                assert(from_here == jumpdests_from(v, i + 1).insert(i as int));
                assert(from_here.contains(i as int));
                assert(out@.drop_last() =~= prev);
                assert forall|p: usize| #[trigger] out@.contains(p)
                    implies s_all.contains(p as int) by {
                    let t = choose|t: int| 0 <= t < out@.len() && out@[t] == p;
                    if t < prev.len() {
                        assert(prev[t] == p);
                        assert(prev.contains(p));
                    } else {
                        assert(p == i);
                    }
                }
                assert forall|p: int| #[trigger] s_all.contains(p)
                    implies jumpdests_from(v, i + 1).contains(p) || out@.contains(p as usize) by {
                    if from_here.contains(p) {
                        if p == i {
                            assert(out@[out@.len() - 1] == i);
                            assert(out@.contains(i));
                        }
                    } else {
                        assert(prev.contains(p as usize));
                        let t = choose|t: int| 0 <= t < prev.len() && prev[t] == p as usize;
                        assert(out@[t] == p as usize);
                        assert(out@.contains(p as usize));
                    }
                }
                assert(forall|t: int| 0 <= t < out@.len() ==> #[trigger] out@[t] < i + 1);
                assert forall|p: int| #[trigger] jumpdests_from(v, i + 1).contains(p)
                    implies s_all.contains(p) by {
                    assert(from_here.contains(p));
                }
            }
            i += 1;
        } else if PUSH1_OPCODE <= op && op <= PUSH32_OPCODE {
            let delta = (op - 0x5F) as usize + 1;
            let next = if delta > n - i { n } else { i + delta };
            proof {
                assert(from_here == jumpdests_from(v, next as int));
            }
            i = next;
        } else {
            proof {
                assert(from_here == jumpdests_from(v, i + 1));
            }
            i += 1;
        }
    }
    proof {
        assert(jumpdests_from(v, n as int) =~= Set::<int>::empty());
        lemma_jumpdests_range(v, 0);
        assert forall|p: usize| #[trigger] out@.contains(p) <==> s_all.contains(p as int) by {
            if s_all.contains(p as int) {
                assert(out@.contains((p as int) as usize));
            }
        }
    }
    out
}

/// Per-invocation execution context.
pub struct CallFrame {
    pub msg_sender: Address,
    pub to: Address,
    pub code_address: Address,
    pub bytecode: bytes::Bytes,
    pub msg_value: U256,
    pub calldata: bytes::Bytes,
    pub stack: Stack,
    pub memory: Memory,
    pub pc: usize,
    pub gas_limit: u64,
    pub gas_used: u64,
    pub sub_return_data: bytes::Bytes,
    pub output: bytes::Bytes,
    pub is_static: bool,
    pub depth: u16,
    pub valid_jump_destinations: Vec<usize>,
    pub logs: Vec<Log>,
    pub is_create: bool,
}

impl CallFrame {
    /// Gas within limit, stack within depth, memory in whole words,
    /// call depth within 1024, and the jump table true to the code.
    pub open spec fn wf(&self) -> bool {
        &&& self.gas_used <= self.gas_limit
        &&& self.stack.wf()
        &&& self.memory.wf()
        &&& self.depth <= 1024
        &&& forall|p: usize| #[trigger] self.valid_jump_destinations@.contains(p)
            <==> spec_valid_jumpdests(self.code_view()).contains(p as int)
    }

    pub open spec fn code_view(&self) -> Seq<u8> {
        bytes_view(self.bytecode)
    }

    pub open spec fn calldata_view(&self) -> Seq<u8> {
        bytes_view(self.calldata)
    }

    pub open spec fn output_view(&self) -> Seq<u8> {
        bytes_view(self.output)
    }

    pub open spec fn sub_return_data_view(&self) -> Seq<u8> {
        bytes_view(self.sub_return_data)
    }

    pub open spec fn spec_gas_remaining(&self) -> int {
        self.gas_limit - self.gas_used
    }

    pub fn new(
        msg_sender: Address,
        to: Address,
        code_address: Address,
        bytecode: bytes::Bytes,
        msg_value: U256,
        calldata: bytes::Bytes,
        is_static: bool,
        gas_limit: u64,
        gas_used: u64,
        depth: u16,
        is_create: bool,
    ) -> (r: CallFrame)
        requires
            gas_used <= gas_limit,
            depth <= 1024,
        ensures
            r.wf(),
            r.msg_sender == msg_sender,
            r.to == to,
            r.code_address == code_address,
            r.bytecode == bytecode,
            r.msg_value == msg_value,
            r.calldata == calldata,
            r.is_static == is_static,
            r.gas_limit == gas_limit,
            r.gas_used == gas_used,
            r.depth == depth,
            r.is_create == is_create,
            r.pc == 0,
            r.stack@ == Seq::<U256>::empty(),
            r.memory@ == Seq::<u8>::empty(),
            r.output_view() == Seq::<u8>::empty(),
            r.sub_return_data_view() == Seq::<u8>::empty(),
            r.logs@ == Seq::<Log>::empty(),
    {
        let valid_jump_destinations = get_valid_jump_destinations(&bytecode);
        CallFrame {
            msg_sender,
            to,
            code_address,
            bytecode,
            msg_value,
            calldata,
            stack: Stack::new(),
            memory: Memory::new(),
            pc: 0,
            gas_limit,
            gas_used,
            sub_return_data: crate::bytebuf::bytes_new(),
            output: crate::bytebuf::bytes_new(),
            is_static,
            depth,
            valid_jump_destinations,
            logs: Vec::new(),
            is_create,
        }
    }

    /// The opcode at `pc`; past the end of the code it reads as STOP.
    pub fn next_opcode(&self) -> (r: u8)
        ensures
            self.pc < self.code_view().len() ==> r == self.code_view()[self.pc as int],
            self.pc >= self.code_view().len() ==> r == 0,
    {
        if self.pc < bytes_len(&self.bytecode) {
            bytes_get(&self.bytecode, self.pc)
        } else {
            0
        }
    }

    pub fn increment_pc_by(&mut self, count: usize) -> (r: Result<(), VMError>)
        ensures
            r is Ok <==> old(self).pc + count <= usize::MAX,
            r is Ok ==> *final(self) == (CallFrame { pc: (old(self).pc + count) as usize, ..*old(self) }),
            r is Err ==> r == Err::<(), VMError>(VMError::Internal(InternalError::ArithmeticOperationOverflow))
                && *final(self) == *old(self),
    {
        match self.pc.checked_add(count) {
            Some(p) => {
                self.pc = p;
                Ok(())
            },
            None => Err(VMError::Internal(InternalError::ArithmeticOperationOverflow)),
        }
    }

    /// Charge gas: fail with `ConsumedGasOverflow` when the frame's
    /// limit would be passed, leaving the frame unchanged.
    pub fn increase_consumed_gas(&mut self, gas: u64) -> (r: Result<(), VMError>)
        ensures
            r is Ok <==> old(self).gas_used + gas <= old(self).gas_limit,
            r is Ok ==> *final(self) == (CallFrame {
                gas_used: (old(self).gas_used + gas) as u64,
                ..*old(self)
            }),
            r is Err ==> r == Err::<(), VMError>(VMError::OutOfGas(OutOfGasError::ConsumedGasOverflow))
                && *final(self) == *old(self),
            final(self).gas_used <= final(self).gas_limit || *final(self) == *old(self),
    {
        match self.gas_used.checked_add(gas) {
            Some(total) => {
                if total > self.gas_limit {
                    Err(VMError::OutOfGas(OutOfGasError::ConsumedGasOverflow))
                } else {
                    self.gas_used = total;
                    Ok(())
                }
            },
            None => Err(VMError::OutOfGas(OutOfGasError::ConsumedGasOverflow)),
        }
    }

    /// Gas still available to this frame.
    pub fn gas_remaining(&self) -> (r: u64)
        requires
            self.gas_used <= self.gas_limit,
        ensures
            r == self.gas_limit - self.gas_used,
    {
        self.gas_limit - self.gas_used
    }

    /// Whether `target` is a valid JUMPDEST position.
    pub fn is_valid_jump_addr(&self, target: usize) -> (r: bool)
        ensures
            r == self.valid_jump_destinations@.contains(target),
    {
        let n = self.valid_jump_destinations.len();
        let mut i: usize = 0;
        while i < n
            invariant
                i <= n,
                n == self.valid_jump_destinations@.len(),
                forall|t: int| 0 <= t < i ==> self.valid_jump_destinations@[t] != target,
            decreases n - i,
        {
            if self.valid_jump_destinations[i] == target {
                return true;
            }
            i += 1;
        }
        proof {
            if self.valid_jump_destinations@.contains(target) {
                let t = choose|t: int| 0 <= t < n && self.valid_jump_destinations@[t] == target;
                assert(false);
            }
        }
        false
    }
}

} // verus!
