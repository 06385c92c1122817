//! Stack, memory, storage and flow opcodes:
//! POP, PUSH, DUP, SWAP, MLOAD, MSTORE, MSTORE8, SLOAD, SSTORE, JUMP,
//! JUMPI, PC, MSIZE, GAS, JUMPDEST, TLOAD, TSTORE, MCOPY.

use vstd::prelude::*;
use crate::call_frame::CallFrame;
use crate::errors::{OpcodeResult, OutOfGasError, VMError};
use crate::fork::Fork;
use crate::gas_cost;
use crate::vm::{ctx, same_world, VM};
use crate::word::{be_nat, U256};

verus! {

/// The 32-byte word a PUSH(n) at `pc` reads: the `n` immediate bytes
/// (zero-extended past the end of the code), left-padded to 32.
pub open spec fn push_value(code: Seq<u8>, pc: int, n: int) -> Seq<u8> {
    Seq::<u8>::new(
        32,
        |i: int|
            if i < 32 - n {
                0u8
            } else {
                let j = pc + 1 + (i - (32 - n));
                if 0 <= j < code.len() {
                    code[j]
                } else {
                    0u8
                }
            },
    )
}

impl VM {
    // POP operation
    pub fn op_pop(&mut self) -> (r: Result<OpcodeResult, VMError>)
        requires
            old(self).wf(),
            old(self).has_frame(),
        ensures
            final(self).wf(),
            same_world(*old(self), *final(self)),
            final(self).call_frames@.len() == old(self).call_frames@.len(),
            final(self).call_frames@.drop_last() == old(self).call_frames@.drop_last(),
            ctx(final(self).cur()) == ctx(old(self).cur()),
            final(self).cur().gas_used >= old(self).cur().gas_used,
            r is Ok ==> final(self).cur().gas_used > old(self).cur().gas_used,
            ({
                let f = old(self).cur();
                let g = final(self).cur();
                &&& (f.gas_used + gas_cost::POP <= f.gas_limit && f.stack@.len() > 0 ==> {
                    &&& r == Ok::<OpcodeResult, VMError>(OpcodeResult::Continue { pc_increment: 1 })
                    &&& g.stack@ == f.stack@.drop_last()
                    &&& g.gas_used == f.gas_used + gas_cost::POP
                    &&& g.memory@ == f.memory@
                    &&& g.pc == f.pc
                })
                &&& (f.gas_used + gas_cost::POP > f.gas_limit ==> r == Err::<OpcodeResult, VMError>(
                    VMError::OutOfGas(OutOfGasError::ConsumedGasOverflow),
                ))
                &&& (f.gas_used + gas_cost::POP <= f.gas_limit && f.stack@.len() == 0 ==> r
                    == Err::<OpcodeResult, VMError>(VMError::StackUnderflow))
            }),
    {
        let mut frame = self.take_frame();
        proof {
            assert(old(self).call_frames@[old(self).call_frames@.len() - 1].wf());
            crate::vm::lemma_frames_wf_drop(old(self).call_frames@);
        }
        if let Err(e) = frame.increase_consumed_gas(gas_cost::POP) {
            self.put_frame(frame);
            proof {
                assert(final(self).call_frames@.drop_last() =~= old(self).call_frames@.drop_last());
            }
            return Err(e);
        }
        let result = frame.stack.pop();
        self.put_frame(frame);
        proof {
            assert(self.call_frames@.drop_last() =~= old(self).call_frames@.drop_last());
            assert(self.call_frames@.last().wf());
            crate::vm::lemma_frames_wf_push(
                old(self).call_frames@.drop_last(),
                self.call_frames@.last(),
            );
            assert(self.call_frames@ =~= old(self).call_frames@.drop_last().push(
                self.call_frames@.last(),
            ));
        }
        match result {
            Ok(_) => Ok(OpcodeResult::Continue { pc_increment: 1 }),
            Err(e) => Err(e),
        }
    }

    // JUMPDEST operation
    pub fn op_jumpdest(&mut self) -> (r: Result<OpcodeResult, VMError>)
        requires
            old(self).wf(),
            old(self).has_frame(),
        ensures
            final(self).wf(),
            same_world(*old(self), *final(self)),
            final(self).call_frames@.len() == old(self).call_frames@.len(),
            final(self).call_frames@.drop_last() == old(self).call_frames@.drop_last(),
            ctx(final(self).cur()) == ctx(old(self).cur()),
            final(self).cur().gas_used >= old(self).cur().gas_used,
            r is Ok ==> final(self).cur().gas_used > old(self).cur().gas_used,
            ({
                let f = old(self).cur();
                let g = final(self).cur();
                &&& (f.gas_used + gas_cost::JUMPDEST <= f.gas_limit ==> {
                    &&& r == Ok::<OpcodeResult, VMError>(OpcodeResult::Continue { pc_increment: 1 })
                    &&& g.stack@ == f.stack@
                    &&& g.gas_used == f.gas_used + gas_cost::JUMPDEST
                    &&& g.memory@ == f.memory@
                    &&& g.pc == f.pc
                })
                &&& (f.gas_used + gas_cost::JUMPDEST > f.gas_limit ==> r == Err::<
                    OpcodeResult,
                    VMError,
                >(VMError::OutOfGas(OutOfGasError::ConsumedGasOverflow)))
            }),
    {
        let mut frame = self.take_frame();
        proof {
            assert(old(self).call_frames@[old(self).call_frames@.len() - 1].wf());
            crate::vm::lemma_frames_wf_drop(old(self).call_frames@);
        }
        let result = frame.increase_consumed_gas(gas_cost::JUMPDEST);
        self.put_frame(frame);
        proof {
            assert(self.call_frames@.drop_last() =~= old(self).call_frames@.drop_last());
            assert(self.call_frames@.last().wf());
            crate::vm::lemma_frames_wf_push(
                old(self).call_frames@.drop_last(),
                self.call_frames@.last(),
            );
            assert(self.call_frames@ =~= old(self).call_frames@.drop_last().push(
                self.call_frames@.last(),
            ));
        }
        match result {
            Ok(()) => Ok(OpcodeResult::Continue { pc_increment: 1 }),
            Err(e) => Err(e),
        }
    }

    // PC operation
    pub fn op_pc(&mut self) -> (r: Result<OpcodeResult, VMError>)
        requires
            old(self).wf(),
            old(self).has_frame(),
        ensures
            final(self).wf(),
            same_world(*old(self), *final(self)),
            final(self).call_frames@.len() == old(self).call_frames@.len(),
            final(self).call_frames@.drop_last() == old(self).call_frames@.drop_last(),
            ctx(final(self).cur()) == ctx(old(self).cur()),
            final(self).cur().gas_used >= old(self).cur().gas_used,
            r is Ok ==> final(self).cur().gas_used > old(self).cur().gas_used,
            ({
                let f = old(self).cur();
                let g = final(self).cur();
                &&& (f.gas_used + gas_cost::PC <= f.gas_limit && f.stack@.len() < 1024 ==> {
                    &&& r == Ok::<OpcodeResult, VMError>(OpcodeResult::Continue { pc_increment: 1 })
                    &&& g.stack@.len() == f.stack@.len() + 1
                    &&& g.stack@ == f.stack@.push(g.stack@.last())
                    &&& g.stack@.last().as_nat() == f.pc
                    &&& g.gas_used == f.gas_used + gas_cost::PC
                    &&& g.memory@ == f.memory@
                    &&& g.pc == f.pc
                })
                &&& (f.gas_used + gas_cost::PC > f.gas_limit ==> r == Err::<OpcodeResult, VMError>(
                    VMError::OutOfGas(OutOfGasError::ConsumedGasOverflow),
                ))
                &&& (f.gas_used + gas_cost::PC <= f.gas_limit && f.stack@.len() >= 1024 ==> r
                    == Err::<OpcodeResult, VMError>(VMError::StackOverflow))
            }),
    {
        let mut frame = self.take_frame();
        proof {
            assert(old(self).call_frames@[old(self).call_frames@.len() - 1].wf());
            crate::vm::lemma_frames_wf_drop(old(self).call_frames@);
        }
        if let Err(e) = frame.increase_consumed_gas(gas_cost::PC) {
            self.put_frame(frame);
            proof {
                assert(final(self).call_frames@.drop_last() =~= old(self).call_frames@.drop_last());
            }
            return Err(e);
        }
        let word = U256::from_usize(frame.pc);
        let result = frame.stack.push(word);
        self.put_frame(frame);
        proof {
            assert(self.call_frames@.drop_last() =~= old(self).call_frames@.drop_last());
            assert(self.call_frames@.last().wf());
            crate::vm::lemma_frames_wf_push(
                old(self).call_frames@.drop_last(),
                self.call_frames@.last(),
            );
            assert(self.call_frames@ =~= old(self).call_frames@.drop_last().push(
                self.call_frames@.last(),
            ));
        }
        match result {
            Ok(()) => Ok(OpcodeResult::Continue { pc_increment: 1 }),
            Err(e) => Err(e),
        }
    }

    // MSIZE operation
    pub fn op_msize(&mut self) -> (r: Result<OpcodeResult, VMError>)
        requires
            old(self).wf(),
            old(self).has_frame(),
        ensures
            final(self).wf(),
            same_world(*old(self), *final(self)),
            final(self).call_frames@.len() == old(self).call_frames@.len(),
            final(self).call_frames@.drop_last() == old(self).call_frames@.drop_last(),
            ctx(final(self).cur()) == ctx(old(self).cur()),
            final(self).cur().gas_used >= old(self).cur().gas_used,
            r is Ok ==> final(self).cur().gas_used > old(self).cur().gas_used,
            ({
                let f = old(self).cur();
                let g = final(self).cur();
                &&& (f.gas_used + gas_cost::MSIZE <= f.gas_limit && f.stack@.len() < 1024 ==> {
                    &&& r == Ok::<OpcodeResult, VMError>(OpcodeResult::Continue { pc_increment: 1 })
                    &&& g.stack@ == f.stack@.push(g.stack@.last())
                    &&& g.stack@.last().as_nat() == f.memory@.len()
                    &&& g.gas_used == f.gas_used + gas_cost::MSIZE
                    &&& g.memory@ == f.memory@
                    &&& g.pc == f.pc
                })
                &&& (f.gas_used + gas_cost::MSIZE > f.gas_limit ==> r == Err::<OpcodeResult, VMError>(
                    VMError::OutOfGas(OutOfGasError::ConsumedGasOverflow),
                ))
                &&& (f.gas_used + gas_cost::MSIZE <= f.gas_limit && f.stack@.len() >= 1024 ==> r
                    == Err::<OpcodeResult, VMError>(VMError::StackOverflow))
            }),
    {
        let mut frame = self.take_frame();
        proof {
            assert(old(self).call_frames@[old(self).call_frames@.len() - 1].wf());
            crate::vm::lemma_frames_wf_drop(old(self).call_frames@);
        }
        if let Err(e) = frame.increase_consumed_gas(gas_cost::MSIZE) {
            self.put_frame(frame);
            proof {
                assert(final(self).call_frames@.drop_last() =~= old(self).call_frames@.drop_last());
            }
            return Err(e);
        }
        let word = U256::from_usize(frame.memory.len());
        let result = frame.stack.push(word);
        self.put_frame(frame);
        proof {
            assert(self.call_frames@.drop_last() =~= old(self).call_frames@.drop_last());
            assert(self.call_frames@.last().wf());
            crate::vm::lemma_frames_wf_push(
                old(self).call_frames@.drop_last(),
                self.call_frames@.last(),
            );
            assert(self.call_frames@ =~= old(self).call_frames@.drop_last().push(
                self.call_frames@.last(),
            ));
        }
        match result {
            Ok(()) => Ok(OpcodeResult::Continue { pc_increment: 1 }),
            Err(e) => Err(e),
        }
    }

    // GAS operation
    pub fn op_gas(&mut self) -> (r: Result<OpcodeResult, VMError>)
        requires
            old(self).wf(),
            old(self).has_frame(),
        ensures
            final(self).wf(),
            same_world(*old(self), *final(self)),
            final(self).call_frames@.len() == old(self).call_frames@.len(),
            final(self).call_frames@.drop_last() == old(self).call_frames@.drop_last(),
            ctx(final(self).cur()) == ctx(old(self).cur()),
            final(self).cur().gas_used >= old(self).cur().gas_used,
            r is Ok ==> final(self).cur().gas_used > old(self).cur().gas_used,
            ({
                let f = old(self).cur();
                let g = final(self).cur();
                &&& (f.gas_used + gas_cost::GAS <= f.gas_limit && f.stack@.len() < 1024 ==> {
                    &&& r == Ok::<OpcodeResult, VMError>(OpcodeResult::Continue { pc_increment: 1 })
                    &&& g.stack@ == f.stack@.push(g.stack@.last())
                    &&& g.stack@.last().as_nat() == f.gas_limit - (f.gas_used + gas_cost::GAS)
                    &&& g.gas_used == f.gas_used + gas_cost::GAS
                    &&& g.memory@ == f.memory@
                    &&& g.pc == f.pc
                })
                &&& (f.gas_used + gas_cost::GAS > f.gas_limit ==> r == Err::<OpcodeResult, VMError>(
                    VMError::OutOfGas(OutOfGasError::ConsumedGasOverflow),
                ))
                &&& (f.gas_used + gas_cost::GAS <= f.gas_limit && f.stack@.len() >= 1024 ==> r
                    == Err::<OpcodeResult, VMError>(VMError::StackOverflow))
            }),
    {
        let mut frame = self.take_frame();
        proof {
            assert(old(self).call_frames@[old(self).call_frames@.len() - 1].wf());
            crate::vm::lemma_frames_wf_drop(old(self).call_frames@);
        }
        if let Err(e) = frame.increase_consumed_gas(gas_cost::GAS) {
            self.put_frame(frame);
            proof {
                assert(final(self).call_frames@.drop_last() =~= old(self).call_frames@.drop_last());
            }
            return Err(e);
        }
        let remaining = frame.gas_remaining();
        let word = U256::from_u64(remaining);
        let result = frame.stack.push(word);
        self.put_frame(frame);
        proof {
            assert(self.call_frames@.drop_last() =~= old(self).call_frames@.drop_last());
            assert(self.call_frames@.last().wf());
            crate::vm::lemma_frames_wf_push(
                old(self).call_frames@.drop_last(),
                self.call_frames@.last(),
            );
            assert(self.call_frames@ =~= old(self).call_frames@.drop_last().push(
                self.call_frames@.last(),
            ));
        }
        match result {
            Ok(()) => Ok(OpcodeResult::Continue { pc_increment: 1 }),
            Err(e) => Err(e),
        }
    }

    /// PUSH0..PUSH32: push `n` immediate bytes as a left-padded word
    /// and step the program counter past them.
    pub fn op_push(&mut self, n: usize) -> (r: Result<OpcodeResult, VMError>)
        requires
            old(self).wf(),
            old(self).has_frame(),
            n <= 32,
        ensures
            final(self).wf(),
            same_world(*old(self), *final(self)),
            final(self).call_frames@.len() == old(self).call_frames@.len(),
            final(self).call_frames@.drop_last() == old(self).call_frames@.drop_last(),
            ctx(final(self).cur()) == ctx(old(self).cur()),
            final(self).cur().gas_used >= old(self).cur().gas_used,
            r is Ok ==> final(self).cur().gas_used > old(self).cur().gas_used,
            ({
                let f = old(self).cur();
                let g = final(self).cur();
                let cost = if n == 0 { gas_cost::PUSH0 } else { gas_cost::PUSHN };
                &&& (f.gas_used + cost <= f.gas_limit && f.stack@.len() < 1024 ==> {
                    &&& r == Ok::<OpcodeResult, VMError>(OpcodeResult::Continue {
                        pc_increment: (n + 1) as usize,
                    })
                    &&& g.stack@ == f.stack@.push(g.stack@.last())
                    &&& g.stack@.last()@ == push_value(f.code_view(), f.pc as int, n as int)
                    &&& g.gas_used == f.gas_used + cost
                    &&& g.memory@ == f.memory@
                    &&& g.pc == f.pc
                })
                &&& (f.gas_used + cost > f.gas_limit ==> r == Err::<OpcodeResult, VMError>(
                    VMError::OutOfGas(OutOfGasError::ConsumedGasOverflow),
                ))
                &&& (f.gas_used + cost <= f.gas_limit && f.stack@.len() >= 1024 ==> r == Err::<
                    OpcodeResult,
                    VMError,
                >(VMError::StackOverflow))
            }),
    {
        let mut frame = self.take_frame();
        proof {
            assert(old(self).call_frames@[old(self).call_frames@.len() - 1].wf());
            crate::vm::lemma_frames_wf_drop(old(self).call_frames@);
        }
        let cost = if n == 0 {
            gas_cost::PUSH0
        } else {
            gas_cost::PUSHN
        };
        if let Err(e) = frame.increase_consumed_gas(cost) {
            self.put_frame(frame);
            proof {
                assert(final(self).call_frames@.drop_last() =~= old(self).call_frames@.drop_last());
            }
            return Err(e);
        }
        let mut octets = [0u8; 32];
        let code_len = crate::bytebuf::bytes_len(&frame.bytecode);
        let mut t: usize = 0;
        while t < n
            invariant
                t <= n,
                n <= 32,
                code_len == frame.code_view().len(),
                frame.pc <= usize::MAX,
                forall|k: int| 0 <= k < 32 ==> octets@[k] == push_value(
                    frame.code_view(),
                    frame.pc as int,
                    n as int,
                )[k] || k >= 32 - n + t,
                forall|k: int| 0 <= k < 32 - n + t ==> octets@[k] == push_value(
                    frame.code_view(),
                    frame.pc as int,
                    n as int,
                )[k],
            decreases n - t,
        {
            let src: usize = if frame.pc <= usize::MAX - 1 - t && frame.pc + 1 + t < code_len {
                frame.pc + 1 + t
            } else {
                code_len
            };
            let b: u8 = if src < code_len {
                crate::bytebuf::bytes_get(&frame.bytecode, src)
            } else {
                0
            };
            octets[32 - n + t] = b;
            t += 1;
        }
        let word = U256 { octets };
        proof {
            assert(word@ =~= push_value(frame.code_view(), frame.pc as int, n as int));
        }
        let result = frame.stack.push(word);
        self.put_frame(frame);
        proof {
            assert(self.call_frames@.drop_last() =~= old(self).call_frames@.drop_last());
            assert(self.call_frames@.last().wf());
            crate::vm::lemma_frames_wf_push(
                old(self).call_frames@.drop_last(),
                self.call_frames@.last(),
            );
            assert(self.call_frames@ =~= old(self).call_frames@.drop_last().push(
                self.call_frames@.last(),
            ));
        }
        match result {
            Ok(()) => Ok(OpcodeResult::Continue { pc_increment: n + 1 }),
            Err(e) => Err(e),
        }
    }

    /// DUP1..DUP16: copy the word `depth` places from the top.
    pub fn op_dup(&mut self, depth: usize) -> (r: Result<OpcodeResult, VMError>)
        requires
            old(self).wf(),
            old(self).has_frame(),
            1 <= depth <= 16,
        ensures
            final(self).wf(),
            same_world(*old(self), *final(self)),
            final(self).call_frames@.len() == old(self).call_frames@.len(),
            final(self).call_frames@.drop_last() == old(self).call_frames@.drop_last(),
            ctx(final(self).cur()) == ctx(old(self).cur()),
            final(self).cur().gas_used >= old(self).cur().gas_used,
            r is Ok ==> final(self).cur().gas_used > old(self).cur().gas_used,
            ({
                let f = old(self).cur();
                let g = final(self).cur();
                &&& (f.gas_used + gas_cost::DUPN <= f.gas_limit && depth <= f.stack@.len()
                    && f.stack@.len() < 1024 ==> {
                    &&& r == Ok::<OpcodeResult, VMError>(OpcodeResult::Continue { pc_increment: 1 })
                    &&& g.stack@ == f.stack@.push(f.stack@[f.stack@.len() - depth])
                    &&& g.gas_used == f.gas_used + gas_cost::DUPN
                    &&& g.memory@ == f.memory@
                    &&& g.pc == f.pc
                })
                &&& (f.gas_used + gas_cost::DUPN > f.gas_limit ==> r == Err::<OpcodeResult, VMError>(
                    VMError::OutOfGas(OutOfGasError::ConsumedGasOverflow),
                ))
                &&& (f.gas_used + gas_cost::DUPN <= f.gas_limit && depth > f.stack@.len() ==> r
                    == Err::<OpcodeResult, VMError>(VMError::StackUnderflow))
                &&& (f.gas_used + gas_cost::DUPN <= f.gas_limit && depth <= f.stack@.len()
                    && f.stack@.len() >= 1024 ==> r == Err::<OpcodeResult, VMError>(
                    VMError::StackOverflow,
                ))
            }),
    {
        let mut frame = self.take_frame();
        proof {
            assert(old(self).call_frames@[old(self).call_frames@.len() - 1].wf());
            crate::vm::lemma_frames_wf_drop(old(self).call_frames@);
        }
        if let Err(e) = frame.increase_consumed_gas(gas_cost::DUPN) {
            self.put_frame(frame);
            proof {
                assert(final(self).call_frames@.drop_last() =~= old(self).call_frames@.drop_last());
            }
            return Err(e);
        }
        let result = match frame.stack.peek(depth - 1) {
            Ok(v) => frame.stack.push(v),
            Err(e) => Err(e),
        };
        self.put_frame(frame);
        proof {
            assert(self.call_frames@.drop_last() =~= old(self).call_frames@.drop_last());
            assert(self.call_frames@.last().wf());
            crate::vm::lemma_frames_wf_push(
                old(self).call_frames@.drop_last(),
                self.call_frames@.last(),
            );
            assert(self.call_frames@ =~= old(self).call_frames@.drop_last().push(
                self.call_frames@.last(),
            ));
        }
        match result {
            Ok(()) => Ok(OpcodeResult::Continue { pc_increment: 1 }),
            Err(e) => Err(e),
        }
    }

    /// SWAP1..SWAP16: exchange the top with the word `depth` below it.
    pub fn op_swap(&mut self, depth: usize) -> (r: Result<OpcodeResult, VMError>)
        requires
            old(self).wf(),
            old(self).has_frame(),
            1 <= depth <= 16,
        ensures
            final(self).wf(),
            same_world(*old(self), *final(self)),
            final(self).call_frames@.len() == old(self).call_frames@.len(),
            final(self).call_frames@.drop_last() == old(self).call_frames@.drop_last(),
            ctx(final(self).cur()) == ctx(old(self).cur()),
            final(self).cur().gas_used >= old(self).cur().gas_used,
            r is Ok ==> final(self).cur().gas_used > old(self).cur().gas_used,
            ({
                let f = old(self).cur();
                let g = final(self).cur();
                &&& (f.gas_used + gas_cost::SWAPN <= f.gas_limit && depth < f.stack@.len() ==> {
                    &&& r == Ok::<OpcodeResult, VMError>(OpcodeResult::Continue { pc_increment: 1 })
                    &&& g.stack@ == f.stack@.update(
                        f.stack@.len() - 1,
                        f.stack@[f.stack@.len() - 1 - depth],
                    ).update(f.stack@.len() - 1 - depth, f.stack@.last())
                    &&& g.gas_used == f.gas_used + gas_cost::SWAPN
                    &&& g.memory@ == f.memory@
                    &&& g.pc == f.pc
                })
                &&& (f.gas_used + gas_cost::SWAPN > f.gas_limit ==> r == Err::<OpcodeResult, VMError>(
                    VMError::OutOfGas(OutOfGasError::ConsumedGasOverflow),
                ))
                &&& (f.gas_used + gas_cost::SWAPN <= f.gas_limit && depth >= f.stack@.len() ==> r
                    == Err::<OpcodeResult, VMError>(VMError::StackUnderflow))
            }),
    {
        let mut frame = self.take_frame();
        proof {
            assert(old(self).call_frames@[old(self).call_frames@.len() - 1].wf());
            crate::vm::lemma_frames_wf_drop(old(self).call_frames@);
        }
        if let Err(e) = frame.increase_consumed_gas(gas_cost::SWAPN) {
            self.put_frame(frame);
            proof {
                assert(final(self).call_frames@.drop_last() =~= old(self).call_frames@.drop_last());
            }
            return Err(e);
        }
        let result = frame.stack.swap(depth);
        self.put_frame(frame);
        proof {
            assert(self.call_frames@.drop_last() =~= old(self).call_frames@.drop_last());
            assert(self.call_frames@.last().wf());
            crate::vm::lemma_frames_wf_push(
                old(self).call_frames@.drop_last(),
                self.call_frames@.last(),
            );
            assert(self.call_frames@ =~= old(self).call_frames@.drop_last().push(
                self.call_frames@.last(),
            ));
        }
        match result {
            Ok(()) => Ok(OpcodeResult::Continue { pc_increment: 1 }),
            Err(e) => Err(e),
        }
    }

    // MLOAD operation
    pub fn op_mload(&mut self) -> (r: Result<OpcodeResult, VMError>)
        requires
            old(self).wf(),
            old(self).has_frame(),
        ensures
            final(self).wf(),
            same_world(*old(self), *final(self)),
            final(self).call_frames@.len() == old(self).call_frames@.len(),
            final(self).call_frames@.drop_last() == old(self).call_frames@.drop_last(),
            ctx(final(self).cur()) == ctx(old(self).cur()),
            final(self).cur().gas_used >= old(self).cur().gas_used,
            r is Ok ==> final(self).cur().gas_used > old(self).cur().gas_used,
            ({
                let f = old(self).cur();
                let g = final(self).cur();
                let off = f.stack@.last().as_nat() as int;
                let cost = 3 + crate::gas_cost::mem_expansion(
                    crate::memory::round32(off + 32),
                    f.memory@.len() as int,
                );
                &&& (f.stack@.len() == 0 ==> r == Err::<OpcodeResult, VMError>(
                    VMError::StackUnderflow,
                ))
                &&& (f.stack@.len() > 0 && off + 63 > usize::MAX ==> r == Err::<
                    OpcodeResult,
                    VMError,
                >(VMError::VeryLargeNumber))
                &&& (f.stack@.len() > 0 && off + 63 <= usize::MAX
                    && crate::gas_cost::mem_cost(crate::memory::round32(off + 32)) <= u64::MAX
                    && f.gas_used + cost <= f.gas_limit ==> {
                    &&& r == Ok::<OpcodeResult, VMError>(OpcodeResult::Continue { pc_increment: 1 })
                    &&& g.gas_used == f.gas_used + cost
                    &&& g.memory@ == crate::memory::expand_view(
                        f.memory@,
                        crate::memory::round32(off + 32),
                    )
                    &&& g.stack@ == f.stack@.drop_last().push(g.stack@.last())
                    &&& g.stack@.last()@ == g.memory@.subrange(off as int, off + 32)
                    &&& g.pc == f.pc
                })
            }),
    {
        let mut frame = self.take_frame();
        proof {
            assert(old(self).call_frames@[old(self).call_frames@.len() - 1].wf());
            crate::vm::lemma_frames_wf_drop(old(self).call_frames@);
        }
        let result = Self::mload_work(&mut frame);
        self.put_frame(frame);
        proof {
            assert(self.call_frames@.drop_last() =~= old(self).call_frames@.drop_last());
            assert(self.call_frames@.last().wf());
            crate::vm::lemma_frames_wf_push(
                old(self).call_frames@.drop_last(),
                self.call_frames@.last(),
            );
            assert(self.call_frames@ =~= old(self).call_frames@.drop_last().push(
                self.call_frames@.last(),
            ));
        }
        result
    }

    fn mload_work(frame: &mut CallFrame) -> (r: Result<OpcodeResult, VMError>)
        requires
            old(frame).wf(),
        ensures
            final(frame).wf(),
            ctx(*final(frame)) == ctx(*old(frame)),
            final(frame).gas_used >= old(frame).gas_used,
            r is Ok ==> final(frame).gas_used > old(frame).gas_used,
            ({
                let f = *old(frame);
                let g = *final(frame);
                let off = f.stack@.last().as_nat() as int;
                let cost = 3 + crate::gas_cost::mem_expansion(
                    crate::memory::round32(off + 32),
                    f.memory@.len() as int,
                );
                &&& (f.stack@.len() == 0 ==> r == Err::<OpcodeResult, VMError>(
                    VMError::StackUnderflow,
                ))
                &&& (f.stack@.len() > 0 && off + 63 > usize::MAX ==> r == Err::<
                    OpcodeResult,
                    VMError,
                >(VMError::VeryLargeNumber))
                &&& (f.stack@.len() > 0 && off + 63 <= usize::MAX
                    && crate::gas_cost::mem_cost(crate::memory::round32(off + 32)) <= u64::MAX
                    && f.gas_used + cost <= f.gas_limit ==> {
                    &&& r == Ok::<OpcodeResult, VMError>(OpcodeResult::Continue { pc_increment: 1 })
                    &&& g.gas_used == f.gas_used + cost
                    &&& g.memory@ == crate::memory::expand_view(
                        f.memory@,
                        crate::memory::round32(off + 32),
                    )
                    &&& g.stack@ == f.stack@.drop_last().push(g.stack@.last())
                    &&& g.stack@.last()@ == g.memory@.subrange(off as int, off + 32)
                    &&& g.pc == f.pc
                })
            }),
    {
        let offset = frame.stack.pop()?;
        let new_memory_size = crate::memory::calculate_memory_size(
            &offset,
            crate::memory::WORD_SIZE_IN_BYTES_USIZE,
        )?;
        let current_size = frame.memory.len();
        let cost = crate::gas_cost::mem_access_cost(new_memory_size, current_size)?;
        frame.increase_consumed_gas(cost)?;
        let word = frame.memory.load_word(&offset)?;
        frame.stack.push(word)?;
        Ok(OpcodeResult::Continue { pc_increment: 1 })
    }

    // MSTORE operation
    pub fn op_mstore(&mut self) -> (r: Result<OpcodeResult, VMError>)
        requires
            old(self).wf(),
            old(self).has_frame(),
        ensures
            final(self).wf(),
            same_world(*old(self), *final(self)),
            final(self).call_frames@.len() == old(self).call_frames@.len(),
            final(self).call_frames@.drop_last() == old(self).call_frames@.drop_last(),
            ctx(final(self).cur()) == ctx(old(self).cur()),
            final(self).cur().gas_used >= old(self).cur().gas_used,
            r is Ok ==> final(self).cur().gas_used > old(self).cur().gas_used,
            ({
                let f = old(self).cur();
                let g = final(self).cur();
                let off = f.stack@.last().as_nat() as int;
                let value = f.stack@[f.stack@.len() - 2];
                let cost = 3 + crate::gas_cost::mem_expansion(
                    crate::memory::round32(off + 32),
                    f.memory@.len() as int,
                );
                &&& (f.stack@.len() == 0 ==> r == Err::<OpcodeResult, VMError>(
                    VMError::StackUnderflow,
                ))
                &&& (f.stack@.len() >= 2 && off + 63 <= usize::MAX
                    && crate::gas_cost::mem_cost(crate::memory::round32(off + 32)) <= u64::MAX
                    && f.gas_used + cost <= f.gas_limit ==> {
                    &&& r == Ok::<OpcodeResult, VMError>(OpcodeResult::Continue { pc_increment: 1 })
                    &&& g.gas_used == f.gas_used + cost
                    &&& g.memory@ == crate::memory::write_view(
                        crate::memory::expand_view(f.memory@, crate::memory::round32(off + 32)),
                        off as int,
                        value@,
                    )
                    &&& g.stack@ == f.stack@.drop_last().drop_last()
                    &&& g.pc == f.pc
                })
            }),
    {
        let mut frame = self.take_frame();
        proof {
            assert(old(self).call_frames@[old(self).call_frames@.len() - 1].wf());
            crate::vm::lemma_frames_wf_drop(old(self).call_frames@);
        }
        let result = Self::mstore_work(&mut frame);
        self.put_frame(frame);
        proof {
            assert(self.call_frames@.drop_last() =~= old(self).call_frames@.drop_last());
            assert(self.call_frames@.last().wf());
            crate::vm::lemma_frames_wf_push(
                old(self).call_frames@.drop_last(),
                self.call_frames@.last(),
            );
            assert(self.call_frames@ =~= old(self).call_frames@.drop_last().push(
                self.call_frames@.last(),
            ));
        }
        result
    }

    fn mstore_work(frame: &mut CallFrame) -> (r: Result<OpcodeResult, VMError>)
        requires
            old(frame).wf(),
        ensures
            final(frame).wf(),
            ctx(*final(frame)) == ctx(*old(frame)),
            final(frame).gas_used >= old(frame).gas_used,
            r is Ok ==> final(frame).gas_used > old(frame).gas_used,
            ({
                let f = *old(frame);
                let g = *final(frame);
                let off = f.stack@.last().as_nat() as int;
                let value = f.stack@[f.stack@.len() - 2];
                let cost = 3 + crate::gas_cost::mem_expansion(
                    crate::memory::round32(off + 32),
                    f.memory@.len() as int,
                );
                &&& (f.stack@.len() == 0 ==> r == Err::<OpcodeResult, VMError>(
                    VMError::StackUnderflow,
                ))
                &&& (f.stack@.len() >= 2 && off + 63 <= usize::MAX
                    && crate::gas_cost::mem_cost(crate::memory::round32(off + 32)) <= u64::MAX
                    && f.gas_used + cost <= f.gas_limit ==> {
                    &&& r == Ok::<OpcodeResult, VMError>(OpcodeResult::Continue { pc_increment: 1 })
                    &&& g.gas_used == f.gas_used + cost
                    &&& g.memory@ == crate::memory::write_view(
                        crate::memory::expand_view(f.memory@, crate::memory::round32(off + 32)),
                        off as int,
                        value@,
                    )
                    &&& g.stack@ == f.stack@.drop_last().drop_last()
                    &&& g.pc == f.pc
                })
            }),
    {
        let offset = frame.stack.pop()?;
        let new_memory_size = crate::memory::calculate_memory_size(
            &offset,
            crate::memory::WORD_SIZE_IN_BYTES_USIZE,
        )?;
        let current_size = frame.memory.len();
        let cost = crate::gas_cost::mem_access_cost(new_memory_size, current_size)?;
        frame.increase_consumed_gas(cost)?;
        let value = frame.stack.pop()?;
        let data = value.to_be_bytes();
        frame.memory.try_store_data(&offset, &data)?;
        Ok(OpcodeResult::Continue { pc_increment: 1 })
    }

    // MSTORE8 operation
    pub fn op_mstore8(&mut self) -> (r: Result<OpcodeResult, VMError>)
        requires
            old(self).wf(),
            old(self).has_frame(),
        ensures
            final(self).wf(),
            same_world(*old(self), *final(self)),
            final(self).call_frames@.len() == old(self).call_frames@.len(),
            final(self).call_frames@.drop_last() == old(self).call_frames@.drop_last(),
            ctx(final(self).cur()) == ctx(old(self).cur()),
            final(self).cur().gas_used >= old(self).cur().gas_used,
            r is Ok ==> final(self).cur().gas_used > old(self).cur().gas_used,
            ({
                let f = old(self).cur();
                let g = final(self).cur();
                let off = f.stack@.last().as_nat() as int;
                let value = f.stack@[f.stack@.len() - 2];
                let cost = 3 + crate::gas_cost::mem_expansion(
                    crate::memory::round32(off + 1),
                    f.memory@.len() as int,
                );
                &&& (f.stack@.len() == 0 ==> r == Err::<OpcodeResult, VMError>(
                    VMError::StackUnderflow,
                ))
                &&& (f.stack@.len() >= 2 && off + 32 <= usize::MAX
                    && crate::gas_cost::mem_cost(crate::memory::round32(off + 1)) <= u64::MAX
                    && f.gas_used + cost <= f.gas_limit ==> {
                    &&& r == Ok::<OpcodeResult, VMError>(OpcodeResult::Continue { pc_increment: 1 })
                    &&& g.gas_used == f.gas_used + cost
                    &&& g.memory@ == crate::memory::write_view(
                        crate::memory::expand_view(f.memory@, crate::memory::round32(off + 1)),
                        off as int,
                        seq![value@[31]],
                    )
                    &&& g.stack@ == f.stack@.drop_last().drop_last()
                    &&& g.pc == f.pc
                })
            }),
    {
        let mut frame = self.take_frame();
        proof {
            assert(old(self).call_frames@[old(self).call_frames@.len() - 1].wf());
            crate::vm::lemma_frames_wf_drop(old(self).call_frames@);
        }
        let result = Self::mstore8_work(&mut frame);
        self.put_frame(frame);
        proof {
            assert(self.call_frames@.drop_last() =~= old(self).call_frames@.drop_last());
            assert(self.call_frames@.last().wf());
            crate::vm::lemma_frames_wf_push(
                old(self).call_frames@.drop_last(),
                self.call_frames@.last(),
            );
            assert(self.call_frames@ =~= old(self).call_frames@.drop_last().push(
                self.call_frames@.last(),
            ));
        }
        result
    }

    fn mstore8_work(frame: &mut CallFrame) -> (r: Result<OpcodeResult, VMError>)
        requires
            old(frame).wf(),
        ensures
            final(frame).wf(),
            ctx(*final(frame)) == ctx(*old(frame)),
            final(frame).gas_used >= old(frame).gas_used,
            r is Ok ==> final(frame).gas_used > old(frame).gas_used,
            ({
                let f = *old(frame);
                let g = *final(frame);
                let off = f.stack@.last().as_nat() as int;
                let value = f.stack@[f.stack@.len() - 2];
                let cost = 3 + crate::gas_cost::mem_expansion(
                    crate::memory::round32(off + 1),
                    f.memory@.len() as int,
                );
                &&& (f.stack@.len() == 0 ==> r == Err::<OpcodeResult, VMError>(
                    VMError::StackUnderflow,
                ))
                &&& (f.stack@.len() >= 2 && off + 32 <= usize::MAX
                    && crate::gas_cost::mem_cost(crate::memory::round32(off + 1)) <= u64::MAX
                    && f.gas_used + cost <= f.gas_limit ==> {
                    &&& r == Ok::<OpcodeResult, VMError>(OpcodeResult::Continue { pc_increment: 1 })
                    &&& g.gas_used == f.gas_used + cost
                    &&& g.memory@ == crate::memory::write_view(
                        crate::memory::expand_view(f.memory@, crate::memory::round32(off + 1)),
                        off as int,
                        seq![value@[31]],
                    )
                    &&& g.stack@ == f.stack@.drop_last().drop_last()
                    &&& g.pc == f.pc
                })
            }),
    {
        let offset = frame.stack.pop()?;
        let new_memory_size = crate::memory::calculate_memory_size(&offset, 1)?;
        let current_size = frame.memory.len();
        let cost = crate::gas_cost::mem_access_cost(new_memory_size, current_size)?;
        frame.increase_consumed_gas(cost)?;
        let value = frame.stack.pop()?;
        let mut data: Vec<u8> = Vec::new();
        data.push(value.octets[31]);
        proof {
            assert(data@ =~= seq![value@[31]]);
        }
        frame.memory.try_store_data(&offset, &data)?;
        Ok(OpcodeResult::Continue { pc_increment: 1 })
    }

    // MCOPY operation
    pub fn op_mcopy(&mut self) -> (r: Result<OpcodeResult, VMError>)
        requires
            old(self).wf(),
            old(self).has_frame(),
        ensures
            final(self).wf(),
            same_world(*old(self), *final(self)),
            final(self).call_frames@.len() == old(self).call_frames@.len(),
            final(self).call_frames@.drop_last() == old(self).call_frames@.drop_last(),
            ctx(final(self).cur()) == ctx(old(self).cur()),
            final(self).cur().gas_used >= old(self).cur().gas_used,
            r is Ok ==> final(self).cur().gas_used > old(self).cur().gas_used,
            crate::fork::fork_num(old(self).env.config.fork) < crate::fork::fork_num(
                Fork::Cancun,
            ) ==> r == Err::<OpcodeResult, VMError>(VMError::InvalidOpcode),
            ({
                let f = old(self).cur();
                let g = final(self).cur();
                let dest = f.stack@.last().as_nat() as int;
                let src = f.stack@[f.stack@.len() - 2].as_nat() as int;
                let size = f.stack@[f.stack@.len() - 3].as_nat() as int;
                let grown_to = vstd::math::max(
                    crate::memory::round32(dest + size),
                    crate::memory::round32(src + size),
                );
                &&& (crate::fork::fork_num(old(self).env.config.fork) >= crate::fork::fork_num(
                    Fork::Cancun,
                ) && f.stack@.len() < 3 ==> r == Err::<OpcodeResult, VMError>(
                    VMError::StackUnderflow,
                ))
                &&& (crate::fork::fork_num(old(self).env.config.fork) >= crate::fork::fork_num(
                    Fork::Cancun,
                ) && f.stack@.len() >= 3 && size <= usize::MAX
                    && (size == 0 || (dest + size + 31 <= usize::MAX && src + size + 31
                        <= usize::MAX))
                    && crate::gas_cost::mem_cost(if size == 0 { 0int } else { grown_to })
                        <= u64::MAX
                    && f.gas_used + 3 + 3 * crate::gas_cost::words32(size)
                        + crate::gas_cost::mem_expansion(
                        if size == 0 { 0int } else { grown_to },
                        f.memory@.len() as int,
                    ) <= f.gas_limit ==> r == Ok::<OpcodeResult, VMError>(
                    OpcodeResult::Continue { pc_increment: 1 },
                ))
                &&& (r matches Ok(res) ==> res == OpcodeResult::Continue { pc_increment: 1 })
                &&& (r is Ok ==> {
                    &&& f.stack@.len() >= 3
                    &&& g.stack@ == f.stack@.drop_last().drop_last().drop_last()
                    &&& g.gas_used == f.gas_used + 3 + 3 * crate::gas_cost::words32(size)
                        + crate::gas_cost::mem_expansion(
                        if size == 0 { 0int } else { grown_to },
                        f.memory@.len() as int,
                    )
                    &&& (size > 0 ==> g.memory@ == ({
                        let grown = crate::memory::expand_view(f.memory@, grown_to);
                        crate::memory::write_view(
                            grown,
                            dest,
                            grown.subrange(src, src + size),
                        )
                    }))
                    &&& (size == 0 ==> g.memory@ == f.memory@)
                    &&& g.pc == f.pc
                })
            }),
    {
        if self.env.config.fork.before(Fork::Cancun) {
            return Err(VMError::InvalidOpcode);
        }
        let mut frame = self.take_frame();
        proof {
            assert(old(self).call_frames@[old(self).call_frames@.len() - 1].wf());
            crate::vm::lemma_frames_wf_drop(old(self).call_frames@);
        }
        let result = Self::mcopy_work(&mut frame);
        self.put_frame(frame);
        proof {
            assert(self.call_frames@.drop_last() =~= old(self).call_frames@.drop_last());
            assert(self.call_frames@.last().wf());
            crate::vm::lemma_frames_wf_push(
                old(self).call_frames@.drop_last(),
                self.call_frames@.last(),
            );
            assert(self.call_frames@ =~= old(self).call_frames@.drop_last().push(
                self.call_frames@.last(),
            ));
        }
        result
    }

    fn mcopy_work(frame: &mut CallFrame) -> (r: Result<OpcodeResult, VMError>)
        requires
            old(frame).wf(),
        ensures
            final(frame).wf(),
            ctx(*final(frame)) == ctx(*old(frame)),
            final(frame).gas_used >= old(frame).gas_used,
            r is Ok ==> final(frame).gas_used > old(frame).gas_used,
            ({
                let f = *old(frame);
                let g = *final(frame);
                let dest = f.stack@.last().as_nat() as int;
                let src = f.stack@[f.stack@.len() - 2].as_nat() as int;
                let size = f.stack@[f.stack@.len() - 3].as_nat() as int;
                let grown_to = vstd::math::max(
                    crate::memory::round32(dest + size),
                    crate::memory::round32(src + size),
                );
                &&& (f.stack@.len() < 3 ==> r == Err::<OpcodeResult, VMError>(
                    VMError::StackUnderflow,
                ))
                &&& (f.stack@.len() >= 3 && size <= usize::MAX
                    && (size == 0 || (dest + size + 31 <= usize::MAX && src + size + 31
                        <= usize::MAX))
                    && crate::gas_cost::mem_cost(if size == 0 { 0int } else { grown_to })
                        <= u64::MAX
                    && f.gas_used + 3 + 3 * crate::gas_cost::words32(size)
                        + crate::gas_cost::mem_expansion(
                        if size == 0 { 0int } else { grown_to },
                        f.memory@.len() as int,
                    ) <= f.gas_limit ==> r == Ok::<OpcodeResult, VMError>(
                    OpcodeResult::Continue { pc_increment: 1 },
                ))
                &&& (r matches Ok(res) ==> res == OpcodeResult::Continue { pc_increment: 1 })
                &&& (r is Ok ==> {
                    &&& f.stack@.len() >= 3
                    &&& g.stack@ == f.stack@.drop_last().drop_last().drop_last()
                    &&& g.gas_used == f.gas_used + 3 + 3 * crate::gas_cost::words32(size)
                        + crate::gas_cost::mem_expansion(
                        if size == 0 { 0int } else { grown_to },
                        f.memory@.len() as int,
                    )
                    &&& (size > 0 ==> g.memory@ == ({
                        let grown = crate::memory::expand_view(f.memory@, grown_to);
                        crate::memory::write_view(
                            grown,
                            dest,
                            grown.subrange(src, src + size),
                        )
                    }))
                    &&& (size == 0 ==> g.memory@ == f.memory@)
                    &&& g.pc == f.pc
                })
            }),
    {
        let dest_offset = frame.stack.pop()?;
        let src_offset = frame.stack.pop()?;
        let size = match frame.stack.pop()?.to_usize() {
            Some(s) => s,
            None => {
                return Err(VMError::VeryLargeNumber);
            },
        };
        let new_memory_size_for_dest = crate::memory::calculate_memory_size(&dest_offset, size)?;
        let new_memory_size_for_src = crate::memory::calculate_memory_size(&src_offset, size)?;
        let new_size = if new_memory_size_for_dest > new_memory_size_for_src {
            new_memory_size_for_dest
        } else {
            new_memory_size_for_src
        };
        let current_size = frame.memory.len();
        let cost = crate::gas_cost::copy_opcode_cost(3, new_size, current_size, size)?;
        frame.increase_consumed_gas(cost)?;
        if size == 0 {
            return Ok(OpcodeResult::Continue { pc_increment: 1 });
        }
        frame.memory.try_copy_within(&src_offset, &dest_offset, size)?;
        Ok(OpcodeResult::Continue { pc_increment: 1 })
    }

    // TLOAD operation
    pub fn op_tload(&mut self) -> (r: Result<OpcodeResult, VMError>)
        requires
            old(self).wf(),
            old(self).has_frame(),
        ensures
            final(self).wf(),
            same_world(*old(self), *final(self)),
            final(self).call_frames@.len() == old(self).call_frames@.len(),
            final(self).call_frames@.drop_last() == old(self).call_frames@.drop_last(),
            ctx(final(self).cur()) == ctx(old(self).cur()),
            final(self).cur().gas_used >= old(self).cur().gas_used,
            r is Ok ==> final(self).cur().gas_used > old(self).cur().gas_used,
            crate::fork::fork_num(old(self).env.config.fork) < crate::fork::fork_num(
                Fork::Cancun,
            ) ==> r == Err::<OpcodeResult, VMError>(VMError::InvalidOpcode),
            ({
                let f = old(self).cur();
                let g = final(self).cur();
                let tkey = f.to@ + f.stack@.last()@;
                let stored = old(self).env.transient_storage@;
                &&& (crate::fork::fork_num(old(self).env.config.fork) >= crate::fork::fork_num(
                    Fork::Cancun,
                ) && f.stack@.len() == 0 ==> r == Err::<OpcodeResult, VMError>(
                    VMError::StackUnderflow,
                ))
                &&& (crate::fork::fork_num(old(self).env.config.fork) >= crate::fork::fork_num(
                    Fork::Cancun,
                ) && f.stack@.len() > 0 && f.gas_used + gas_cost::TLOAD <= f.gas_limit ==> {
                    &&& r == Ok::<OpcodeResult, VMError>(OpcodeResult::Continue { pc_increment: 1 })
                    &&& g.stack@ == f.stack@.drop_last().push(g.stack@.last())
                    &&& g.stack@.last().as_nat() == (if stored.contains_key(tkey) {
                        stored[tkey].as_nat()
                    } else {
                        0
                    })
                    &&& g.gas_used == f.gas_used + gas_cost::TLOAD
                    &&& g.memory@ == f.memory@
                    &&& g.pc == f.pc
                })
            }),
    {
        if self.env.config.fork.before(Fork::Cancun) {
            return Err(VMError::InvalidOpcode);
        }
        let mut frame = self.take_frame();
        proof {
            assert(old(self).call_frames@[old(self).call_frames@.len() - 1].wf());
            crate::vm::lemma_frames_wf_drop(old(self).call_frames@);
        }
        let popped = frame.stack.pop();
        let result = match popped {
            Ok(key) => {
                let tkey = crate::substate::TransientKey { addr: frame.to, key };
                let value = match self.env.transient_storage.get(&tkey) {
                    Some(v) => *v,
                    None => {
                        let z = U256::zero();
                        proof {
                            crate::word::lemma_be_nat_zero(z@);
                        }
                        z
                    },
                };
                match frame.increase_consumed_gas(gas_cost::TLOAD) {
                    Ok(()) => match frame.stack.push(value) {
                        Ok(()) => Ok(OpcodeResult::Continue { pc_increment: 1 }),
                        Err(e) => Err(e),
                    },
                    Err(e) => Err(e),
                }
            },
            Err(e) => Err(e),
        };
        self.put_frame(frame);
        proof {
            assert(self.call_frames@.drop_last() =~= old(self).call_frames@.drop_last());
            assert(self.call_frames@.last().wf());
            crate::vm::lemma_frames_wf_push(
                old(self).call_frames@.drop_last(),
                self.call_frames@.last(),
            );
            assert(self.call_frames@ =~= old(self).call_frames@.drop_last().push(
                self.call_frames@.last(),
            ));
        }
        result
    }

    // TSTORE operation
    pub fn op_tstore(&mut self) -> (r: Result<OpcodeResult, VMError>)
        requires
            old(self).wf(),
            old(self).has_frame(),
        ensures
            final(self).wf(),
            final(self).db == old(self).db,
            final(self).accrued_substate == old(self).accrued_substate,
            final(self).tx_kind == old(self).tx_kind,
            final(self).access_list == old(self).access_list,
            final(self).cache_backup == old(self).cache_backup,
            final(self).return_data == old(self).return_data,
            final(self).backups == old(self).backups,
            final(self).env.refunded_gas == old(self).env.refunded_gas,
            final(self).env.config == old(self).env.config,
            final(self).env.origin == old(self).env.origin,
            final(self).env.coinbase == old(self).env.coinbase,
            final(self).env.gas_limit == old(self).env.gas_limit,
            final(self).env.gas_price == old(self).env.gas_price,
            final(self).env.gas_price == old(self).env.gas_price,
            final(self).env.base_fee_per_gas == old(self).env.base_fee_per_gas,
            final(self).call_frames@.len() == old(self).call_frames@.len(),
            final(self).call_frames@.drop_last() == old(self).call_frames@.drop_last(),
            ctx(final(self).cur()) == ctx(old(self).cur()),
            final(self).cur().gas_used >= old(self).cur().gas_used,
            r is Ok ==> final(self).cur().gas_used > old(self).cur().gas_used,
            r is Err ==> final(self).env.transient_storage@ == old(self).env.transient_storage@,
            crate::fork::fork_num(old(self).env.config.fork) < crate::fork::fork_num(
                Fork::Cancun,
            ) ==> r == Err::<OpcodeResult, VMError>(VMError::InvalidOpcode),
            ({
                let f = old(self).cur();
                let g = final(self).cur();
                let tkey = f.to@ + f.stack@.last()@;
                let value = f.stack@[f.stack@.len() - 2];
                &&& (crate::fork::fork_num(old(self).env.config.fork) >= crate::fork::fork_num(
                    Fork::Cancun,
                ) && f.gas_used + gas_cost::TSTORE <= f.gas_limit && f.is_static ==> r == Err::<
                    OpcodeResult,
                    VMError,
                >(VMError::OpcodeNotAllowedInStaticContext))
                &&& (crate::fork::fork_num(old(self).env.config.fork) >= crate::fork::fork_num(
                    Fork::Cancun,
                ) && f.gas_used + gas_cost::TSTORE <= f.gas_limit && !f.is_static
                    && f.stack@.len() >= 2 ==> {
                    &&& r == Ok::<OpcodeResult, VMError>(OpcodeResult::Continue { pc_increment: 1 })
                    &&& g.stack@ == f.stack@.drop_last().drop_last()
                    &&& g.gas_used == f.gas_used + gas_cost::TSTORE
                    &&& g.memory@ == f.memory@
                    &&& g.pc == f.pc
                    &&& final(self).env.transient_storage@ == old(self).env.transient_storage@
                        .insert(tkey, value)
                })
            }),
    {
        if self.env.config.fork.before(Fork::Cancun) {
            return Err(VMError::InvalidOpcode);
        }
        let mut frame = self.take_frame();
        proof {
            assert(old(self).call_frames@[old(self).call_frames@.len() - 1].wf());
            crate::vm::lemma_frames_wf_drop(old(self).call_frames@);
        }
        let staged: Result<(U256, U256), VMError> = match frame.increase_consumed_gas(
            gas_cost::TSTORE,
        ) {
            Ok(()) => {
                if frame.is_static {
                    Err(VMError::OpcodeNotAllowedInStaticContext)
                } else {
                    match frame.stack.pop() {
                        Ok(key) => match frame.stack.pop() {
                            Ok(value) => Ok((key, value)),
                            Err(e) => Err(e),
                        },
                        Err(e) => Err(e),
                    }
                }
            },
            Err(e) => Err(e),
        };
        let to = frame.to;
        self.put_frame(frame);
        proof {
            assert(self.call_frames@.drop_last() =~= old(self).call_frames@.drop_last());
            assert(self.call_frames@.last().wf());
            crate::vm::lemma_frames_wf_push(
                old(self).call_frames@.drop_last(),
                self.call_frames@.last(),
            );
            assert(self.call_frames@ =~= old(self).call_frames@.drop_last().push(
                self.call_frames@.last(),
            ));
        }
        match staged {
            Ok((key, value)) => {
                let tkey = crate::substate::TransientKey { addr: to, key };
                self.env.transient_storage.insert(tkey, value);
                Ok(OpcodeResult::Continue { pc_increment: 1 })
            },
            Err(e) => Err(e),
        }
    }

    /// JUMP* helper: point the frame at `jump_address`, or fail with
    /// `InvalidJump` when it is no JUMPDEST, `VeryLargeNumber` when it
    /// cannot index the code.
    pub fn jump(call_frame: &mut CallFrame, jump_address: U256) -> (r: Result<(), VMError>)
        requires
            old(call_frame).wf(),
        ensures
            ctx(*final(call_frame)) == ctx(*old(call_frame)),
            final(call_frame).stack == old(call_frame).stack,
            final(call_frame).memory == old(call_frame).memory,
            final(call_frame).gas_used == old(call_frame).gas_used,
            jump_address.as_nat() > usize::MAX ==> r == Err::<(), VMError>(
                VMError::VeryLargeNumber,
            ) && *final(call_frame) == *old(call_frame),
            jump_address.as_nat() <= usize::MAX ==> {
                if crate::call_frame::spec_valid_jumpdests(old(call_frame).code_view()).contains(
                    jump_address.as_nat() as int,
                ) {
                    r is Ok && *final(call_frame) == (CallFrame {
                        pc: jump_address.as_nat() as usize,
                        ..*old(call_frame)
                    })
                } else {
                    r == Err::<(), VMError>(VMError::InvalidJump) && *final(call_frame) == *old(
                        call_frame,
                    )
                }
            },
    {
        let jump_address_usize = match jump_address.to_usize() {
            Some(a) => a,
            None => {
                return Err(VMError::VeryLargeNumber);
            },
        };
        if call_frame.is_valid_jump_addr(jump_address_usize) {
            call_frame.pc = jump_address_usize;
            Ok(())
        } else {
            Err(VMError::InvalidJump)
        }
    }

    // JUMP operation
    pub fn op_jump(&mut self) -> (r: Result<OpcodeResult, VMError>)
        requires
            old(self).wf(),
            old(self).has_frame(),
        ensures
            final(self).wf(),
            same_world(*old(self), *final(self)),
            final(self).call_frames@.len() == old(self).call_frames@.len(),
            final(self).call_frames@.drop_last() == old(self).call_frames@.drop_last(),
            ctx(final(self).cur()) == ctx(old(self).cur()),
            final(self).cur().gas_used >= old(self).cur().gas_used,
            r is Ok ==> final(self).cur().gas_used > old(self).cur().gas_used,
            ({
                let f = old(self).cur();
                let g = final(self).cur();
                &&& (f.gas_used + gas_cost::JUMP <= f.gas_limit && f.stack@.len() > 0
                    && f.stack@.last().as_nat() <= usize::MAX
                    && crate::call_frame::spec_valid_jumpdests(f.code_view()).contains(
                    f.stack@.last().as_nat() as int,
                ) ==> {
                    &&& r == Ok::<OpcodeResult, VMError>(OpcodeResult::Continue { pc_increment: 0 })
                    &&& g.stack@ == f.stack@.drop_last()
                    &&& g.gas_used == f.gas_used + gas_cost::JUMP
                    &&& g.memory@ == f.memory@
                    &&& g.pc == f.stack@.last().as_nat()
                })
                &&& (f.gas_used + gas_cost::JUMP > f.gas_limit ==> r == Err::<OpcodeResult, VMError>(
                    VMError::OutOfGas(OutOfGasError::ConsumedGasOverflow),
                ))
                &&& (f.gas_used + gas_cost::JUMP <= f.gas_limit && f.stack@.len() == 0 ==> r
                    == Err::<OpcodeResult, VMError>(VMError::StackUnderflow))
                &&& (f.gas_used + gas_cost::JUMP <= f.gas_limit && f.stack@.len() > 0
                    && f.stack@.last().as_nat() <= usize::MAX
                    && !crate::call_frame::spec_valid_jumpdests(f.code_view()).contains(
                    f.stack@.last().as_nat() as int,
                ) ==> r == Err::<OpcodeResult, VMError>(VMError::InvalidJump))
            }),
    {
        let mut frame = self.take_frame();
        proof {
            assert(old(self).call_frames@[old(self).call_frames@.len() - 1].wf());
            crate::vm::lemma_frames_wf_drop(old(self).call_frames@);
        }
        if let Err(e) = frame.increase_consumed_gas(gas_cost::JUMP) {
            self.put_frame(frame);
            proof {
                assert(final(self).call_frames@.drop_last() =~= old(self).call_frames@.drop_last());
            }
            return Err(e);
        }
        let result = match frame.stack.pop() {
            Ok(jump_address) => Self::jump(&mut frame, jump_address),
            Err(e) => Err(e),
        };
        self.put_frame(frame);
        proof {
            assert(self.call_frames@.drop_last() =~= old(self).call_frames@.drop_last());
            assert(self.call_frames@.last().wf());
            crate::vm::lemma_frames_wf_push(
                old(self).call_frames@.drop_last(),
                self.call_frames@.last(),
            );
            assert(self.call_frames@ =~= old(self).call_frames@.drop_last().push(
                self.call_frames@.last(),
            ));
        }
        match result {
            Ok(()) => Ok(OpcodeResult::Continue { pc_increment: 0 }),
            Err(e) => Err(e),
        }
    }

    // JUMPI operation
    pub fn op_jumpi(&mut self) -> (r: Result<OpcodeResult, VMError>)
        requires
            old(self).wf(),
            old(self).has_frame(),
        ensures
            final(self).wf(),
            same_world(*old(self), *final(self)),
            final(self).call_frames@.len() == old(self).call_frames@.len(),
            final(self).call_frames@.drop_last() == old(self).call_frames@.drop_last(),
            ctx(final(self).cur()) == ctx(old(self).cur()),
            final(self).cur().gas_used >= old(self).cur().gas_used,
            r is Ok ==> final(self).cur().gas_used > old(self).cur().gas_used,
            ({
                let f = old(self).cur();
                let g = final(self).cur();
                let target = f.stack@.last();
                let condition = f.stack@[f.stack@.len() - 2];
                &&& (f.stack@.len() >= 2 && f.gas_used + gas_cost::JUMPI <= f.gas_limit ==> {
                    &&& g.stack@ == f.stack@.drop_last().drop_last()
                    &&& g.gas_used == f.gas_used + gas_cost::JUMPI
                    &&& g.memory@ == f.memory@
                    &&& (condition.as_nat() == 0 ==> r == Ok::<OpcodeResult, VMError>(
                        OpcodeResult::Continue { pc_increment: 1 },
                    ) && g.pc == f.pc)
                    &&& (condition.as_nat() != 0 && target.as_nat() <= usize::MAX
                        && crate::call_frame::spec_valid_jumpdests(f.code_view()).contains(
                        target.as_nat() as int,
                    ) ==> r == Ok::<OpcodeResult, VMError>(OpcodeResult::Continue {
                        pc_increment: 0,
                    }) && g.pc == target.as_nat())
                    &&& (condition.as_nat() != 0 && target.as_nat() <= usize::MAX
                        && !crate::call_frame::spec_valid_jumpdests(f.code_view()).contains(
                        target.as_nat() as int,
                    ) ==> r == Err::<OpcodeResult, VMError>(VMError::InvalidJump))
                })
                &&& (f.stack@.len() < 2 ==> r == Err::<OpcodeResult, VMError>(
                    VMError::StackUnderflow,
                ))
            }),
    {
        let mut frame = self.take_frame();
        proof {
            assert(old(self).call_frames@[old(self).call_frames@.len() - 1].wf());
            crate::vm::lemma_frames_wf_drop(old(self).call_frames@);
        }
        let popped = match frame.stack.pop() {
            Ok(jump_address) => match frame.stack.pop() {
                Ok(condition) => Ok((jump_address, condition)),
                Err(e) => Err(e),
            },
            Err(e) => Err(e),
        };
        let result: Result<usize, VMError> = match popped {
            Ok((jump_address, condition)) => match frame.increase_consumed_gas(gas_cost::JUMPI) {
                Ok(()) => {
                    if !condition.is_zero() {
                        match Self::jump(&mut frame, jump_address) {
                            Ok(()) => Ok(0),
                            Err(e) => Err(e),
                        }
                    } else {
                        Ok(1)
                    }
                },
                Err(e) => Err(e),
            },
            Err(e) => Err(e),
        };
        self.put_frame(frame);
        proof {
            assert(self.call_frames@.drop_last() =~= old(self).call_frames@.drop_last());
            assert(self.call_frames@.last().wf());
            crate::vm::lemma_frames_wf_push(
                old(self).call_frames@.drop_last(),
                self.call_frames@.last(),
            );
            assert(self.call_frames@ =~= old(self).call_frames@.drop_last().push(
                self.call_frames@.last(),
            ));
        }
        match result {
            Ok(pc_increment) => Ok(OpcodeResult::Continue { pc_increment }),
            Err(e) => Err(e),
        }
    }
}

/// How a storage write moves the refund counter: EIP-2200/3529 net
/// metering from Constantinople and Istanbul on, the legacy clear-slot
/// refund before.
/// The one subtraction the refund bookkeeping can make: taking back an
/// earlier clearing refund when a cleared slot is written again.
pub open spec fn sstore_refund_debit(original: nat, current: nat, new: nat, fork: Fork) -> int {
    let remove_slot: int = if fork == Fork::Constantinople {
        15000
    } else if crate::fork::fork_num(fork) >= crate::fork::fork_num(Fork::Istanbul)
        && crate::fork::fork_num(fork) < crate::fork::fork_num(Fork::Berlin) {
        15000
    } else {
        4800
    };
    if (fork == Fork::Constantinople || crate::fork::fork_num(fork) >= crate::fork::fork_num(
        Fork::Istanbul,
    )) && new != current && current != original && original != 0 && current == 0 {
        remove_slot
    } else {
        0
    }
}

pub open spec fn sstore_refund_delta(original: nat, current: nat, new: nat, fork: Fork) -> int {
    let remove_slot: int = if fork == Fork::Constantinople {
        15000
    } else if crate::fork::fork_num(fork) >= crate::fork::fork_num(Fork::Istanbul)
        && crate::fork::fork_num(fork) < crate::fork::fork_num(Fork::Berlin) {
        15000
    } else {
        4800
    };
    let restore_empty: int = if fork == Fork::Constantinople {
        19800
    } else if crate::fork::fork_num(fork) >= crate::fork::fork_num(Fork::Istanbul)
        && crate::fork::fork_num(fork) < crate::fork::fork_num(Fork::Berlin) {
        19200
    } else {
        19900
    };
    let restore_slot: int = if fork == Fork::Constantinople {
        4800
    } else if crate::fork::fork_num(fork) >= crate::fork::fork_num(Fork::Istanbul)
        && crate::fork::fork_num(fork) < crate::fork::fork_num(Fork::Berlin) {
        4200
    } else {
        2800
    };
    if crate::fork::fork_num(fork) < crate::fork::fork_num(Fork::Istanbul)
        && fork != Fork::Constantinople {
        if current != 0 && new == 0 {
            15000
        } else {
            0
        }
    } else if new != current {
        if current == original {
            if original != 0 && new == 0 {
                remove_slot
            } else {
                0
            }
        } else {
            (if original != 0 {
                if current == 0 {
                    -remove_slot
                } else if new == 0 {
                    remove_slot
                } else {
                    0
                }
            } else {
                0
            }) + (if new == original {
                if original == 0 {
                    restore_empty
                } else {
                    restore_slot
                }
            } else {
                0
            })
        }
    } else {
        0
    }
}

impl VM {
    // SLOAD operation
    pub fn op_sload(&mut self) -> (r: Result<OpcodeResult, VMError>)
        requires
            old(self).wf(),
            old(self).has_frame(),
        ensures
            final(self).wf(),
            final(self).env == old(self).env,
            final(self).tx_kind == old(self).tx_kind,
            final(self).access_list == old(self).access_list,
            final(self).cache_backup == old(self).cache_backup,
            final(self).return_data == old(self).return_data,
            final(self).backups == old(self).backups,
            final(self).db.store == old(self).db.store,
            final(self).accrued_substate.touched_accounts == old(self).accrued_substate.touched_accounts,
            final(self).accrued_substate.selfdestruct_set == old(self).accrued_substate.selfdestruct_set,
            final(self).accrued_substate.created_accounts == old(self).accrued_substate.created_accounts,
            final(self).call_frames@.len() == old(self).call_frames@.len(),
            final(self).call_frames@.drop_last() == old(self).call_frames@.drop_last(),
            ctx(final(self).cur()) == ctx(old(self).cur()),
            final(self).cur().gas_used >= old(self).cur().gas_used,
            r is Ok ==> final(self).cur().gas_used > old(self).cur().gas_used,
            ({
                let f = old(self).cur();
                let g = final(self).cur();
                let key = f.stack@.last();
                let base = crate::db::read_through(
                    old(self).db.store,
                    old(self).db.model(),
                    f.to@,
                );
                let acct = base[f.to@];
                let current_nat = if acct.3.contains_key(key@) {
                    acct.3[key@].current_value.as_nat()
                } else {
                    old(self).db.store.slot_value(f.to@, key@)
                };
                let was_cold = crate::fork::fork_num(old(self).env.config.fork)
                    >= crate::fork::fork_num(Fork::Berlin) && !(crate::substate::slots_model(
                    old(self).accrued_substate.touched_storage_slots,
                ).contains_key(f.to@) && crate::substate::slots_model(
                    old(self).accrued_substate.touched_storage_slots,
                )[f.to@].contains(key@));
                let charge = crate::gas_cost::sload_cost(was_cold, old(self).env.config.fork);
                &&& (f.stack@.len() == 0 ==> r == Err::<OpcodeResult, VMError>(
                    VMError::StackUnderflow,
                ))
                &&& (f.stack@.len() > 0 && f.gas_used + charge <= f.gas_limit ==> r == Ok::<
                    OpcodeResult,
                    VMError,
                >(OpcodeResult::Continue { pc_increment: 1 }))
                &&& (r matches Ok(res) ==> res == OpcodeResult::Continue { pc_increment: 1 })
                &&& (r is Ok ==> {
                    &&& f.stack@.len() > 0
                    &&& g.stack@ == f.stack@.drop_last().push(g.stack@.last())
                    &&& g.stack@.last().as_nat() == current_nat
                    &&& g.gas_used == f.gas_used + charge
                    &&& g.memory@ == f.memory@
                    &&& g.pc == f.pc
                })
            }),
    {
        let fork = self.env.config.fork;
        let mut frame = self.take_frame();
        proof {
            assert(old(self).call_frames@[old(self).call_frames@.len() - 1].wf());
            crate::vm::lemma_frames_wf_drop(old(self).call_frames@);
        }
        let popped = frame.stack.pop();
        let to = frame.to;
        self.put_frame(frame);
        proof {
            assert(self.call_frames@.drop_last() =~= old(self).call_frames@.drop_last());
            assert(self.call_frames@.last().wf());
            crate::vm::lemma_frames_wf_push(
                old(self).call_frames@.drop_last(),
                self.call_frames@.last(),
            );
            assert(self.call_frames@ =~= old(self).call_frames@.drop_last().push(
                self.call_frames@.last(),
            ));
        }
        let storage_slot_key = match popped {
            Ok(k) => k,
            Err(e) => {
                return Err(e);
            },
        };
        let (storage_slot, storage_slot_was_cold) = self.access_storage_slot(
            to,
            storage_slot_key,
        )?;
        let cost = crate::gas_cost::sload(storage_slot_was_cold, fork)?;
        let ghost mid = *self;
        let mut frame = self.take_frame();
        proof {
            assert(mid.call_frames@[mid.call_frames@.len() - 1].wf());
            crate::vm::lemma_frames_wf_drop(mid.call_frames@);
        }
        let result = match frame.increase_consumed_gas(cost) {
            Ok(()) => match frame.stack.push(storage_slot.current_value) {
                Ok(()) => Ok(OpcodeResult::Continue { pc_increment: 1 }),
                Err(e) => Err(e),
            },
            Err(e) => Err(e),
        };
        self.put_frame(frame);
        proof {
            assert(self.call_frames@.drop_last() =~= old(self).call_frames@.drop_last());
            assert(self.call_frames@.last().wf());
            crate::vm::lemma_frames_wf_push(
                old(self).call_frames@.drop_last(),
                self.call_frames@.last(),
            );
            assert(self.call_frames@ =~= old(self).call_frames@.drop_last().push(
                self.call_frames@.last(),
            ));
        }
        result
    }

    // SSTORE operation
    pub fn op_sstore(&mut self) -> (r: Result<OpcodeResult, VMError>)
        requires
            old(self).wf(),
            old(self).has_frame(),
        ensures
            final(self).wf(),
            final(self).tx_kind == old(self).tx_kind,
            final(self).access_list == old(self).access_list,
            final(self).cache_backup == old(self).cache_backup,
            final(self).return_data == old(self).return_data,
            final(self).backups == old(self).backups,
            final(self).db.store == old(self).db.store,
            final(self).env.transient_storage == old(self).env.transient_storage,
            final(self).env.config == old(self).env.config,
            final(self).env.origin == old(self).env.origin,
            final(self).env.coinbase == old(self).env.coinbase,
            final(self).env.gas_limit == old(self).env.gas_limit,
            final(self).env.gas_price == old(self).env.gas_price,
            final(self).env.gas_price == old(self).env.gas_price,
            final(self).env.base_fee_per_gas == old(self).env.base_fee_per_gas,
            final(self).accrued_substate.touched_accounts == old(self).accrued_substate.touched_accounts,
            final(self).accrued_substate.selfdestruct_set == old(self).accrued_substate.selfdestruct_set,
            final(self).accrued_substate.created_accounts == old(self).accrued_substate.created_accounts,
            final(self).call_frames@.len() == old(self).call_frames@.len(),
            final(self).call_frames@.drop_last() == old(self).call_frames@.drop_last(),
            ctx(final(self).cur()) == ctx(old(self).cur()),
            final(self).cur().gas_used >= old(self).cur().gas_used,
            r is Ok ==> final(self).cur().gas_used > old(self).cur().gas_used,
            old(self).cur().is_static ==> r == Err::<OpcodeResult, VMError>(
                VMError::OpcodeNotAllowedInStaticContext,
            ) && *final(self) == *old(self),
            !old(self).cur().is_static && old(self).cur().stack@.len() < 2 ==> r == Err::<
                OpcodeResult,
                VMError,
            >(VMError::StackUnderflow),
            ({
                let f = old(self).cur();
                let g = final(self).cur();
                let key = f.stack@.last();
                let new_value = f.stack@[f.stack@.len() - 2];
                let fork = old(self).env.config.fork;
                let base = crate::db::read_through(
                    old(self).db.store,
                    old(self).db.model(),
                    f.to@,
                );
                let acct = base[f.to@];
                let original_nat = if acct.3.contains_key(key@) {
                    acct.3[key@].original_value.as_nat()
                } else {
                    old(self).db.store.slot_value(f.to@, key@)
                };
                let current_nat = if acct.3.contains_key(key@) {
                    acct.3[key@].current_value.as_nat()
                } else {
                    old(self).db.store.slot_value(f.to@, key@)
                };
                let delta = sstore_refund_delta(original_nat, current_nat, new_value.as_nat(), fork);
                let debit = sstore_refund_debit(original_nat, current_nat, new_value.as_nat(), fork);
                let was_cold = crate::fork::fork_num(fork) >= crate::fork::fork_num(Fork::Berlin)
                    && !(crate::substate::slots_model(
                    old(self).accrued_substate.touched_storage_slots,
                ).contains_key(f.to@) && crate::substate::slots_model(
                    old(self).accrued_substate.touched_storage_slots,
                )[f.to@].contains(key@));
                let charge = crate::gas_cost::sstore_cost(
                    original_nat,
                    current_nat,
                    new_value.as_nat(),
                    was_cold,
                    fork,
                );
                &&& (!f.is_static && f.stack@.len() >= 2 && f.gas_limit - f.gas_used
                    <= crate::gas_cost::SSTORE_STIPEND ==> (r == Err::<OpcodeResult, VMError>(
                    VMError::OutOfGas(crate::errors::OutOfGasError::MaxGasLimitExceeded),
                ) && final(self).db.model() == old(self).db.model()
                    && final(self).env.refunded_gas == old(self).env.refunded_gas
                    && final(self).accrued_substate.touched_storage_slots == old(
                    self,
                ).accrued_substate.touched_storage_slots))
                &&& (!f.is_static && f.stack@.len() >= 2 && f.gas_limit - f.gas_used
                    > crate::gas_cost::SSTORE_STIPEND
                    && old(self).env.refunded_gas >= debit
                    && old(self).env.refunded_gas + delta <= u64::MAX
                    && f.gas_used + charge <= f.gas_limit ==> r == Ok::<OpcodeResult, VMError>(
                    OpcodeResult::Continue { pc_increment: 1 },
                ))
                &&& (r matches Ok(res) ==> res == OpcodeResult::Continue { pc_increment: 1 })
                &&& (r is Ok ==> {
                    &&& !f.is_static
                    &&& f.stack@.len() >= 2
                    &&& g.stack@ == f.stack@.drop_last().drop_last()
                    &&& g.memory@ == f.memory@
                    &&& g.pc == f.pc
                    &&& g.gas_used == f.gas_used + charge
                    &&& (crate::fork::fork_num(fork) >= crate::fork::fork_num(Fork::Berlin)
                        ==> crate::substate::slots_model(
                        final(self).accrued_substate.touched_storage_slots,
                    ).contains_key(f.to@) && crate::substate::slots_model(
                        final(self).accrued_substate.touched_storage_slots,
                    )[f.to@].contains(key@))
                    &&& (crate::fork::fork_num(fork) < crate::fork::fork_num(Fork::Berlin)
                        ==> final(self).accrued_substate.touched_storage_slots == old(
                        self,
                    ).accrued_substate.touched_storage_slots)
                    &&& final(self).env.refunded_gas == old(self).env.refunded_gas + delta
                    &&& 0 <= old(self).env.refunded_gas + delta <= u64::MAX
                    &&& (exists|slot: crate::account::StorageSlot| {
                        &&& slot.current_value == new_value
                        &&& slot.original_value.as_nat() == original_nat
                        &&& final(self).db.model() == base.insert(
                            f.to@,
                            (acct.0, acct.1, acct.2, acct.3.insert(key@, slot)),
                        )
                    })
                })
            }),
    {
        if self.current_call_frame()?.is_static {
            return Err(VMError::OpcodeNotAllowedInStaticContext);
        }
        let mut frame = self.take_frame();
        proof {
            assert(old(self).call_frames@[old(self).call_frames@.len() - 1].wf());
            crate::vm::lemma_frames_wf_drop(old(self).call_frames@);
        }
        let popped = match frame.stack.pop() {
            Ok(k) => match frame.stack.pop() {
                Ok(v) => Ok((k, v)),
                Err(e) => Err(e),
            },
            Err(e) => Err(e),
        };
        let to = frame.to;
        let gas_left = frame.gas_remaining();
        self.put_frame(frame);
        proof {
            assert(self.call_frames@.drop_last() =~= old(self).call_frames@.drop_last());
            assert(self.call_frames@.last().wf());
            crate::vm::lemma_frames_wf_push(
                old(self).call_frames@.drop_last(),
                self.call_frames@.last(),
            );
            assert(self.call_frames@ =~= old(self).call_frames@.drop_last().push(
                self.call_frames@.last(),
            ));
        }
        let (storage_slot_key, new_storage_slot_value) = match popped {
            Ok(p) => p,
            Err(e) => {
                return Err(e);
            },
        };
        if gas_left <= crate::gas_cost::SSTORE_STIPEND {
            return Err(VMError::OutOfGas(crate::errors::OutOfGasError::MaxGasLimitExceeded));
        }
        let (storage_slot, storage_slot_was_cold) = self.access_storage_slot(
            to,
            storage_slot_key,
        )?;
        let fork = self.env.config.fork;
        let mut gas_refunds = self.env.refunded_gas;
        let (remove_slot_cost, restore_empty_slot_cost, restore_slot_cost): (u64, u64, u64) =
            if fork.index() == Fork::Constantinople.index() {
            (15000, 19800, 4800)
        } else if fork.at_least(Fork::Istanbul) && fork.before(Fork::Berlin) {
            (15000, 19200, 4200)
        } else {
            (4800, 19900, 2800)
        };
        if fork.before(Fork::Istanbul) && !(fork.index() == Fork::Constantinople.index()) {
            if !storage_slot.current_value.is_zero() && new_storage_slot_value.is_zero() {
                gas_refunds = match gas_refunds.checked_add(15000) {
                    Some(g) => g,
                    None => {
                        return Err(VMError::GasRefundsOverflow);
                    },
                };
            }
        } else if !new_storage_slot_value.eq_word(&storage_slot.current_value) {
            if storage_slot.current_value.eq_word(&storage_slot.original_value) {
                if !storage_slot.original_value.is_zero() && new_storage_slot_value.is_zero() {
                    gas_refunds = match gas_refunds.checked_add(remove_slot_cost) {
                        Some(g) => g,
                        None => {
                            return Err(VMError::GasRefundsOverflow);
                        },
                    };
                }
            } else {
                if !storage_slot.original_value.is_zero() {
                    if storage_slot.current_value.is_zero() {
                        gas_refunds = match gas_refunds.checked_sub(remove_slot_cost) {
                            Some(g) => g,
                            None => {
                                return Err(VMError::GasRefundsUnderflow);
                            },
                        };
                    } else if new_storage_slot_value.is_zero() {
                        gas_refunds = match gas_refunds.checked_add(remove_slot_cost) {
                            Some(g) => g,
                            None => {
                                return Err(VMError::GasRefundsOverflow);
                            },
                        };
                    }
                }
                if new_storage_slot_value.eq_word(&storage_slot.original_value) {
                    if storage_slot.original_value.is_zero() {
                        gas_refunds = match gas_refunds.checked_add(restore_empty_slot_cost) {
                            Some(g) => g,
                            None => {
                                return Err(VMError::GasRefundsOverflow);
                            },
                        };
                    } else {
                        gas_refunds = match gas_refunds.checked_add(restore_slot_cost) {
                            Some(g) => g,
                            None => {
                                return Err(VMError::GasRefundsOverflow);
                            },
                        };
                    }
                }
            }
        }
        let ghost refund_before = self.env.refunded_gas;
        self.env.refunded_gas = gas_refunds;
        let cost = crate::gas_cost::sstore(
            &storage_slot.original_value,
            &storage_slot.current_value,
            &new_storage_slot_value,
            storage_slot_was_cold,
            fork,
        )?;
        let ghost mid = *self;
        let mut frame = self.take_frame();
        proof {
            assert(mid.call_frames@[mid.call_frames@.len() - 1].wf());
            crate::vm::lemma_frames_wf_drop(mid.call_frames@);
        }
        let charged = frame.increase_consumed_gas(cost);
        self.put_frame(frame);
        proof {
            assert(self.call_frames@.drop_last() =~= old(self).call_frames@.drop_last());
            assert(self.call_frames@.last().wf());
            crate::vm::lemma_frames_wf_push(
                old(self).call_frames@.drop_last(),
                self.call_frames@.last(),
            );
            assert(self.call_frames@ =~= old(self).call_frames@.drop_last().push(
                self.call_frames@.last(),
            ));
        }
        if let Err(e) = charged {
            return Err(e);
        }
        let ghost pre_update = *self;
        self.update_account_storage(to, storage_slot_key, new_storage_slot_value)?;
        proof {
            let f = old(self).cur();
            let key = f.stack@.last();
            let base = crate::db::read_through(old(self).db.store, old(self).db.model(), f.to@);
            let acct = base[f.to@];
            let original_nat = if acct.3.contains_key(key@) {
                acct.3[key@].original_value.as_nat()
            } else {
                old(self).db.store.slot_value(f.to@, key@)
            };
            assert(pre_update.db.model() == base.insert(
                f.to@,
                (acct.0, acct.1, acct.2, acct.3.insert(key@, storage_slot)),
            ));
            assert(pre_update.db.model().contains_key(f.to@));
            let base2 = crate::db::read_through(
                pre_update.db.store,
                pre_update.db.model(),
                f.to@,
            );
            assert(base2 == pre_update.db.model());
            let acct2 = base2[f.to@];
            assert(acct2.3 == acct.3.insert(key@, storage_slot));
            assert(acct2.3.contains_key(key@));
            assert(acct2.3[key@] == storage_slot);
            let slot_b = choose|slot: crate::account::StorageSlot| {
                &&& slot.current_value == new_storage_slot_value
                &&& slot.original_value.as_nat() == (if acct2.3.contains_key(key@) {
                    acct2.3[key@].original_value.as_nat()
                } else {
                    0
                })
                &&& self.db.model() == base2.insert(
                    f.to@,
                    (acct2.0, acct2.1, acct2.2, acct2.3.insert(key@, slot)),
                )
            };
            assert(slot_b.original_value.as_nat() == original_nat);
            assert(acct2.3.insert(key@, slot_b) =~= acct.3.insert(key@, slot_b));
            assert(acct2.0 == acct.0 && acct2.1 == acct.1 && acct2.2 == acct.2);
            assert(self.db.model() =~= base.insert(
                f.to@,
                (acct.0, acct.1, acct.2, acct.3.insert(key@, slot_b)),
            ));
            assert(slot_b.current_value == new_storage_slot_value);
        }
        Ok(OpcodeResult::Continue { pc_increment: 1 })
    }
}

} // verus!
