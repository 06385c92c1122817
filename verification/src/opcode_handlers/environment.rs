//! Environmental information opcodes:
//! ADDRESS, BALANCE, ORIGIN, CALLER, CALLVALUE, CALLDATALOAD,
//! CALLDATASIZE, CALLDATACOPY, CODESIZE, CODECOPY, GASPRICE,
//! EXTCODESIZE, EXTCODECOPY, RETURNDATASIZE, RETURNDATACOPY,
//! EXTCODEHASH.

use vstd::prelude::*;
use crate::call_frame::CallFrame;
use crate::errors::{OpcodeResult, OutOfGasError, VMError};
use crate::fork::Fork;
use crate::gas_cost;
use crate::utils::access_account;
use crate::vm::{ctx, same_world, VM};
use crate::word::{address_to_word, be_nat, word_to_address, U256};

verus! {

/// `size` bytes of `src` from `off` on, reading zero past the end.
pub open spec fn zero_padded(src: Seq<u8>, off: nat, size: nat) -> Seq<u8> {
    Seq::<u8>::new(size, |i: int| if off + i < src.len() { src[off + i] } else { 0u8 })
}

impl VM {
    /// The simple environment pushes share one body: charge a flat
    /// cost, then push one word.
    fn push_env_word(&mut self, cost: u64, word: U256) -> (r: Result<OpcodeResult, VMError>)
        requires
            old(self).wf(),
            old(self).has_frame(),
        ensures
            final(self).wf(),
            same_world(*old(self), *final(self)),
            final(self).call_frames@.len() == old(self).call_frames@.len(),
            final(self).call_frames@.drop_last() == old(self).call_frames@.drop_last(),
            ctx(final(self).cur()) == ctx(old(self).cur()),
            final(self).cur().gas_used >= old(self).cur().gas_used,
            r is Ok ==> final(self).cur().gas_used > old(self).cur().gas_used || cost == 0,
            ({
                let f = old(self).cur();
                let g = final(self).cur();
                &&& (f.gas_used + cost <= f.gas_limit && f.stack@.len() < 1024 ==> {
                    &&& r == Ok::<OpcodeResult, VMError>(OpcodeResult::Continue { pc_increment: 1 })
                    &&& g.stack@ == f.stack@.push(word)
                    &&& g.gas_used == f.gas_used + cost
                    &&& g.memory@ == f.memory@
                    &&& g.pc == f.pc
                })
                &&& (f.gas_used + cost > f.gas_limit ==> r == Err::<OpcodeResult, VMError>(
                    VMError::OutOfGas(OutOfGasError::ConsumedGasOverflow),
                ))
                &&& (f.gas_used + cost <= f.gas_limit && f.stack@.len() >= 1024 ==> r == Err::<
                    OpcodeResult,
                    VMError,
                >(VMError::StackOverflow))
            }),
    {
        let mut frame = self.take_frame();
        proof {
            assert(old(self).call_frames@[old(self).call_frames@.len() - 1].wf());
            crate::vm::lemma_frames_wf_drop(old(self).call_frames@);
        }
        let result = match frame.increase_consumed_gas(cost) {
            Ok(()) => match frame.stack.push(word) {
                Ok(()) => Ok(OpcodeResult::Continue { pc_increment: 1 }),
                Err(e) => Err(e),
            },
            Err(e) => Err(e),
        };
        self.put_frame(frame);
        proof {
            assert(self.call_frames@.drop_last() =~= old(self).call_frames@.drop_last());
            assert(self.call_frames@.last().wf());
            crate::vm::lemma_frames_wf_push(
                old(self).call_frames@.drop_last(),
                self.call_frames@.last(),
            );
            assert(self.call_frames@ =~= old(self).call_frames@.drop_last().push(
                self.call_frames@.last(),
            ));
        }
        result
    }

    // ADDRESS operation
    pub fn op_address(&mut self) -> (r: Result<OpcodeResult, VMError>)
        requires
            old(self).wf(),
            old(self).has_frame(),
        ensures
            final(self).wf(),
            same_world(*old(self), *final(self)),
            final(self).call_frames@.len() == old(self).call_frames@.len(),
            final(self).call_frames@.drop_last() == old(self).call_frames@.drop_last(),
            ctx(final(self).cur()) == ctx(old(self).cur()),
            final(self).cur().gas_used >= old(self).cur().gas_used,
            r is Ok ==> final(self).cur().gas_used > old(self).cur().gas_used,
            ({
                let f = old(self).cur();
                let g = final(self).cur();
                &&& (f.gas_used + gas_cost::ADDRESS <= f.gas_limit && f.stack@.len() < 1024 ==> {
                    &&& r == Ok::<OpcodeResult, VMError>(OpcodeResult::Continue { pc_increment: 1 })
                    &&& g.stack@ == f.stack@.push(g.stack@.last())
                    &&& g.stack@.last()@.skip(12) == f.to@
                    &&& be_nat(g.stack@.last()@) == be_nat(f.to@)
                    &&& g.gas_used == f.gas_used + gas_cost::ADDRESS
                    &&& g.memory@ == f.memory@
                })
                &&& (f.gas_used + gas_cost::ADDRESS > f.gas_limit ==> r == Err::<
                    OpcodeResult,
                    VMError,
                >(VMError::OutOfGas(OutOfGasError::ConsumedGasOverflow)))
                &&& (f.gas_used + gas_cost::ADDRESS <= f.gas_limit && f.stack@.len() >= 1024 ==> r
                    == Err::<OpcodeResult, VMError>(VMError::StackOverflow))
            }),
    {
        let to = self.current_call_frame()?.to;
        let word = address_to_word(&to);
        proof {
            crate::word::lemma_be_nat_split(word@, 12);
            crate::word::lemma_be_nat_zero(word@.take(12));
        }
        self.push_env_word(gas_cost::ADDRESS, word)
    }

    // ORIGIN operation
    pub fn op_origin(&mut self) -> (r: Result<OpcodeResult, VMError>)
        requires
            old(self).wf(),
            old(self).has_frame(),
        ensures
            final(self).wf(),
            same_world(*old(self), *final(self)),
            final(self).call_frames@.len() == old(self).call_frames@.len(),
            final(self).call_frames@.drop_last() == old(self).call_frames@.drop_last(),
            ctx(final(self).cur()) == ctx(old(self).cur()),
            final(self).cur().gas_used >= old(self).cur().gas_used,
            r is Ok ==> final(self).cur().gas_used > old(self).cur().gas_used,
            ({
                let f = old(self).cur();
                let g = final(self).cur();
                &&& (f.gas_used + gas_cost::ORIGIN <= f.gas_limit && f.stack@.len() < 1024 ==> {
                    &&& r == Ok::<OpcodeResult, VMError>(OpcodeResult::Continue { pc_increment: 1 })
                    &&& g.stack@ == f.stack@.push(g.stack@.last())
                    &&& g.stack@.last()@.skip(12) == old(self).env.origin@
                    &&& g.gas_used == f.gas_used + gas_cost::ORIGIN
                    &&& g.memory@ == f.memory@
                })
                &&& (f.gas_used + gas_cost::ORIGIN > f.gas_limit ==> r == Err::<
                    OpcodeResult,
                    VMError,
                >(VMError::OutOfGas(OutOfGasError::ConsumedGasOverflow)))
                &&& (f.gas_used + gas_cost::ORIGIN <= f.gas_limit && f.stack@.len() >= 1024 ==> r
                    == Err::<OpcodeResult, VMError>(VMError::StackOverflow))
            }),
    {
        let origin = self.env.origin;
        let word = address_to_word(&origin);
        self.push_env_word(gas_cost::ORIGIN, word)
    }

    // CALLER operation
    pub fn op_caller(&mut self) -> (r: Result<OpcodeResult, VMError>)
        requires
            old(self).wf(),
            old(self).has_frame(),
        ensures
            final(self).wf(),
            same_world(*old(self), *final(self)),
            final(self).call_frames@.len() == old(self).call_frames@.len(),
            final(self).call_frames@.drop_last() == old(self).call_frames@.drop_last(),
            ctx(final(self).cur()) == ctx(old(self).cur()),
            final(self).cur().gas_used >= old(self).cur().gas_used,
            r is Ok ==> final(self).cur().gas_used > old(self).cur().gas_used,
            ({
                let f = old(self).cur();
                let g = final(self).cur();
                &&& (f.gas_used + gas_cost::CALLER <= f.gas_limit && f.stack@.len() < 1024 ==> {
                    &&& r == Ok::<OpcodeResult, VMError>(OpcodeResult::Continue { pc_increment: 1 })
                    &&& g.stack@ == f.stack@.push(g.stack@.last())
                    &&& g.stack@.last()@.skip(12) == f.msg_sender@
                    &&& g.gas_used == f.gas_used + gas_cost::CALLER
                    &&& g.memory@ == f.memory@
                })
                &&& (f.gas_used + gas_cost::CALLER > f.gas_limit ==> r == Err::<
                    OpcodeResult,
                    VMError,
                >(VMError::OutOfGas(OutOfGasError::ConsumedGasOverflow)))
                &&& (f.gas_used + gas_cost::CALLER <= f.gas_limit && f.stack@.len() >= 1024 ==> r
                    == Err::<OpcodeResult, VMError>(VMError::StackOverflow))
            }),
    {
        let caller = self.current_call_frame()?.msg_sender;
        let word = address_to_word(&caller);
        self.push_env_word(gas_cost::CALLER, word)
    }

    // CALLVALUE operation
    pub fn op_callvalue(&mut self) -> (r: Result<OpcodeResult, VMError>)
        requires
            old(self).wf(),
            old(self).has_frame(),
        ensures
            final(self).wf(),
            same_world(*old(self), *final(self)),
            final(self).call_frames@.len() == old(self).call_frames@.len(),
            final(self).call_frames@.drop_last() == old(self).call_frames@.drop_last(),
            ctx(final(self).cur()) == ctx(old(self).cur()),
            final(self).cur().gas_used >= old(self).cur().gas_used,
            r is Ok ==> final(self).cur().gas_used > old(self).cur().gas_used,
            ({
                let f = old(self).cur();
                let g = final(self).cur();
                &&& (f.gas_used + gas_cost::CALLVALUE <= f.gas_limit && f.stack@.len() < 1024 ==> {
                    &&& r == Ok::<OpcodeResult, VMError>(OpcodeResult::Continue { pc_increment: 1 })
                    &&& g.stack@ == f.stack@.push(f.msg_value)
                    &&& g.gas_used == f.gas_used + gas_cost::CALLVALUE
                    &&& g.memory@ == f.memory@
                })
                &&& (f.gas_used + gas_cost::CALLVALUE > f.gas_limit ==> r == Err::<
                    OpcodeResult,
                    VMError,
                >(VMError::OutOfGas(OutOfGasError::ConsumedGasOverflow)))
                &&& (f.gas_used + gas_cost::CALLVALUE <= f.gas_limit && f.stack@.len() >= 1024
                    ==> r == Err::<OpcodeResult, VMError>(VMError::StackOverflow))
            }),
    {
        let callvalue = self.current_call_frame()?.msg_value;
        self.push_env_word(gas_cost::CALLVALUE, callvalue)
    }

    // GASPRICE operation
    pub fn op_gasprice(&mut self) -> (r: Result<OpcodeResult, VMError>)
        requires
            old(self).wf(),
            old(self).has_frame(),
        ensures
            final(self).wf(),
            same_world(*old(self), *final(self)),
            final(self).call_frames@.len() == old(self).call_frames@.len(),
            final(self).call_frames@.drop_last() == old(self).call_frames@.drop_last(),
            ctx(final(self).cur()) == ctx(old(self).cur()),
            final(self).cur().gas_used >= old(self).cur().gas_used,
            r is Ok ==> final(self).cur().gas_used > old(self).cur().gas_used,
            ({
                let f = old(self).cur();
                let g = final(self).cur();
                &&& (f.gas_used + gas_cost::GASPRICE <= f.gas_limit && f.stack@.len() < 1024 ==> {
                    &&& r == Ok::<OpcodeResult, VMError>(OpcodeResult::Continue { pc_increment: 1 })
                    &&& g.stack@ == f.stack@.push(old(self).env.gas_price)
                    &&& g.gas_used == f.gas_used + gas_cost::GASPRICE
                    &&& g.memory@ == f.memory@
                })
                &&& (f.gas_used + gas_cost::GASPRICE > f.gas_limit ==> r == Err::<
                    OpcodeResult,
                    VMError,
                >(VMError::OutOfGas(OutOfGasError::ConsumedGasOverflow)))
                &&& (f.gas_used + gas_cost::GASPRICE <= f.gas_limit && f.stack@.len() >= 1024 ==> r
                    == Err::<OpcodeResult, VMError>(VMError::StackOverflow))
            }),
    {
        let gas_price = self.env.gas_price;
        self.push_env_word(gas_cost::GASPRICE, gas_price)
    }

    // CALLDATASIZE operation
    pub fn op_calldatasize(&mut self) -> (r: Result<OpcodeResult, VMError>)
        requires
            old(self).wf(),
            old(self).has_frame(),
        ensures
            final(self).wf(),
            same_world(*old(self), *final(self)),
            final(self).call_frames@.len() == old(self).call_frames@.len(),
            final(self).call_frames@.drop_last() == old(self).call_frames@.drop_last(),
            ctx(final(self).cur()) == ctx(old(self).cur()),
            final(self).cur().gas_used >= old(self).cur().gas_used,
            r is Ok ==> final(self).cur().gas_used > old(self).cur().gas_used,
            ({
                let f = old(self).cur();
                let g = final(self).cur();
                &&& (f.gas_used + gas_cost::CALLDATASIZE <= f.gas_limit && f.stack@.len() < 1024
                    ==> {
                    &&& r == Ok::<OpcodeResult, VMError>(OpcodeResult::Continue { pc_increment: 1 })
                    &&& g.stack@ == f.stack@.push(g.stack@.last())
                    &&& g.stack@.last().as_nat() == f.calldata_view().len()
                    &&& g.gas_used == f.gas_used + gas_cost::CALLDATASIZE
                    &&& g.memory@ == f.memory@
                })
                &&& (f.gas_used + gas_cost::CALLDATASIZE > f.gas_limit ==> r == Err::<
                    OpcodeResult,
                    VMError,
                >(VMError::OutOfGas(OutOfGasError::ConsumedGasOverflow)))
                &&& (f.gas_used + gas_cost::CALLDATASIZE <= f.gas_limit && f.stack@.len() >= 1024
                    ==> r == Err::<OpcodeResult, VMError>(VMError::StackOverflow))
            }),
    {
        let len = crate::bytebuf::bytes_len(&self.current_call_frame()?.calldata);
        let word = U256::from_usize(len);
        self.push_env_word(gas_cost::CALLDATASIZE, word)
    }

    // CODESIZE operation
    pub fn op_codesize(&mut self) -> (r: Result<OpcodeResult, VMError>)
        requires
            old(self).wf(),
            old(self).has_frame(),
        ensures
            final(self).wf(),
            same_world(*old(self), *final(self)),
            final(self).call_frames@.len() == old(self).call_frames@.len(),
            final(self).call_frames@.drop_last() == old(self).call_frames@.drop_last(),
            ctx(final(self).cur()) == ctx(old(self).cur()),
            final(self).cur().gas_used >= old(self).cur().gas_used,
            r is Ok ==> final(self).cur().gas_used > old(self).cur().gas_used,
            ({
                let f = old(self).cur();
                let g = final(self).cur();
                &&& (f.gas_used + gas_cost::CODESIZE <= f.gas_limit && f.stack@.len() < 1024 ==> {
                    &&& r == Ok::<OpcodeResult, VMError>(OpcodeResult::Continue { pc_increment: 1 })
                    &&& g.stack@ == f.stack@.push(g.stack@.last())
                    &&& g.stack@.last().as_nat() == f.code_view().len()
                    &&& g.gas_used == f.gas_used + gas_cost::CODESIZE
                    &&& g.memory@ == f.memory@
                })
                &&& (f.gas_used + gas_cost::CODESIZE > f.gas_limit ==> r == Err::<
                    OpcodeResult,
                    VMError,
                >(VMError::OutOfGas(OutOfGasError::ConsumedGasOverflow)))
                &&& (f.gas_used + gas_cost::CODESIZE <= f.gas_limit && f.stack@.len() >= 1024 ==> r
                    == Err::<OpcodeResult, VMError>(VMError::StackOverflow))
            }),
    {
        let len = crate::bytebuf::bytes_len(&self.current_call_frame()?.bytecode);
        let word = U256::from_usize(len);
        self.push_env_word(gas_cost::CODESIZE, word)
    }

    // RETURNDATASIZE operation
    pub fn op_returndatasize(&mut self) -> (r: Result<OpcodeResult, VMError>)
        requires
            old(self).wf(),
            old(self).has_frame(),
        ensures
            final(self).wf(),
            same_world(*old(self), *final(self)),
            final(self).call_frames@.len() == old(self).call_frames@.len(),
            final(self).call_frames@.drop_last() == old(self).call_frames@.drop_last(),
            ctx(final(self).cur()) == ctx(old(self).cur()),
            final(self).cur().gas_used >= old(self).cur().gas_used,
            crate::fork::fork_num(old(self).env.config.fork) < crate::fork::fork_num(
                Fork::Byzantium,
            ) ==> r == Err::<OpcodeResult, VMError>(VMError::InvalidOpcode),
            r is Ok ==> final(self).cur().gas_used > old(self).cur().gas_used,
            ({
                let f = old(self).cur();
                let g = final(self).cur();
                &&& (crate::fork::fork_num(old(self).env.config.fork) >= crate::fork::fork_num(
                    Fork::Byzantium,
                ) && f.gas_used + gas_cost::RETURNDATASIZE <= f.gas_limit && f.stack@.len() < 1024
                    ==> {
                    &&& r == Ok::<OpcodeResult, VMError>(OpcodeResult::Continue { pc_increment: 1 })
                    &&& g.stack@ == f.stack@.push(g.stack@.last())
                    &&& g.stack@.last().as_nat() == f.sub_return_data_view().len()
                    &&& g.gas_used == f.gas_used + gas_cost::RETURNDATASIZE
                    &&& g.memory@ == f.memory@
                })
            }),
    {
        if self.env.config.fork.before(Fork::Byzantium) {
            return Err(VMError::InvalidOpcode);
        }
        let len = crate::bytebuf::bytes_len(&self.current_call_frame()?.sub_return_data);
        let word = U256::from_usize(len);
        self.push_env_word(gas_cost::RETURNDATASIZE, word)
    }

    // CALLDATALOAD operation
    pub fn op_calldataload(&mut self) -> (r: Result<OpcodeResult, VMError>)
        requires
            old(self).wf(),
            old(self).has_frame(),
        ensures
            final(self).wf(),
            same_world(*old(self), *final(self)),
            final(self).call_frames@.len() == old(self).call_frames@.len(),
            final(self).call_frames@.drop_last() == old(self).call_frames@.drop_last(),
            ctx(final(self).cur()) == ctx(old(self).cur()),
            final(self).cur().gas_used >= old(self).cur().gas_used,
            r is Ok ==> final(self).cur().gas_used > old(self).cur().gas_used,
            ({
                let f = old(self).cur();
                let g = final(self).cur();
                let off = f.stack@.last().as_nat();
                &&& (f.gas_used + gas_cost::CALLDATALOAD <= f.gas_limit && f.stack@.len() > 0 ==> {
                    &&& r == Ok::<OpcodeResult, VMError>(OpcodeResult::Continue { pc_increment: 1 })
                    &&& g.stack@ == f.stack@.drop_last().push(g.stack@.last())
                    &&& g.stack@.last()@ == zero_padded(f.calldata_view(), off, 32)
                    &&& g.gas_used == f.gas_used + gas_cost::CALLDATALOAD
                    &&& g.memory@ == f.memory@
                    &&& g.pc == f.pc
                })
                &&& (f.gas_used + gas_cost::CALLDATALOAD > f.gas_limit ==> r == Err::<
                    OpcodeResult,
                    VMError,
                >(VMError::OutOfGas(OutOfGasError::ConsumedGasOverflow)))
                &&& (f.gas_used + gas_cost::CALLDATALOAD <= f.gas_limit && f.stack@.len() == 0
                    ==> r == Err::<OpcodeResult, VMError>(VMError::StackUnderflow))
            }),
    {
        let mut frame = self.take_frame();
        proof {
            assert(old(self).call_frames@[old(self).call_frames@.len() - 1].wf());
            crate::vm::lemma_frames_wf_drop(old(self).call_frames@);
        }
        let result = Self::calldataload_work(&mut frame);
        self.put_frame(frame);
        proof {
            assert(self.call_frames@.drop_last() =~= old(self).call_frames@.drop_last());
            assert(self.call_frames@.last().wf());
            crate::vm::lemma_frames_wf_push(
                old(self).call_frames@.drop_last(),
                self.call_frames@.last(),
            );
            assert(self.call_frames@ =~= old(self).call_frames@.drop_last().push(
                self.call_frames@.last(),
            ));
        }
        result
    }

    fn calldataload_work(frame: &mut CallFrame) -> (r: Result<OpcodeResult, VMError>)
        requires
            old(frame).wf(),
        ensures
            final(frame).wf(),
            ctx(*final(frame)) == ctx(*old(frame)),
            final(frame).gas_used >= old(frame).gas_used,
            r is Ok ==> final(frame).gas_used > old(frame).gas_used,
            ({
                let f = *old(frame);
                let g = *final(frame);
                let off = f.stack@.last().as_nat();
                &&& (f.gas_used + gas_cost::CALLDATALOAD <= f.gas_limit && f.stack@.len() > 0 ==> {
                    &&& r == Ok::<OpcodeResult, VMError>(OpcodeResult::Continue { pc_increment: 1 })
                    &&& g.stack@ == f.stack@.drop_last().push(g.stack@.last())
                    &&& g.stack@.last()@ == zero_padded(f.calldata_view(), off, 32)
                    &&& g.gas_used == f.gas_used + gas_cost::CALLDATALOAD
                    &&& g.memory@ == f.memory@
                    &&& g.pc == f.pc
                })
                &&& (f.gas_used + gas_cost::CALLDATALOAD > f.gas_limit ==> r == Err::<
                    OpcodeResult,
                    VMError,
                >(VMError::OutOfGas(OutOfGasError::ConsumedGasOverflow)))
                &&& (f.gas_used + gas_cost::CALLDATALOAD <= f.gas_limit && f.stack@.len() == 0
                    ==> r == Err::<OpcodeResult, VMError>(VMError::StackUnderflow))
            }),
    {
        frame.increase_consumed_gas(gas_cost::CALLDATALOAD)?;
        let offset = frame.stack.pop()?;
        let len = crate::bytebuf::bytes_len(&frame.calldata);
        let mut octets = [0u8; 32];
        match offset.to_usize() {
            Some(off) => {
                let mut i: usize = 0;
                while i < 32
                    invariant
                        i <= 32,
                        len == crate::bytebuf::bytes_view(frame.calldata).len(),
                        off == offset.as_nat(),
                        forall|k: int| 0 <= k < i ==> octets@[k] == zero_padded(
                            crate::bytebuf::bytes_view(frame.calldata),
                            offset.as_nat(),
                            32,
                        )[k],
                    decreases 32 - i,
                {
                    let b: u8 = if off <= usize::MAX - i && off + i < len {
                        crate::bytebuf::bytes_get(&frame.calldata, off + i)
                    } else {
                        0
                    };
                    octets[i] = b;
                    i += 1;
                }
            },
            None => {
                proof {
                    assert forall|k: int| 0 <= k < 32 implies zero_padded(
                        crate::bytebuf::bytes_view(frame.calldata),
                        offset.as_nat(),
                        32,
                    )[k] == 0u8 by {
                        assert(offset.as_nat() > usize::MAX);
                        assert(crate::bytebuf::bytes_view(frame.calldata).len() <= usize::MAX);
                    }
                }
            },
        }
        let word = U256 { octets };
        proof {
            assert(word@ =~= zero_padded(
                crate::bytebuf::bytes_view(frame.calldata),
                offset.as_nat(),
                32,
            ));
        }
        frame.stack.push(word)?;
        Ok(OpcodeResult::Continue { pc_increment: 1 })
    }

    /// Shared body of the copy opcodes: pop `(dest, offset, size)`,
    /// charge `static + 3/word + expansion`, and write the zero-padded
    /// source slice into memory.
    fn copy_work(frame: &mut CallFrame, src: &bytes::Bytes) -> (r: Result<OpcodeResult, VMError>)
        requires
            old(frame).wf(),
        ensures
            final(frame).wf(),
            ctx(*final(frame)) == ctx(*old(frame)),
            final(frame).gas_used >= old(frame).gas_used,
            r is Ok ==> final(frame).gas_used > old(frame).gas_used,
            ({
                let f = *old(frame);
                let g = *final(frame);
                let dest = f.stack@.last().as_nat() as int;
                let off = f.stack@[f.stack@.len() - 2].as_nat();
                let size = f.stack@[f.stack@.len() - 3].as_nat();
                let grown_to = if size == 0 { 0int } else { crate::memory::round32(dest + size) };
                let charge = 3 + 3 * crate::gas_cost::words32(size as int)
                    + crate::gas_cost::mem_expansion(grown_to, f.memory@.len() as int);
                &&& (f.stack@.len() < 3 ==> r == Err::<OpcodeResult, VMError>(
                    VMError::StackUnderflow,
                ))
                &&& (f.stack@.len() >= 3 && size <= usize::MAX
                    && (size == 0 || dest + size + 31 <= usize::MAX)
                    && crate::gas_cost::mem_cost(grown_to) <= u64::MAX
                    && f.gas_used + charge <= f.gas_limit ==> r == Ok::<OpcodeResult, VMError>(
                    OpcodeResult::Continue { pc_increment: 1 },
                ))
                &&& (r matches Ok(res) ==> res == OpcodeResult::Continue { pc_increment: 1 })
                &&& (r is Ok ==> {
                    &&& f.stack@.len() >= 3
                    &&& g.stack@ == f.stack@.drop_last().drop_last().drop_last()
                    &&& g.gas_used == f.gas_used + charge
                    &&& (size > 0 ==> g.memory@ == crate::memory::write_view(
                        crate::memory::expand_view(
                            f.memory@,
                            crate::memory::round32(dest + size),
                        ),
                        dest,
                        zero_padded(crate::bytebuf::bytes_view(*src), off, size),
                    ))
                    &&& (size == 0 ==> g.memory@ == f.memory@)
                    &&& g.pc == f.pc
                })
            }),
    {
        let dest_offset = frame.stack.pop()?;
        let src_offset = frame.stack.pop()?;
        let size = match frame.stack.pop()?.to_usize() {
            Some(s) => s,
            None => {
                return Err(VMError::VeryLargeNumber);
            },
        };
        let new_memory_size = crate::memory::calculate_memory_size(&dest_offset, size)?;
        let current_size = frame.memory.len();
        let cost = crate::gas_cost::copy_opcode_cost(3, new_memory_size, current_size, size)?;
        frame.increase_consumed_gas(cost)?;
        if size == 0 {
            return Ok(OpcodeResult::Continue { pc_increment: 1 });
        }
        let data = padded_vec(src, &src_offset, size);
        frame.memory.try_store_data(&dest_offset, &data)?;
        Ok(OpcodeResult::Continue { pc_increment: 1 })
    }

    // CALLDATACOPY operation
    pub fn op_calldatacopy(&mut self) -> (r: Result<OpcodeResult, VMError>)
        requires
            old(self).wf(),
            old(self).has_frame(),
        ensures
            final(self).wf(),
            same_world(*old(self), *final(self)),
            final(self).call_frames@.len() == old(self).call_frames@.len(),
            final(self).call_frames@.drop_last() == old(self).call_frames@.drop_last(),
            ctx(final(self).cur()) == ctx(old(self).cur()),
            final(self).cur().gas_used >= old(self).cur().gas_used,
            r is Ok ==> final(self).cur().gas_used > old(self).cur().gas_used,
            ({
                let f = old(self).cur();
                let g = final(self).cur();
                let dest = f.stack@.last().as_nat() as int;
                let off = f.stack@[f.stack@.len() - 2].as_nat();
                let size = f.stack@[f.stack@.len() - 3].as_nat();
                let grown_to = if size == 0 { 0int } else { crate::memory::round32(dest + size) };
                let charge = 3 + 3 * crate::gas_cost::words32(size as int)
                    + crate::gas_cost::mem_expansion(grown_to, f.memory@.len() as int);
                &&& (f.stack@.len() < 3 ==> r == Err::<OpcodeResult, VMError>(
                    VMError::StackUnderflow,
                ))
                &&& (f.stack@.len() >= 3 && size <= usize::MAX
                    && (size == 0 || dest + size + 31 <= usize::MAX)
                    && crate::gas_cost::mem_cost(grown_to) <= u64::MAX
                    && f.gas_used + charge <= f.gas_limit ==> r == Ok::<OpcodeResult, VMError>(
                    OpcodeResult::Continue { pc_increment: 1 },
                ))
                &&& (r matches Ok(res) ==> res == OpcodeResult::Continue { pc_increment: 1 })
                &&& (r is Ok ==> {
                    &&& g.stack@ == f.stack@.drop_last().drop_last().drop_last()
                    &&& g.gas_used == f.gas_used + charge
                    &&& (size > 0 ==> g.memory@ == crate::memory::write_view(
                        crate::memory::expand_view(
                            f.memory@,
                            crate::memory::round32(dest + size),
                        ),
                        dest,
                        zero_padded(f.calldata_view(), off, size),
                    ))
                    &&& (size == 0 ==> g.memory@ == f.memory@)
                })
            }),
    {
        let mut frame = self.take_frame();
        proof {
            assert(old(self).call_frames@[old(self).call_frames@.len() - 1].wf());
            crate::vm::lemma_frames_wf_drop(old(self).call_frames@);
        }
        let src = crate::bytebuf::bytes_clone(&frame.calldata);
        let result = Self::copy_work(&mut frame, &src);
        self.put_frame(frame);
        proof {
            assert(self.call_frames@.drop_last() =~= old(self).call_frames@.drop_last());
            assert(self.call_frames@.last().wf());
            crate::vm::lemma_frames_wf_push(
                old(self).call_frames@.drop_last(),
                self.call_frames@.last(),
            );
            assert(self.call_frames@ =~= old(self).call_frames@.drop_last().push(
                self.call_frames@.last(),
            ));
        }
        result
    }

    // CODECOPY operation
    pub fn op_codecopy(&mut self) -> (r: Result<OpcodeResult, VMError>)
        requires
            old(self).wf(),
            old(self).has_frame(),
        ensures
            final(self).wf(),
            same_world(*old(self), *final(self)),
            final(self).call_frames@.len() == old(self).call_frames@.len(),
            final(self).call_frames@.drop_last() == old(self).call_frames@.drop_last(),
            ctx(final(self).cur()) == ctx(old(self).cur()),
            final(self).cur().gas_used >= old(self).cur().gas_used,
            r is Ok ==> final(self).cur().gas_used > old(self).cur().gas_used,
            ({
                let f = old(self).cur();
                let g = final(self).cur();
                let dest = f.stack@.last().as_nat() as int;
                let off = f.stack@[f.stack@.len() - 2].as_nat();
                let size = f.stack@[f.stack@.len() - 3].as_nat();
                let grown_to = if size == 0 { 0int } else { crate::memory::round32(dest + size) };
                let charge = 3 + 3 * crate::gas_cost::words32(size as int)
                    + crate::gas_cost::mem_expansion(grown_to, f.memory@.len() as int);
                &&& (f.stack@.len() < 3 ==> r == Err::<OpcodeResult, VMError>(
                    VMError::StackUnderflow,
                ))
                &&& (f.stack@.len() >= 3 && size <= usize::MAX
                    && (size == 0 || dest + size + 31 <= usize::MAX)
                    && crate::gas_cost::mem_cost(grown_to) <= u64::MAX
                    && f.gas_used + charge <= f.gas_limit ==> r == Ok::<OpcodeResult, VMError>(
                    OpcodeResult::Continue { pc_increment: 1 },
                ))
                &&& (r matches Ok(res) ==> res == OpcodeResult::Continue { pc_increment: 1 })
                &&& (r is Ok ==> {
                    &&& g.stack@ == f.stack@.drop_last().drop_last().drop_last()
                    &&& g.gas_used == f.gas_used + charge
                    &&& (size > 0 ==> g.memory@ == crate::memory::write_view(
                        crate::memory::expand_view(
                            f.memory@,
                            crate::memory::round32(dest + size),
                        ),
                        dest,
                        zero_padded(f.code_view(), off, size),
                    ))
                    &&& (size == 0 ==> g.memory@ == f.memory@)
                })
            }),
    {
        let mut frame = self.take_frame();
        proof {
            assert(old(self).call_frames@[old(self).call_frames@.len() - 1].wf());
            crate::vm::lemma_frames_wf_drop(old(self).call_frames@);
        }
        let src = crate::bytebuf::bytes_clone(&frame.bytecode);
        let result = Self::copy_work(&mut frame, &src);
        self.put_frame(frame);
        proof {
            assert(self.call_frames@.drop_last() =~= old(self).call_frames@.drop_last());
            assert(self.call_frames@.last().wf());
            crate::vm::lemma_frames_wf_push(
                old(self).call_frames@.drop_last(),
                self.call_frames@.last(),
            );
            assert(self.call_frames@ =~= old(self).call_frames@.drop_last().push(
                self.call_frames@.last(),
            ));
        }
        result
    }

    // RETURNDATACOPY operation
    pub fn op_returndatacopy(&mut self) -> (r: Result<OpcodeResult, VMError>)
        requires
            old(self).wf(),
            old(self).has_frame(),
        ensures
            final(self).wf(),
            same_world(*old(self), *final(self)),
            final(self).call_frames@.len() == old(self).call_frames@.len(),
            final(self).call_frames@.drop_last() == old(self).call_frames@.drop_last(),
            ctx(final(self).cur()) == ctx(old(self).cur()),
            final(self).cur().gas_used >= old(self).cur().gas_used,
            r is Ok ==> final(self).cur().gas_used > old(self).cur().gas_used,
            crate::fork::fork_num(old(self).env.config.fork) < crate::fork::fork_num(
                Fork::Byzantium,
            ) ==> r == Err::<OpcodeResult, VMError>(VMError::InvalidOpcode),
            ({
                let f = old(self).cur();
                let g = final(self).cur();
                let dest = f.stack@.last().as_nat() as int;
                let off = f.stack@[f.stack@.len() - 2].as_nat();
                let size = f.stack@[f.stack@.len() - 3].as_nat();
                let grown_to = if size == 0 { 0int } else { crate::memory::round32(dest + size) };
                let charge = 3 + 3 * crate::gas_cost::words32(size as int)
                    + crate::gas_cost::mem_expansion(grown_to, f.memory@.len() as int);
                let in_range = (size == 0 && off == 0) || (off + size
                    <= f.sub_return_data_view().len());
                &&& (crate::fork::fork_num(old(self).env.config.fork) >= crate::fork::fork_num(
                    Fork::Byzantium,
                ) && f.stack@.len() < 3 ==> r is Err)
                &&& (crate::fork::fork_num(old(self).env.config.fork) >= crate::fork::fork_num(
                    Fork::Byzantium,
                ) && f.stack@.len() >= 3 && off <= usize::MAX && size <= usize::MAX
                    && (size == 0 || dest + size + 31 <= usize::MAX)
                    && crate::gas_cost::mem_cost(grown_to) <= u64::MAX
                    && f.gas_used + charge <= f.gas_limit && off + size <= usize::MAX
                    && in_range ==> r == Ok::<OpcodeResult, VMError>(
                    OpcodeResult::Continue { pc_increment: 1 },
                ))
                &&& (crate::fork::fork_num(old(self).env.config.fork) >= crate::fork::fork_num(
                    Fork::Byzantium,
                ) && f.stack@.len() >= 3 && off <= usize::MAX && size <= usize::MAX
                    && (size == 0 || dest + size + 31 <= usize::MAX)
                    && crate::gas_cost::mem_cost(grown_to) <= u64::MAX
                    && f.gas_used + charge <= f.gas_limit && off + size <= usize::MAX
                    && !in_range ==> (r == Err::<OpcodeResult, VMError>(VMError::OutOfBounds)
                    && g.memory@ == f.memory@))
                &&& (r matches Ok(res) ==> res == OpcodeResult::Continue { pc_increment: 1 })
                &&& (r is Ok ==> {
                    &&& g.stack@ == f.stack@.drop_last().drop_last().drop_last()
                    &&& g.gas_used == f.gas_used + charge
                    &&& (size > 0 || off > 0 ==> off + size <= f.sub_return_data_view().len())
                    &&& (size > 0 ==> g.memory@ == crate::memory::write_view(
                        crate::memory::expand_view(
                            f.memory@,
                            crate::memory::round32(dest + size),
                        ),
                        dest,
                        zero_padded(f.sub_return_data_view(), off, size),
                    ))
                    &&& (size == 0 ==> g.memory@ == f.memory@)
                })
            }),
    {
        if self.env.config.fork.before(Fork::Byzantium) {
            return Err(VMError::InvalidOpcode);
        }
        let mut frame = self.take_frame();
        proof {
            assert(old(self).call_frames@[old(self).call_frames@.len() - 1].wf());
            crate::vm::lemma_frames_wf_drop(old(self).call_frames@);
        }
        let result = Self::returndatacopy_work(&mut frame);
        self.put_frame(frame);
        proof {
            assert(self.call_frames@.drop_last() =~= old(self).call_frames@.drop_last());
            assert(self.call_frames@.last().wf());
            crate::vm::lemma_frames_wf_push(
                old(self).call_frames@.drop_last(),
                self.call_frames@.last(),
            );
            assert(self.call_frames@ =~= old(self).call_frames@.drop_last().push(
                self.call_frames@.last(),
            ));
        }
        result
    }

    fn returndatacopy_work(frame: &mut CallFrame) -> (r: Result<OpcodeResult, VMError>)
        requires
            old(frame).wf(),
        ensures
            final(frame).wf(),
            ctx(*final(frame)) == ctx(*old(frame)),
            final(frame).gas_used >= old(frame).gas_used,
            r is Ok ==> final(frame).gas_used > old(frame).gas_used,
            ({
                let f = *old(frame);
                let g = *final(frame);
                let dest = f.stack@.last().as_nat() as int;
                let off = f.stack@[f.stack@.len() - 2].as_nat();
                let size = f.stack@[f.stack@.len() - 3].as_nat();
                let grown_to = if size == 0 { 0int } else { crate::memory::round32(dest + size) };
                let charge = 3 + 3 * crate::gas_cost::words32(size as int)
                    + crate::gas_cost::mem_expansion(grown_to, f.memory@.len() as int);
                let in_range = (size == 0 && off == 0) || (off + size
                    <= f.sub_return_data_view().len());
                &&& (f.stack@.len() < 3 ==> r is Err)
                &&& (f.stack@.len() >= 3 && off <= usize::MAX && size <= usize::MAX
                    && (size == 0 || dest + size + 31 <= usize::MAX)
                    && crate::gas_cost::mem_cost(grown_to) <= u64::MAX
                    && f.gas_used + charge <= f.gas_limit && off + size <= usize::MAX
                    && in_range ==> r == Ok::<OpcodeResult, VMError>(
                    OpcodeResult::Continue { pc_increment: 1 },
                ))
                &&& (f.stack@.len() >= 3 && off <= usize::MAX && size <= usize::MAX
                    && (size == 0 || dest + size + 31 <= usize::MAX)
                    && crate::gas_cost::mem_cost(grown_to) <= u64::MAX
                    && f.gas_used + charge <= f.gas_limit && off + size <= usize::MAX
                    && !in_range ==> (r == Err::<OpcodeResult, VMError>(VMError::OutOfBounds)
                    && g.memory@ == f.memory@))
                &&& (r matches Ok(res) ==> res == OpcodeResult::Continue { pc_increment: 1 })
                &&& (r is Ok ==> {
                    &&& g.stack@ == f.stack@.drop_last().drop_last().drop_last()
                    &&& g.gas_used == f.gas_used + charge
                    &&& (size > 0 || off > 0 ==> off + size <= f.sub_return_data_view().len())
                    &&& (size > 0 ==> g.memory@ == crate::memory::write_view(
                        crate::memory::expand_view(
                            f.memory@,
                            crate::memory::round32(dest + size),
                        ),
                        dest,
                        zero_padded(f.sub_return_data_view(), off, size),
                    ))
                    &&& (size == 0 ==> g.memory@ == f.memory@)
                })
            }),
    {
        let dest_offset = frame.stack.pop()?;
        let returndata_offset = match frame.stack.pop()?.to_usize() {
            Some(o) => o,
            None => {
                return Err(VMError::VeryLargeNumber);
            },
        };
        let size = match frame.stack.pop()?.to_usize() {
            Some(s) => s,
            None => {
                return Err(VMError::VeryLargeNumber);
            },
        };
        let new_memory_size = crate::memory::calculate_memory_size(&dest_offset, size)?;
        let current_size = frame.memory.len();
        let cost = crate::gas_cost::copy_opcode_cost(3, new_memory_size, current_size, size)?;
        frame.increase_consumed_gas(cost)?;
        if size == 0 && returndata_offset == 0 {
            return Ok(OpcodeResult::Continue { pc_increment: 1 });
        }
        let sub_return_data_len = crate::bytebuf::bytes_len(&frame.sub_return_data);
        let copy_limit = match returndata_offset.checked_add(size) {
            Some(l) => l,
            None => {
                return Err(VMError::VeryLargeNumber);
            },
        };
        if copy_limit > sub_return_data_len {
            return Err(VMError::OutOfBounds);
        }
        if size == 0 {
            return Ok(OpcodeResult::Continue { pc_increment: 1 });
        }
        let src = crate::bytebuf::bytes_clone(&frame.sub_return_data);
        let src_offset = U256::from_usize(returndata_offset);
        let data = padded_vec(&src, &src_offset, size);
        frame.memory.try_store_data(&dest_offset, &data)?;
        Ok(OpcodeResult::Continue { pc_increment: 1 })
    }
}

impl VM {
    // BALANCE operation
    pub fn op_balance(&mut self) -> (r: Result<OpcodeResult, VMError>)
        requires
            old(self).wf(),
            old(self).has_frame(),
        ensures
            final(self).wf(),
            final(self).env == old(self).env,
            final(self).tx_kind == old(self).tx_kind,
            final(self).access_list == old(self).access_list,
            final(self).cache_backup == old(self).cache_backup,
            final(self).return_data == old(self).return_data,
            final(self).backups == old(self).backups,
            final(self).db.store == old(self).db.store,
            final(self).accrued_substate.selfdestruct_set == old(self).accrued_substate.selfdestruct_set,
            final(self).accrued_substate.touched_storage_slots == old(self).accrued_substate.touched_storage_slots,
            final(self).accrued_substate.created_accounts == old(self).accrued_substate.created_accounts,
            final(self).call_frames@.len() == old(self).call_frames@.len(),
            final(self).call_frames@.drop_last() == old(self).call_frames@.drop_last(),
            ctx(final(self).cur()) == ctx(old(self).cur()),
            final(self).cur().gas_used >= old(self).cur().gas_used,
            r is Ok ==> final(self).cur().gas_used > old(self).cur().gas_used,
            ({
                let f = old(self).cur();
                let g = final(self).cur();
                let addr = f.stack@.last()@.skip(12);
                let base = crate::db::read_through(old(self).db.store, old(self).db.model(), addr);
                let was_cold = !old(self).accrued_substate.touched_accounts@.contains(addr);
                &&& (f.stack@.len() == 0 ==> r == Err::<OpcodeResult, VMError>(
                    VMError::StackUnderflow,
                ))
                &&& (f.stack@.len() > 0 && f.gas_used + crate::gas_cost::balance_access_cost(
                    was_cold,
                    old(self).env.config.fork,
                ) <= f.gas_limit ==> r == Ok::<OpcodeResult, VMError>(
                    OpcodeResult::Continue { pc_increment: 1 },
                ))
                &&& (r matches Ok(res) ==> res == OpcodeResult::Continue { pc_increment: 1 })
                &&& (r is Ok ==> {
                    &&& f.stack@.len() > 0
                    &&& g.stack@ == f.stack@.drop_last().push(g.stack@.last())
                    &&& g.stack@.last().as_nat() == base[addr].0
                    &&& g.gas_used == f.gas_used + crate::gas_cost::balance_access_cost(
                        was_cold,
                        old(self).env.config.fork,
                    )
                    &&& g.memory@ == f.memory@
                    &&& final(self).db.model() == base
                    &&& final(self).accrued_substate.touched_accounts@ == old(
                        self,
                    ).accrued_substate.touched_accounts@.insert(addr)
                })
            }),
    {
        let fork = self.env.config.fork;
        let ghost pre = *self;
        let mut frame = self.take_frame();
        proof {
            assert(old(self).call_frames@[old(self).call_frames@.len() - 1].wf());
            crate::vm::lemma_frames_wf_drop(old(self).call_frames@);
        }
        let popped = frame.stack.pop();
        self.put_frame(frame);
        proof {
            assert(self.call_frames@.drop_last() =~= old(self).call_frames@.drop_last());
            assert(self.call_frames@.last().wf());
            crate::vm::lemma_frames_wf_push(
                old(self).call_frames@.drop_last(),
                self.call_frames@.last(),
            );
            assert(self.call_frames@ =~= old(self).call_frames@.drop_last().push(
                self.call_frames@.last(),
            ));
        }
        let address = match popped {
            Ok(w) => word_to_address(&w),
            Err(e) => {
                return Err(e);
            },
        };
        let (account_info, address_was_cold) = access_account(
            &mut self.db,
            &mut self.accrued_substate,
            address,
        );
        let cost = crate::gas_cost::balance(address_was_cold, fork)?;
        let ghost mid = *self;
        let mut frame = self.take_frame();
        proof {
            assert(mid.call_frames@[mid.call_frames@.len() - 1].wf());
            crate::vm::lemma_frames_wf_drop(mid.call_frames@);
        }
        let result = match frame.increase_consumed_gas(cost) {
            Ok(()) => match frame.stack.push(account_info.balance) {
                Ok(()) => Ok(OpcodeResult::Continue { pc_increment: 1 }),
                Err(e) => Err(e),
            },
            Err(e) => Err(e),
        };
        self.put_frame(frame);
        proof {
            assert(self.call_frames@.drop_last() =~= old(self).call_frames@.drop_last());
            assert(self.call_frames@.last().wf());
            crate::vm::lemma_frames_wf_push(
                old(self).call_frames@.drop_last(),
                self.call_frames@.last(),
            );
            assert(self.call_frames@ =~= old(self).call_frames@.drop_last().push(
                self.call_frames@.last(),
            ));
        }
        result
    }

    // EXTCODESIZE operation
    pub fn op_extcodesize(&mut self) -> (r: Result<OpcodeResult, VMError>)
        requires
            old(self).wf(),
            old(self).has_frame(),
        ensures
            final(self).wf(),
            final(self).env == old(self).env,
            final(self).tx_kind == old(self).tx_kind,
            final(self).access_list == old(self).access_list,
            final(self).cache_backup == old(self).cache_backup,
            final(self).return_data == old(self).return_data,
            final(self).backups == old(self).backups,
            final(self).db.store == old(self).db.store,
            final(self).accrued_substate.selfdestruct_set == old(self).accrued_substate.selfdestruct_set,
            final(self).accrued_substate.touched_storage_slots == old(self).accrued_substate.touched_storage_slots,
            final(self).accrued_substate.created_accounts == old(self).accrued_substate.created_accounts,
            final(self).call_frames@.len() == old(self).call_frames@.len(),
            final(self).call_frames@.drop_last() == old(self).call_frames@.drop_last(),
            ctx(final(self).cur()) == ctx(old(self).cur()),
            final(self).cur().gas_used >= old(self).cur().gas_used,
            r is Ok ==> final(self).cur().gas_used > old(self).cur().gas_used,
            ({
                let f = old(self).cur();
                let g = final(self).cur();
                let addr = f.stack@.last()@.skip(12);
                let base = crate::db::read_through(old(self).db.store, old(self).db.model(), addr);
                let was_cold = !old(self).accrued_substate.touched_accounts@.contains(addr);
                &&& (f.stack@.len() == 0 ==> r == Err::<OpcodeResult, VMError>(
                    VMError::StackUnderflow,
                ))
                &&& (f.stack@.len() > 0 && f.gas_used + crate::gas_cost::extcodesize_access_cost(
                    was_cold,
                    old(self).env.config.fork,
                ) <= f.gas_limit ==> r == Ok::<OpcodeResult, VMError>(
                    OpcodeResult::Continue { pc_increment: 1 },
                ))
                &&& (r matches Ok(res) ==> res == OpcodeResult::Continue { pc_increment: 1 })
                &&& (r is Ok ==> {
                    &&& f.stack@.len() > 0
                    &&& g.stack@ == f.stack@.drop_last().push(g.stack@.last())
                    &&& g.stack@.last().as_nat() == base[addr].2.len()
                    &&& g.gas_used == f.gas_used + crate::gas_cost::extcodesize_access_cost(
                        was_cold,
                        old(self).env.config.fork,
                    )
                    &&& g.memory@ == f.memory@
                    &&& final(self).db.model() == base
                    &&& final(self).accrued_substate.touched_accounts@ == old(
                        self,
                    ).accrued_substate.touched_accounts@.insert(addr)
                })
            }),
    {
        let fork = self.env.config.fork;
        let mut frame = self.take_frame();
        proof {
            assert(old(self).call_frames@[old(self).call_frames@.len() - 1].wf());
            crate::vm::lemma_frames_wf_drop(old(self).call_frames@);
        }
        let popped = frame.stack.pop();
        self.put_frame(frame);
        proof {
            assert(self.call_frames@.drop_last() =~= old(self).call_frames@.drop_last());
            assert(self.call_frames@.last().wf());
            crate::vm::lemma_frames_wf_push(
                old(self).call_frames@.drop_last(),
                self.call_frames@.last(),
            );
            assert(self.call_frames@ =~= old(self).call_frames@.drop_last().push(
                self.call_frames@.last(),
            ));
        }
        let address = match popped {
            Ok(w) => word_to_address(&w),
            Err(e) => {
                return Err(e);
            },
        };
        let (account_info, address_was_cold) = access_account(
            &mut self.db,
            &mut self.accrued_substate,
            address,
        );
        let cost = crate::gas_cost::extcodesize(address_was_cold, fork)?;
        let code_len = crate::bytebuf::bytes_len(&account_info.bytecode);
        let word = U256::from_usize(code_len);
        let ghost mid = *self;
        let mut frame = self.take_frame();
        proof {
            assert(mid.call_frames@[mid.call_frames@.len() - 1].wf());
            crate::vm::lemma_frames_wf_drop(mid.call_frames@);
        }
        let result = match frame.increase_consumed_gas(cost) {
            Ok(()) => match frame.stack.push(word) {
                Ok(()) => Ok(OpcodeResult::Continue { pc_increment: 1 }),
                Err(e) => Err(e),
            },
            Err(e) => Err(e),
        };
        self.put_frame(frame);
        proof {
            assert(self.call_frames@.drop_last() =~= old(self).call_frames@.drop_last());
            assert(self.call_frames@.last().wf());
            crate::vm::lemma_frames_wf_push(
                old(self).call_frames@.drop_last(),
                self.call_frames@.last(),
            );
            assert(self.call_frames@ =~= old(self).call_frames@.drop_last().push(
                self.call_frames@.last(),
            ));
        }
        result
    }

    // EXTCODEHASH operation
    pub fn op_extcodehash(&mut self) -> (r: Result<OpcodeResult, VMError>)
        requires
            old(self).wf(),
            old(self).has_frame(),
        ensures
            final(self).wf(),
            final(self).env == old(self).env,
            final(self).tx_kind == old(self).tx_kind,
            final(self).access_list == old(self).access_list,
            final(self).cache_backup == old(self).cache_backup,
            final(self).return_data == old(self).return_data,
            final(self).backups == old(self).backups,
            final(self).db.store == old(self).db.store,
            final(self).accrued_substate.selfdestruct_set == old(self).accrued_substate.selfdestruct_set,
            final(self).accrued_substate.touched_storage_slots == old(self).accrued_substate.touched_storage_slots,
            final(self).accrued_substate.created_accounts == old(self).accrued_substate.created_accounts,
            final(self).call_frames@.len() == old(self).call_frames@.len(),
            final(self).call_frames@.drop_last() == old(self).call_frames@.drop_last(),
            ctx(final(self).cur()) == ctx(old(self).cur()),
            final(self).cur().gas_used >= old(self).cur().gas_used,
            r is Ok ==> final(self).cur().gas_used > old(self).cur().gas_used,
            ({
                let f = old(self).cur();
                let g = final(self).cur();
                let addr = f.stack@.last()@.skip(12);
                let base = crate::db::read_through(old(self).db.store, old(self).db.model(), addr);
                let acct = base[addr];
                let empty_acct = acct.0 == 0 && acct.1 == 0 && acct.2.len() == 0;
                let was_cold = !old(self).accrued_substate.touched_accounts@.contains(addr);
                &&& (f.stack@.len() == 0 ==> r == Err::<OpcodeResult, VMError>(
                    VMError::StackUnderflow,
                ))
                &&& (f.stack@.len() > 0 && f.gas_used + crate::gas_cost::extcodehash_access_cost(
                    was_cold,
                    old(self).env.config.fork,
                ) <= f.gas_limit ==> r == Ok::<OpcodeResult, VMError>(
                    OpcodeResult::Continue { pc_increment: 1 },
                ))
                &&& (r matches Ok(res) ==> res == OpcodeResult::Continue { pc_increment: 1 })
                &&& (r is Ok ==> {
                    &&& f.stack@.len() > 0
                    &&& g.stack@ == f.stack@.drop_last().push(g.stack@.last())
                    &&& g.gas_used == f.gas_used + crate::gas_cost::extcodehash_access_cost(
                        was_cold,
                        old(self).env.config.fork,
                    )
                    &&& (empty_acct ==> g.stack@.last().as_nat() == 0)
                    &&& (!empty_acct ==> g.stack@.last()@ == crate::hashing::keccak_of(acct.2))
                    &&& g.memory@ == f.memory@
                    &&& final(self).db.model() == base
                    &&& final(self).accrued_substate.touched_accounts@ == old(
                        self,
                    ).accrued_substate.touched_accounts@.insert(addr)
                })
            }),
    {
        let fork = self.env.config.fork;
        let mut frame = self.take_frame();
        proof {
            assert(old(self).call_frames@[old(self).call_frames@.len() - 1].wf());
            crate::vm::lemma_frames_wf_drop(old(self).call_frames@);
        }
        let popped = frame.stack.pop();
        self.put_frame(frame);
        proof {
            assert(self.call_frames@.drop_last() =~= old(self).call_frames@.drop_last());
            assert(self.call_frames@.last().wf());
            crate::vm::lemma_frames_wf_push(
                old(self).call_frames@.drop_last(),
                self.call_frames@.last(),
            );
            assert(self.call_frames@ =~= old(self).call_frames@.drop_last().push(
                self.call_frames@.last(),
            ));
        }
        let address = match popped {
            Ok(w) => word_to_address(&w),
            Err(e) => {
                return Err(e);
            },
        };
        let (account_info, address_was_cold) = access_account(
            &mut self.db,
            &mut self.accrued_substate,
            address,
        );
        let cost = crate::gas_cost::extcodehash(address_was_cold, fork)?;
        let word = if account_info.is_empty() {
            let z = U256::zero();
            z
        } else {
            let code = crate::bytebuf::bytes_to_vec(&account_info.bytecode);
            let digest = crate::hashing::keccak256(&code);
            U256::from_be_bytes(digest.as_slice())
        };
        let ghost mid = *self;
        let mut frame = self.take_frame();
        proof {
            assert(mid.call_frames@[mid.call_frames@.len() - 1].wf());
            crate::vm::lemma_frames_wf_drop(mid.call_frames@);
        }
        let result = match frame.increase_consumed_gas(cost) {
            Ok(()) => match frame.stack.push(word) {
                Ok(()) => Ok(OpcodeResult::Continue { pc_increment: 1 }),
                Err(e) => Err(e),
            },
            Err(e) => Err(e),
        };
        self.put_frame(frame);
        proof {
            assert(self.call_frames@.drop_last() =~= old(self).call_frames@.drop_last());
            assert(self.call_frames@.last().wf());
            crate::vm::lemma_frames_wf_push(
                old(self).call_frames@.drop_last(),
                self.call_frames@.last(),
            );
            assert(self.call_frames@ =~= old(self).call_frames@.drop_last().push(
                self.call_frames@.last(),
            ));
        }
        result
    }

    // EXTCODECOPY operation
    #[verifier::rlimit(80)]
    pub fn op_extcodecopy(&mut self) -> (r: Result<OpcodeResult, VMError>)
        requires
            old(self).wf(),
            old(self).has_frame(),
        ensures
            final(self).wf(),
            final(self).env == old(self).env,
            final(self).tx_kind == old(self).tx_kind,
            final(self).access_list == old(self).access_list,
            final(self).cache_backup == old(self).cache_backup,
            final(self).return_data == old(self).return_data,
            final(self).backups == old(self).backups,
            final(self).db.store == old(self).db.store,
            final(self).accrued_substate.selfdestruct_set == old(self).accrued_substate.selfdestruct_set,
            final(self).accrued_substate.touched_storage_slots == old(self).accrued_substate.touched_storage_slots,
            final(self).accrued_substate.created_accounts == old(self).accrued_substate.created_accounts,
            final(self).call_frames@.len() == old(self).call_frames@.len(),
            final(self).call_frames@.drop_last() == old(self).call_frames@.drop_last(),
            ctx(final(self).cur()) == ctx(old(self).cur()),
            final(self).cur().gas_used >= old(self).cur().gas_used,
            r is Ok ==> final(self).cur().gas_used > old(self).cur().gas_used,
            ({
                let f = old(self).cur();
                let g = final(self).cur();
                let addr = f.stack@.last()@.skip(12);
                let dest = f.stack@[f.stack@.len() - 2].as_nat() as int;
                let off = f.stack@[f.stack@.len() - 3].as_nat();
                let size = f.stack@[f.stack@.len() - 4].as_nat();
                let base = crate::db::read_through(old(self).db.store, old(self).db.model(), addr);
                let was_cold = !old(self).accrued_substate.touched_accounts@.contains(addr);
                let grown_to = if size == 0 { 0int } else { crate::memory::round32(dest + size) };
                let charge = crate::gas_cost::extcodesize_access_cost(
                    was_cold,
                    old(self).env.config.fork,
                ) + 3 * crate::gas_cost::words32(size as int) + crate::gas_cost::mem_expansion(
                    grown_to,
                    f.memory@.len() as int,
                );
                &&& (f.stack@.len() < 4 ==> r is Err)
                &&& (f.stack@.len() >= 4 && size <= usize::MAX
                    && (size == 0 || dest + size + 31 <= usize::MAX)
                    && crate::gas_cost::mem_cost(grown_to) <= u64::MAX
                    && f.gas_used + charge <= f.gas_limit ==> r == Ok::<OpcodeResult, VMError>(
                    OpcodeResult::Continue { pc_increment: 1 },
                ))
                &&& (r matches Ok(res) ==> res == OpcodeResult::Continue { pc_increment: 1 })
                &&& (r is Ok ==> {
                    &&& f.stack@.len() >= 4
                    &&& g.stack@ == f.stack@.drop_last().drop_last().drop_last().drop_last()
                    &&& g.gas_used == f.gas_used + charge
                    &&& (size > 0 ==> g.memory@ == crate::memory::write_view(
                        crate::memory::expand_view(
                            f.memory@,
                            crate::memory::round32(dest + size),
                        ),
                        dest,
                        zero_padded(base[addr].2, off, size),
                    ))
                    &&& (size == 0 ==> g.memory@ == f.memory@)
                    &&& final(self).db.model() == base
                    &&& final(self).accrued_substate.touched_accounts@ == old(
                        self,
                    ).accrued_substate.touched_accounts@.insert(addr)
                })
            }),
    {
        let fork = self.env.config.fork;
        let mut frame = self.take_frame();
        proof {
            assert(old(self).call_frames@[old(self).call_frames@.len() - 1].wf());
            crate::vm::lemma_frames_wf_drop(old(self).call_frames@);
        }
        let popped = match frame.stack.pop() {
            Ok(a) => match frame.stack.pop() {
                Ok(d) => match frame.stack.pop() {
                    Ok(o) => match frame.stack.pop() {
                        Ok(s) => Ok((a, d, o, s)),
                        Err(e) => Err(e),
                    },
                    Err(e) => Err(e),
                },
                Err(e) => Err(e),
            },
            Err(e) => Err(e),
        };
        let current_size = frame.memory.len();
        self.put_frame(frame);
        proof {
            assert(self.call_frames@.drop_last() =~= old(self).call_frames@.drop_last());
            assert(self.call_frames@.last().wf());
            crate::vm::lemma_frames_wf_push(
                old(self).call_frames@.drop_last(),
                self.call_frames@.last(),
            );
            assert(self.call_frames@ =~= old(self).call_frames@.drop_last().push(
                self.call_frames@.last(),
            ));
        }
        let (addr_word, dest_offset, code_offset, size_word) = match popped {
            Ok(p) => p,
            Err(e) => {
                return Err(e);
            },
        };
        let address = word_to_address(&addr_word);
        let size = match size_word.to_usize() {
            Some(s) => s,
            None => {
                return Err(VMError::VeryLargeNumber);
            },
        };
        let (account_info, address_was_cold) = access_account(
            &mut self.db,
            &mut self.accrued_substate,
            address,
        );
        let new_memory_size = crate::memory::calculate_memory_size(&dest_offset, size)?;
        let cost = crate::gas_cost::extcodecopy(
            size,
            new_memory_size,
            current_size,
            address_was_cold,
            fork,
        )?;
        let data = padded_vec(&account_info.bytecode, &code_offset, size);
        let ghost mid = *self;
        let mut frame = self.take_frame();
        proof {
            assert(mid.call_frames@[mid.call_frames@.len() - 1].wf());
            crate::vm::lemma_frames_wf_drop(mid.call_frames@);
        }
        let result = match frame.increase_consumed_gas(cost) {
            Ok(()) => {
                if size == 0 {
                    Ok(OpcodeResult::Continue { pc_increment: 1 })
                } else {
                    match frame.memory.try_store_data(&dest_offset, &data) {
                        Ok(()) => Ok(OpcodeResult::Continue { pc_increment: 1 }),
                        Err(e) => Err(e),
                    }
                }
            },
            Err(e) => Err(e),
        };
        self.put_frame(frame);
        proof {
            assert(self.call_frames@.drop_last() =~= old(self).call_frames@.drop_last());
            assert(self.call_frames@.last().wf());
            crate::vm::lemma_frames_wf_push(
                old(self).call_frames@.drop_last(),
                self.call_frames@.last(),
            );
            assert(self.call_frames@ =~= old(self).call_frames@.drop_last().push(
                self.call_frames@.last(),
            ));
        }
        result
    }
}

/// The zero-padded `size`-byte slice of `src` at `off`.
fn padded_vec(src: &bytes::Bytes, off: &U256, size: usize) -> (r: Vec<u8>)
    ensures
        r@ == zero_padded(crate::bytebuf::bytes_view(*src), off.as_nat(), size as nat),
{
    let len = crate::bytebuf::bytes_len(src);
    let mut out: Vec<u8> = Vec::new();
    match off.to_usize() {
        Some(o) => {
            let mut i: usize = 0;
            while i < size
                invariant
                    i <= size,
                    len == crate::bytebuf::bytes_view(*src).len(),
                    o == off.as_nat(),
                    out@.len() == i,
                    forall|k: int| 0 <= k < i ==> out@[k] == zero_padded(
                        crate::bytebuf::bytes_view(*src),
                        off.as_nat(),
                        size as nat,
                    )[k],
                decreases size - i,
            {
                let b: u8 = if o <= usize::MAX - i && o + i < len {
                    crate::bytebuf::bytes_get(src, o + i)
                } else {
                    0
                };
                out.push(b);
                i += 1;
            }
            proof {
                assert(out@ =~= zero_padded(
                    crate::bytebuf::bytes_view(*src),
                    off.as_nat(),
                    size as nat,
                ));
            }
        },
        None => {
            let mut i: usize = 0;
            while i < size
                invariant
                    i <= size,
                    out@.len() == i,
                    forall|k: int| 0 <= k < i ==> out@[k] == 0,
                decreases size - i,
            {
                out.push(0);
                i += 1;
            }
            proof {
                assert(crate::bytebuf::bytes_view(*src).len() <= usize::MAX);
                assert(out@ =~= zero_padded(
                    crate::bytebuf::bytes_view(*src),
                    off.as_nat(),
                    size as nat,
                ));
            }
        },
    }
    out
}

} // verus!
